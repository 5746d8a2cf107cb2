//! The code generator: the symbol table, the tables of mnemonics, and the
//! two passes that turn a source into machine words written as text.
use crate::assembler::parser::{
    instruction_at, lemma_instruction_at, text_of, Address, AddressModel, Instruction,
    InstructionModel, ParseError, Parser,
};
use crate::text::{binary, lemma_binary_len, push_binary, str_eq};
use vstd::prelude::*;
use vstd::string::*;

verus! {

/// A table from names to numbers, as a list of entries. Of two entries with
/// one name the later one counts.
pub type Entries = Seq<(Seq<char>, u16)>;

/// The number that a table holds for a name, if any.
pub open spec fn lookup(table: Entries, name: Seq<char>) -> Option<u16>
    decreases table.len(),
{
    if table.len() == 0 {
        None
    } else if table.last().0 == name {
        Some(table.last().1)
    } else {
        lookup(table.drop_last(), name)
    }
}

/// The table as a map.
pub open spec fn map_of(table: Entries) -> Map<Seq<char>, u16> {
    Map::new(
        |name: Seq<char>| lookup(table, name) is Some,
        |name: Seq<char>| lookup(table, name)->0,
    )
}

/// The entries that a vector holds.
pub open spec fn entries_of(v: Seq<(String, u16)>) -> Entries {
    Seq::new(v.len(), |i: int| (v[i].0@, v[i].1))
}

/// The index of the entry that counts for a name, if there is one.
fn find(table: &Vec<(String, u16)>, name: &str) -> (r: Option<usize>)
    ensures
        match r {
            Some(i) => i < table@.len() && lookup(entries_of(table@), name@) == Some(
                table@[i as int].1,
            ),
            None => lookup(entries_of(table@), name@) is None,
        },
{
    let mut i: usize = table.len();
    assert(entries_of(table@).take(i as int) =~= entries_of(table@));
    while i > 0
        invariant
            i <= table@.len(),
            lookup(entries_of(table@), name@) == lookup(entries_of(table@).take(i as int), name@),
        decreases i,
    {
        let ghost part = entries_of(table@).take(i as int);
        assert(part.last() == entries_of(table@)[i - 1]);
        assert(part.drop_last() =~= entries_of(table@).take(i - 1));
        if str_eq(table[i - 1].0.as_str(), name) {
            return Some(i - 1);
        }
        i -= 1;
    }
    assert(entries_of(table@).take(0) =~= Seq::<(Seq<char>, u16)>::empty());
    None
}

/// A new entry counts for its name and leaves the other names as they
/// were.
pub proof fn lemma_lookup_push(table: Entries, name: Seq<char>, value: u16)
    ensures
        forall|other: Seq<char>|
            #[trigger] lookup(table.push((name, value)), other) == if other == name {
                Some(value)
            } else {
                lookup(table, other)
            },
        map_of(table.push((name, value))) == map_of(table).insert(name, value),
{
    assert(table.push((name, value)).drop_last() =~= table);
    assert(map_of(table.push((name, value))) =~= map_of(table).insert(name, value));
}

/// Adds an entry to a table.
fn put(table: &mut Vec<(String, u16)>, name: &str, value: u16)
    ensures
        entries_of(final(table)@) == entries_of(old(table)@).push((name@, value)),
        map_of(entries_of(final(table)@)) == map_of(entries_of(old(table)@)).insert(name@, value),
{
    table.push((String::from_str(name), value));
    assert(entries_of(table@) =~= entries_of(old(table)@).push((name@, value)));
    proof {
        lemma_lookup_push(entries_of(old(table)@), name@, value);
    }
}

/// The symbols that every program starts with: the virtual registers, the
/// bases of the segments, and the memory-mapped devices.
pub open spec fn predefined() -> Entries {
    seq![
        ("R0"@, 0u16),
        ("R1"@, 1u16),
        ("R2"@, 2u16),
        ("R3"@, 3u16),
        ("R4"@, 4u16),
        ("R5"@, 5u16),
        ("R6"@, 6u16),
        ("R7"@, 7u16),
        ("R8"@, 8u16),
        ("R9"@, 9u16),
        ("R10"@, 10u16),
        ("R11"@, 11u16),
        ("R12"@, 12u16),
        ("R13"@, 13u16),
        ("R14"@, 14u16),
        ("R15"@, 15u16),
        ("SP"@, 0u16),
        ("LCL"@, 1u16),
        ("ARG"@, 2u16),
        ("THIS"@, 3u16),
        ("THAT"@, 4u16),
        ("SCREEN"@, 16384u16),
        ("KEYBOARD"@, 24576u16),
    ]
}

/// The address of the first variable.
pub const FIRST_VARIABLE: u16 = 16;

/// The mathematical model of a symbol table: the addresses of the symbols,
/// and the address that the next variable gets.
pub struct Symbols {
    pub map: Map<Seq<char>, u16>,
    pub next: u16,
}

impl Symbols {
    /// The table that every program starts with.
    pub open spec fn initial() -> Symbols {
        Symbols { map: map_of(predefined()), next: FIRST_VARIABLE }
    }

    /// The address of a symbol that an A-instruction refers to: the one it
    /// has, or for a new symbol the next variable's.
    pub open spec fn address_of(self, name: Seq<char>) -> u16 {
        if self.map.contains_key(name) {
            self.map[name]
        } else {
            self.next
        }
    }

    /// The table after an A-instruction has referred to a symbol: a new
    /// symbol has become a variable, and the next variable comes one
    /// address later.
    pub open spec fn referred(self, name: Seq<char>) -> Symbols {
        if self.map.contains_key(name) {
            self
        } else {
            Symbols { map: self.map.insert(name, self.next), next: (self.next + 1) as u16 }
        }
    }
}

/// The symbol table of the assembler.
#[derive(Debug)]
pub struct SymbolTable {
    map: Vec<(String, u16)>,
    variable_counter: u16,
}

impl View for SymbolTable {
    type V = Symbols;

    closed spec fn view(&self) -> Symbols {
        Symbols { map: map_of(entries_of(self.map@)), next: self.variable_counter }
    }
}

impl SymbolTable {
    /// The table that every program starts with.
    pub fn new() -> (r: Self)
        ensures
            r@ == Symbols::initial(),
    {
        Self { map: SymbolTable::get_init_table(), variable_counter: FIRST_VARIABLE }
    }

    fn get_init_table() -> (r: Vec<(String, u16)>)
        ensures
            entries_of(r@) == predefined(),
    {
        let mut map: Vec<(String, u16)> = Vec::new();
        // virtual registers
        put(&mut map, "R0", 0);
        put(&mut map, "R1", 1);
        put(&mut map, "R2", 2);
        put(&mut map, "R3", 3);
        put(&mut map, "R4", 4);
        put(&mut map, "R5", 5);
        put(&mut map, "R6", 6);
        put(&mut map, "R7", 7);
        put(&mut map, "R8", 8);
        put(&mut map, "R9", 9);
        put(&mut map, "R10", 10);
        put(&mut map, "R11", 11);
        put(&mut map, "R12", 12);
        put(&mut map, "R13", 13);
        put(&mut map, "R14", 14);
        put(&mut map, "R15", 15);
        // bases of the segments
        put(&mut map, "SP", 0);
        put(&mut map, "LCL", 1);
        put(&mut map, "ARG", 2);
        put(&mut map, "THIS", 3);
        put(&mut map, "THAT", 4);
        // memory-mapped devices
        put(&mut map, "SCREEN", 16384);
        put(&mut map, "KEYBOARD", 24576);
        assert(entries_of(map@) =~= predefined());
        map
    }

    /// Gives a label its value, unless the symbol is in the table already.
    pub fn add_label(&mut self, label: &str, val: u16) -> (res: Result<(), String>)
        ensures
            final(self)@.next == old(self)@.next,
            if old(self)@.map.contains_key(label@) {
                &&& res matches Err(message)
                &&& message@ == AsmError::DuplicateLabel(label@).message()
                &&& final(self)@ == old(self)@
            } else {
                &&& res is Ok
                &&& final(self)@.map == old(self)@.map.insert(label@, val)
            },
    {
        if find(&self.map, label).is_some() {
            let mut message = String::from_str("attempt to add duplicate label: ");
            message.append(label);
            return Err(message);
        }
        put(&mut self.map, label, val);
        Ok(())
    }

    /// The address of a symbol that an A-instruction refers to. A symbol
    /// that is not in the table becomes a variable at the next free address.
    pub fn add_variable(&mut self, variable: &str) -> (r: u16)
        requires
            !old(self)@.map.contains_key(variable@) ==> old(self)@.next < u16::MAX,
        ensures
            r == old(self)@.address_of(variable@),
            final(self)@ == old(self)@.referred(variable@),
    {
        match find(&self.map, variable) {
            Some(i) => {
                return self.map[i].1;
            },
            None => {},
        }
        let out: u16 = self.variable_counter;
        put(&mut self.map, variable, self.variable_counter);
        self.variable_counter += 1;
        out
    }

    /// The address of a symbol, if it is in the table.
    pub fn get_symbol(&self, symbol: &str) -> (r: Option<u16>)
        ensures
            r == if self@.map.contains_key(symbol@) {
                Some(self@.map[symbol@])
            } else {
                None
            },
    {
        match find(&self.map, symbol) {
            Some(i) => Some(self.map[i].1),
            None => None,
        }
    }

    /// Whether a symbol is in the table.
    pub fn has(&self, symbol: &str) -> (r: bool)
        ensures
            r == self@.map.contains_key(symbol@),
    {
        find(&self.map, symbol).is_some()
    }

    /// The address that the next variable gets.
    pub fn next_variable(&self) -> (r: u16)
        ensures
            r == self@.next,
    {
        self.variable_counter
    }
}

/// The bits of a computation: the a-bit and the six control bits, in bits
/// 6 to 12 of the word.
pub open spec fn comp_code(bits: u16) -> u16 {
    (bits * 64) as u16
}

/// The bits of a destination, in bits 3 to 5 of the word.
pub open spec fn dest_code(bits: u16) -> u16 {
    (bits * 8) as u16
}

/// The 28 computations and their bits.
pub open spec fn comp_table() -> Entries {
    seq![
        ("0"@, comp_code(0b0101010)),
        ("1"@, comp_code(0b0111111)),
        ("-1"@, comp_code(0b0111010)),
        ("D"@, comp_code(0b0001100)),
        ("A"@, comp_code(0b0110000)),
        ("M"@, comp_code(0b1110000)),
        ("!D"@, comp_code(0b0001101)),
        ("!A"@, comp_code(0b0110001)),
        ("!M"@, comp_code(0b1110001)),
        ("-D"@, comp_code(0b0001111)),
        ("-A"@, comp_code(0b0110011)),
        ("-M"@, comp_code(0b1110011)),
        ("D+1"@, comp_code(0b0011111)),
        ("A+1"@, comp_code(0b0110111)),
        ("M+1"@, comp_code(0b1110111)),
        ("D-1"@, comp_code(0b0001110)),
        ("A-1"@, comp_code(0b0110010)),
        ("M-1"@, comp_code(0b1110010)),
        ("D+A"@, comp_code(0b0000010)),
        ("D+M"@, comp_code(0b1000010)),
        ("D-A"@, comp_code(0b0010011)),
        ("D-M"@, comp_code(0b1010011)),
        ("A-D"@, comp_code(0b0000111)),
        ("M-D"@, comp_code(0b1000111)),
        ("D&A"@, comp_code(0b0000000)),
        ("D&M"@, comp_code(0b1000000)),
        ("D|A"@, comp_code(0b0010101)),
        ("D|M"@, comp_code(0b1010101)),
    ]
}

/// The seven destinations and their bits.
pub open spec fn dest_table() -> Entries {
    seq![
        ("M"@, dest_code(0b001)),
        ("D"@, dest_code(0b010)),
        ("DM"@, dest_code(0b011)),
        ("A"@, dest_code(0b100)),
        ("AM"@, dest_code(0b101)),
        ("AD"@, dest_code(0b110)),
        ("ADM"@, dest_code(0b111)),
    ]
}

/// The seven jumps and their bits, bits 0 to 2 of the word.
pub open spec fn jump_table() -> Entries {
    seq![
        ("JGT"@, 0b001u16),
        ("JEQ"@, 0b010u16),
        ("JGE"@, 0b011u16),
        ("JLT"@, 0b100u16),
        ("JNE"@, 0b101u16),
        ("JLE"@, 0b110u16),
        ("JMP"@, 0b111u16),
    ]
}

/// Why a source could not be assembled.
pub enum AsmError {
    /// A record could not be read.
    Parse(ParseError),
    /// A label is defined where the symbol is in the table already.
    DuplicateLabel(Seq<char>),
    /// The text is no computation.
    InvalidComp(Seq<char>),
    /// The text is no destination.
    InvalidDest(Seq<char>),
    /// The text is no jump.
    InvalidJump(Seq<char>),
    /// The source holds more instructions than can be counted in 16 bits.
    TooManyInstructions,
    /// The source refers to more variables than there are addresses.
    TooManyVariables,
}

impl AsmError {
    /// The message that reports the error.
    pub open spec fn message(self) -> Seq<char> {
        match self {
            AsmError::Parse(e) => e.message(),
            AsmError::DuplicateLabel(label) => "attempt to add duplicate label: "@ + label,
            AsmError::InvalidComp(text) => "invalid comp translation \""@ + text + "\""@,
            AsmError::InvalidDest(text) => "invalid dest translation \""@ + text + "\""@,
            AsmError::InvalidJump(text) => "invalid jump translation \""@ + text + "\""@,
            AsmError::TooManyInstructions => "too many instructions"@,
            AsmError::TooManyVariables => "too many variables"@,
        }
    }
}

/// The tables of mnemonics: computations, destinations and jumps.
pub struct TranslationTable {
    comp_map: Vec<(String, u16)>,
    dest_map: Vec<(String, u16)>,
    jump_map: Vec<(String, u16)>,
}

impl TranslationTable {
    #[verifier::type_invariant]
    spec fn inv(self) -> bool {
        &&& entries_of(self.comp_map@) == comp_table()
        &&& entries_of(self.dest_map@) == dest_table()
        &&& entries_of(self.jump_map@) == jump_table()
    }

    /// The computations that the table holds, with their bits.
    pub closed spec fn comps(&self) -> Entries {
        entries_of(self.comp_map@)
    }

    /// The destinations that the table holds, with their bits.
    pub closed spec fn dests(&self) -> Entries {
        entries_of(self.dest_map@)
    }

    /// The jumps that the table holds, with their bits.
    pub closed spec fn jumps(&self) -> Entries {
        entries_of(self.jump_map@)
    }

    /// The tables of the instruction set: the 28 computations, the 7
    /// destinations and the 7 jumps, each with its bits.
    pub fn new() -> (r: Self)
        ensures
            r.comps() == comp_table(),
            r.dests() == dest_table(),
            r.jumps() == jump_table(),
    {
        Self {
            comp_map: Self::init_comp_table(),
            dest_map: Self::init_dest_table(),
            jump_map: Self::init_jump_table(),
        }
    }

    fn init_comp_table() -> (r: Vec<(String, u16)>)
        ensures
            entries_of(r@) == comp_table(),
    {
        let mut map: Vec<(String, u16)> = Vec::new();
        put(&mut map, "0", 0b0101010 * 64);
        put(&mut map, "1", 0b0111111 * 64);
        put(&mut map, "-1", 0b0111010 * 64);
        put(&mut map, "D", 0b0001100 * 64);
        put(&mut map, "A", 0b0110000 * 64);
        put(&mut map, "M", 0b1110000 * 64);
        put(&mut map, "!D", 0b0001101 * 64);
        put(&mut map, "!A", 0b0110001 * 64);
        put(&mut map, "!M", 0b1110001 * 64);
        put(&mut map, "-D", 0b0001111 * 64);
        put(&mut map, "-A", 0b0110011 * 64);
        put(&mut map, "-M", 0b1110011 * 64);
        put(&mut map, "D+1", 0b0011111 * 64);
        put(&mut map, "A+1", 0b0110111 * 64);
        put(&mut map, "M+1", 0b1110111 * 64);
        put(&mut map, "D-1", 0b0001110 * 64);
        put(&mut map, "A-1", 0b0110010 * 64);
        put(&mut map, "M-1", 0b1110010 * 64);
        put(&mut map, "D+A", 0b0000010 * 64);
        put(&mut map, "D+M", 0b1000010 * 64);
        put(&mut map, "D-A", 0b0010011 * 64);
        put(&mut map, "D-M", 0b1010011 * 64);
        put(&mut map, "A-D", 0b0000111 * 64);
        put(&mut map, "M-D", 0b1000111 * 64);
        put(&mut map, "D&A", 0b0000000 * 64);
        put(&mut map, "D&M", 0b1000000 * 64);
        put(&mut map, "D|A", 0b0010101 * 64);
        put(&mut map, "D|M", 0b1010101 * 64);
        assert(entries_of(map@) =~= comp_table());
        map
    }

    fn init_dest_table() -> (r: Vec<(String, u16)>)
        ensures
            entries_of(r@) == dest_table(),
    {
        let mut map: Vec<(String, u16)> = Vec::new();
        put(&mut map, "M", 0b001 * 8);
        put(&mut map, "D", 0b010 * 8);
        put(&mut map, "DM", 0b011 * 8);
        put(&mut map, "A", 0b100 * 8);
        put(&mut map, "AM", 0b101 * 8);
        put(&mut map, "AD", 0b110 * 8);
        put(&mut map, "ADM", 0b111 * 8);
        assert(entries_of(map@) =~= dest_table());
        map
    }

    fn init_jump_table() -> (r: Vec<(String, u16)>)
        ensures
            entries_of(r@) == jump_table(),
    {
        let mut map: Vec<(String, u16)> = Vec::new();
        put(&mut map, "JGT", 0b001);
        put(&mut map, "JEQ", 0b010);
        put(&mut map, "JGE", 0b011);
        put(&mut map, "JLT", 0b100);
        put(&mut map, "JNE", 0b101);
        put(&mut map, "JLE", 0b110);
        put(&mut map, "JMP", 0b111);
        assert(entries_of(map@) =~= jump_table());
        map
    }

    /// The bits of a computation.
    pub fn get_comp(&self, comp: &str) -> (res: Result<&u16, String>)
        ensures
            match lookup(comp_table(), comp@) {
                Some(code) => res matches Ok(c) && *c == code,
                None => res matches Err(message) && message@ == AsmError::InvalidComp(
                    comp@,
                ).message(),
            },
    {
        proof {
            use_type_invariant(self);
        }
        match find(&self.comp_map, comp) {
            Some(i) => Ok(&self.comp_map[i].1),
            None => Err(Self::complaint("invalid comp translation \"", comp)),
        }
    }

    /// The bits of a destination.
    pub fn get_dest(&self, dest: &str) -> (res: Result<&u16, String>)
        ensures
            match lookup(dest_table(), dest@) {
                Some(code) => res matches Ok(c) && *c == code,
                None => res matches Err(message) && message@ == AsmError::InvalidDest(
                    dest@,
                ).message(),
            },
    {
        proof {
            use_type_invariant(self);
        }
        match find(&self.dest_map, dest) {
            Some(i) => Ok(&self.dest_map[i].1),
            None => Err(Self::complaint("invalid dest translation \"", dest)),
        }
    }

    /// The bits of a jump.
    pub fn get_jump(&self, jump: &str) -> (res: Result<&u16, String>)
        ensures
            match lookup(jump_table(), jump@) {
                Some(code) => res matches Ok(c) && *c == code,
                None => res matches Err(message) && message@ == AsmError::InvalidJump(
                    jump@,
                ).message(),
            },
    {
        proof {
            use_type_invariant(self);
        }
        match find(&self.jump_map, jump) {
            Some(i) => Ok(&self.jump_map[i].1),
            None => Err(Self::complaint("invalid jump translation \"", jump)),
        }
    }

    /// The message that refuses a mnemonic: the text between quotes, after
    /// what kind of mnemonic was due.
    fn complaint(kind: &str, text: &str) -> (r: String)
        ensures
            r@ == kind@ + text@ + "\""@,
    {
        let mut message = String::from_str(kind);
        message.append(text);
        message.append("\"");
        message
    }
}

/// The bits of a destination that may be absent: none stands for no bits.
pub open spec fn dest_bits(dest: Option<Seq<char>>) -> Result<u16, AsmError> {
    match dest {
        None => Ok(0u16),
        Some(text) => match lookup(dest_table(), text) {
            Some(code) => Ok(code),
            None => Err(AsmError::InvalidDest(text)),
        },
    }
}

/// The bits of a computation.
pub open spec fn comp_bits(comp: Seq<char>) -> Result<u16, AsmError> {
    match lookup(comp_table(), comp) {
        Some(code) => Ok(code),
        None => Err(AsmError::InvalidComp(comp)),
    }
}

/// The bits of a jump that may be absent: none stands for no bits.
pub open spec fn jump_bits(jump: Option<Seq<char>>) -> Result<u16, AsmError> {
    match jump {
        None => Ok(0u16),
        Some(text) => match lookup(jump_table(), text) {
            Some(code) => Ok(code),
            None => Err(AsmError::InvalidJump(text)),
        },
    }
}

/// The low 13 bits of a C-instruction: the bits of its three parts, or-ed.
/// The destination is looked up first, then the computation, then the jump.
pub open spec fn c_bits(dest: Option<Seq<char>>, comp: Seq<char>, jump: Option<Seq<char>>) -> Result<
    u16,
    AsmError,
> {
    match dest_bits(dest) {
        Err(e) => Err(e),
        Ok(d) => match comp_bits(comp) {
            Err(e) => Err(e),
            Ok(c) => match jump_bits(jump) {
                Err(e) => Err(e),
                Ok(j) => Ok(c | d | j),
            },
        },
    }
}

/// The line of an A-instruction: the 16 bits of the value, and a newline.
pub open spec fn a_line(value: u16) -> Seq<char> {
    binary(value as nat, 16) + "\n"@
}

/// The line of a C-instruction: `111`, its low 13 bits, and a newline.
pub open spec fn c_line(bits: u16) -> Seq<char> {
    "111"@ + binary(bits as nat, 13) + "\n"@
}

/// What the first pass makes of the source from offset `i` on: each label
/// gets the number of instructions before it, unless its symbol is in the
/// table already. Returns the table and the number of instructions.
pub open spec fn first_pass(bytes: Seq<u8>, i: int, map: Map<Seq<char>, u16>, count: u16) -> Result<
    (Map<Seq<char>, u16>, u16),
    AsmError,
>
    decreases bytes.len() - i,
    via first_pass_decreases
{
    if i < 0 || i > bytes.len() {
        Ok((map, count))
    } else {
        match instruction_at(bytes, i) {
            (Err(e), _) => Err(AsmError::Parse(e)),
            (Ok(None), _) => Ok((map, count)),
            (Ok(Some(InstructionModel::Label(label))), next) => if map.contains_key(label) {
                Err(AsmError::DuplicateLabel(label))
            } else {
                first_pass(bytes, next, map.insert(label, count), count)
            },
            (Ok(Some(_)), next) => if count == u16::MAX {
                Err(AsmError::TooManyInstructions)
            } else {
                first_pass(bytes, next, map, (count + 1) as u16)
            },
        }
    }
}

#[via_fn]
proof fn first_pass_decreases(bytes: Seq<u8>, i: int, map: Map<Seq<char>, u16>, count: u16) {
    if 0 <= i <= bytes.len() {
        lemma_instruction_at(bytes, i);
    }
}

/// What the second pass makes of the source from offset `i` on: each
/// instruction adds its line to `out`, and each symbol that is not in the
/// table becomes a variable. Returns the table and the text.
pub open spec fn second_pass(bytes: Seq<u8>, i: int, symbols: Symbols, out: Seq<char>) -> Result<
    (Symbols, Seq<char>),
    AsmError,
>
    decreases bytes.len() - i,
    via second_pass_decreases
{
    if i < 0 || i > bytes.len() {
        Ok((symbols, out))
    } else {
        match instruction_at(bytes, i) {
            (Err(e), _) => Err(AsmError::Parse(e)),
            (Ok(None), _) => Ok((symbols, out)),
            (Ok(Some(InstructionModel::Label(_))), next) => second_pass(bytes, next, symbols, out),
            (Ok(Some(InstructionModel::AInstruction(AddressModel::NumericConstant(n)))), next) => {
                second_pass(bytes, next, symbols, out + a_line(n))
            },
            (Ok(Some(InstructionModel::AInstruction(AddressModel::Symbol(name)))), next) => {
                if !symbols.map.contains_key(name) && symbols.next == u16::MAX {
                    Err(AsmError::TooManyVariables)
                } else {
                    second_pass(
                        bytes,
                        next,
                        symbols.referred(name),
                        out + a_line(symbols.address_of(name)),
                    )
                }
            },
            (Ok(Some(InstructionModel::CInstruction { dest, comp, jump })), next) => {
                match c_bits(dest, comp, jump) {
                    Err(e) => Err(e),
                    Ok(bits) => second_pass(bytes, next, symbols, out + c_line(bits)),
                }
            },
        }
    }
}

#[via_fn]
proof fn second_pass_decreases(bytes: Seq<u8>, i: int, symbols: Symbols, out: Seq<char>) {
    if 0 <= i <= bytes.len() {
        lemma_instruction_at(bytes, i);
    }
}

/// The state of a code generator.
pub struct Generated {
    /// The symbol table.
    pub symbols: Symbols,
    /// The number of instructions counted in the first pass.
    pub count: u16,
    /// The text written so far.
    pub out: Seq<char>,
}

/// The state in which the second pass ends, where `count` instructions
/// were counted in the first.
pub open spec fn finished(second: Result<(Symbols, Seq<char>), AsmError>, count: u16) -> Result<
    Generated,
    AsmError,
> {
    match second {
        Err(e) => Err(e),
        Ok((symbols, out)) => Ok(Generated { symbols, count, out }),
    }
}

/// What generating makes of a source: the first pass from offset `i` on,
/// then the second pass from the start.
pub open spec fn generated(bytes: Seq<u8>, i: int, start: Generated) -> Result<Generated, AsmError> {
    match first_pass(bytes, i, start.symbols.map, start.count) {
        Err(e) => Err(e),
        Ok((map, count)) => finished(
            second_pass(bytes, 0, Symbols { map, next: start.symbols.next }, start.out),
            count,
        ),
    }
}

/// The machine words of a source, written out one to a line.
pub open spec fn assembled(bytes: Seq<u8>) -> Result<Seq<char>, AsmError> {
    match generated(
        bytes,
        0,
        Generated { symbols: Symbols::initial(), count: 0, out: Seq::empty() },
    ) {
        Err(e) => Err(e),
        Ok(end) => Ok(end.out),
    }
}

/// The two-pass code generator.
pub struct CodeGenerator<'a> {
    out: String,
    parser: Parser<'a>,
    instruction_count: u16,
    pub symbol_table: SymbolTable,
    pub translation_table: TranslationTable,
}

impl<'a> CodeGenerator<'a> {
    /// The bytes of the source.
    pub closed spec fn bytes(&self) -> Seq<u8> {
        self.parser.bytes()
    }

    /// The offset from which the next record is read.
    pub closed spec fn position(&self) -> int {
        self.parser.position()
    }

    /// The symbol table, the instruction count and the text written so far.
    pub closed spec fn state(&self) -> Generated {
        Generated { symbols: self.symbol_table@, count: self.instruction_count, out: self.out@ }
    }

    /// A generator at the start of `src`, with the initial symbol table and
    /// nothing written.
    pub fn new(src: &'a str) -> (r: Self)
        ensures
            r.bytes() == src.spec_bytes(),
            r.position() == 0,
            r.state() == (Generated {
                symbols: Symbols::initial(),
                count: 0,
                out: Seq::empty(),
            }),
    {
        Self {
            out: String::new(),
            parser: Parser::new(src),
            instruction_count: 0,
            symbol_table: SymbolTable::new(),
            translation_table: TranslationTable::new(),
        }
    }

    /// The text written.
    pub fn take_code(self) -> (r: String)
        ensures
            r@ == self.state().out,
    {
        self.out
    }

    /// Runs the first pass on what is left of the source, then the second
    /// pass on the whole of it.
    pub fn generate(&mut self) -> (res: Result<(), String>)
        ensures
            final(self).bytes() == old(self).bytes(),
            match generated(old(self).bytes(), old(self).position(), old(self).state()) {
                Ok(end) => res is Ok && final(self).state() == end,
                Err(e) => res matches Err(message) && message@ == e.message(),
            },
    {
        let _ = self.build_symbol_table()?;
        let _ = self.parser.reset();
        let ghost bytes = self.bytes();
        let ghost goal = second_pass(bytes, 0, self.state().symbols, self.state().out);
        let ghost count = self.state().count;
        loop
            invariant
                self.bytes() == bytes,
                bytes == old(self).bytes(),
                0 <= self.position() <= bytes.len(),
                self.state().count == count,
                generated(old(self).bytes(), old(self).position(), old(self).state()) == finished(
                    goal,
                    count,
                ),
                goal == second_pass(
                    bytes,
                    self.position(),
                    self.state().symbols,
                    self.state().out,
                ),
            ensures
                self.bytes() == bytes,
                self.state().count == count,
                goal == Ok::<(Symbols, Seq<char>), AsmError>(
                    (self.state().symbols, self.state().out),
                ),
            decreases bytes.len() - self.position(),
        {
            proof {
                lemma_instruction_at(bytes, self.position());
            }
            match self.parser.next_instruction()? {
                Some(instruction) => {
                    match instruction {
                        Instruction::AInstruction(addr) => self.translate_a_instruction(addr)?,
                        Instruction::CInstruction { dest, comp, jump } => {
                            self.translate_c_instruction(dest, comp, jump)?
                        },
                        _ => {},
                    };
                },
                None => {
                    break ;
                },
            }
        }
        Ok(())
    }

    /// Runs the first pass on what is left of the source.
    pub fn build_symbol_table(&mut self) -> (res: Result<(), String>)
        ensures
            final(self).bytes() == old(self).bytes(),
            0 <= final(self).position() <= final(self).bytes().len(),
            final(self).state().out == old(self).state().out,
            final(self).state().symbols.next == old(self).state().symbols.next,
            match first_pass(
                old(self).bytes(),
                old(self).position(),
                old(self).state().symbols.map,
                old(self).state().count,
            ) {
                Ok((map, count)) => {
                    &&& res is Ok
                    &&& final(self).state().symbols.map == map
                    &&& final(self).state().count == count
                },
                Err(e) => res matches Err(message) && message@ == e.message(),
            },
    {
        let _ = self.parser.is_done();
        let ghost bytes = self.bytes();
        let ghost goal = first_pass(
            bytes,
            self.position(),
            self.state().symbols.map,
            self.state().count,
        );
        loop
            invariant
                self.bytes() == bytes,
                bytes == old(self).bytes(),
                goal == first_pass(
                    old(self).bytes(),
                    old(self).position(),
                    old(self).state().symbols.map,
                    old(self).state().count,
                ),
                0 <= self.position() <= bytes.len(),
                self.state().out == old(self).state().out,
                self.state().symbols.next == old(self).state().symbols.next,
                goal == first_pass(
                    bytes,
                    self.position(),
                    self.state().symbols.map,
                    self.state().count,
                ),
            ensures
                self.bytes() == bytes,
                0 <= self.position() <= bytes.len(),
                self.state().out == old(self).state().out,
                self.state().symbols.next == old(self).state().symbols.next,
                goal == Ok::<(Map<Seq<char>, u16>, u16), AsmError>(
                    (self.state().symbols.map, self.state().count),
                ),
            decreases bytes.len() - self.position(),
        {
            proof {
                lemma_instruction_at(bytes, self.position());
            }
            match self.parser.next_instruction()? {
                Some(instruction) => {
                    match instruction {
                        Instruction::Label(label) => {
                            self.symbol_table.add_label(label.as_str(), self.instruction_count)?;
                        },
                        _ => {
                            if self.instruction_count == u16::MAX {
                                return Err(String::from_str("too many instructions"));
                            }
                            self.instruction_count += 1;
                        },
                    };
                },
                None => {
                    break ;
                },
            }
        }
        Ok(())
    }

    fn translate_c_instruction(
        &mut self,
        dest: Option<String>,
        comp: String,
        jump: Option<String>,
    ) -> (res: Result<(), String>)
        ensures
            final(self).bytes() == old(self).bytes(),
            final(self).position() == old(self).position(),
            final(self).state().symbols == old(self).state().symbols,
            final(self).state().count == old(self).state().count,
            match c_bits(
                text_of(dest),
                comp@,
                text_of(jump),
            ) {
                Ok(bits) => res is Ok && final(self).state().out == old(self).state().out
                    + c_line(bits),
                Err(e) => res matches Err(message) && message@ == e.message(),
            },
    {
        let t_dest: u16 = self.get_dest(dest)?;
        let t_comp: u16 = self.get_comp(comp)?;
        let t_jump: u16 = self.get_jump(jump)?;
        let ghost before = self.out@;
        self.out.append("111");
        push_binary(&mut self.out, t_comp | t_dest | t_jump, 13);
        self.out.append("\n");
        assert(self.out@ =~= before + c_line(t_comp | t_dest | t_jump));
        Ok(())
    }

    fn translate_a_instruction(&mut self, address: Address) -> (res: Result<(), String>)
        ensures
            final(self).bytes() == old(self).bytes(),
            final(self).position() == old(self).position(),
            final(self).state().count == old(self).state().count,
            match address@ {
                AddressModel::NumericConstant(n) => {
                    &&& res is Ok
                    &&& final(self).state().symbols == old(self).state().symbols
                    &&& final(self).state().out == old(self).state().out + a_line(n)
                },
                AddressModel::Symbol(name) => if !old(self).state().symbols.map.contains_key(name)
                    && old(self).state().symbols.next == u16::MAX {
                    res matches Err(message) && message@ == AsmError::TooManyVariables.message()
                } else {
                    &&& res is Ok
                    &&& final(self).state().symbols == old(self).state().symbols.referred(name)
                    &&& final(self).state().out == old(self).state().out + a_line(
                        old(self).state().symbols.address_of(name),
                    )
                },
            },
    {
        let val: u16 = match address {
            Address::Symbol(symbol) => {
                match self.symbol_table.get_symbol(symbol.as_str()) {
                    Some(val) => val,
                    None => {
                        if self.symbol_table.next_variable() == u16::MAX {
                            return Err(String::from_str("too many variables"));
                        }
                        self.symbol_table.add_variable(symbol.as_str())
                    },
                }
            },
            Address::NumericConstant(val) => val,
        };
        let ghost before = self.out@;
        push_binary(&mut self.out, val, 16);
        self.out.append("\n");
        assert(self.out@ =~= before + a_line(val));
        Ok(())
    }

    fn get_dest(&self, dest: Option<String>) -> (res: Result<u16, String>)
        ensures
            match dest_bits(text_of(dest)) {
                Ok(bits) => res == Ok::<u16, String>(bits),
                Err(e) => res matches Err(message) && message@ == e.message(),
            },
    {
        match dest {
            Some(dest) => Ok(*self.translation_table.get_dest(dest.as_str())?),
            None => Ok(0),
        }
    }

    fn get_comp(&self, comp: String) -> (res: Result<u16, String>)
        ensures
            match comp_bits(comp@) {
                Ok(bits) => res == Ok::<u16, String>(bits),
                Err(e) => res matches Err(message) && message@ == e.message(),
            },
    {
        Ok(*self.translation_table.get_comp(comp.as_str())?)
    }

    fn get_jump(&self, jump: Option<String>) -> (res: Result<u16, String>)
        ensures
            match jump_bits(text_of(jump)) {
                Ok(bits) => res == Ok::<u16, String>(bits),
                Err(e) => res matches Err(message) && message@ == e.message(),
            },
    {
        match jump {
            Some(jump) => Ok(*self.translation_table.get_jump(jump.as_str())?),
            None => Ok(0),
        }
    }
}

/// The number of instructions, labels not counted, that can be read from
/// offset `i` on before the source ends or a record cannot be read.
pub open spec fn instructions_from(bytes: Seq<u8>, i: int) -> nat
    decreases bytes.len() - i,
    via instructions_from_decreases
{
    if i < 0 || i > bytes.len() {
        0
    } else {
        match instruction_at(bytes, i) {
            (Ok(Some(InstructionModel::Label(_))), next) => instructions_from(bytes, next),
            (Ok(Some(_)), next) => 1 + instructions_from(bytes, next),
            _ => 0,
        }
    }
}

#[via_fn]
proof fn instructions_from_decreases(bytes: Seq<u8>, i: int) {
    if 0 <= i <= bytes.len() {
        lemma_instruction_at(bytes, i);
    }
}

/// A line holds 16 binary digits and a newline.
pub proof fn lemma_line_lengths(value: u16)
    ensures
        a_line(value).len() == 17,
        c_line(value).len() == 17,
{
    reveal_strlit("111");
    reveal_strlit("\n");
    lemma_binary_len(value as nat, 16);
    lemma_binary_len(value as nat, 13);
}

/// Where the second pass succeeds, it writes exactly one line of 17
/// characters, 16 binary digits and a newline, for each A- and each
/// C-instruction that it reads, and none for a label.
pub proof fn lemma_one_line_per_instruction(
    bytes: Seq<u8>,
    i: int,
    symbols: Symbols,
    out: Seq<char>,
)
    requires
        0 <= i <= bytes.len(),
        second_pass(bytes, i, symbols, out) is Ok,
    ensures
        second_pass(bytes, i, symbols, out)->Ok_0.1.len() == out.len() + 17 * instructions_from(
            bytes,
            i,
        ),
    decreases bytes.len() - i,
{
    lemma_instruction_at(bytes, i);
    match instruction_at(bytes, i) {
        (Ok(Some(InstructionModel::Label(_))), next) => {
            lemma_one_line_per_instruction(bytes, next, symbols, out);
        },
        (Ok(Some(InstructionModel::AInstruction(AddressModel::NumericConstant(n)))), next) => {
            lemma_line_lengths(n);
            lemma_one_line_per_instruction(bytes, next, symbols, out + a_line(n));
        },
        (Ok(Some(InstructionModel::AInstruction(AddressModel::Symbol(name)))), next) => {
            lemma_line_lengths(symbols.address_of(name));
            lemma_one_line_per_instruction(
                bytes,
                next,
                symbols.referred(name),
                out + a_line(symbols.address_of(name)),
            );
        },
        (Ok(Some(InstructionModel::CInstruction { dest, comp, jump })), next) => {
            let bits = c_bits(dest, comp, jump)->Ok_0;
            lemma_line_lengths(bits);
            lemma_one_line_per_instruction(bytes, next, symbols, out + c_line(bits));
        },
        _ => {},
    }
}

/// Where the first pass succeeds, it counts the instructions that it reads.
pub proof fn lemma_first_pass_counts(bytes: Seq<u8>, i: int, map: Map<Seq<char>, u16>, count: u16)
    requires
        0 <= i <= bytes.len(),
        first_pass(bytes, i, map, count) is Ok,
    ensures
        first_pass(bytes, i, map, count)->Ok_0.1 == count + instructions_from(bytes, i),
    decreases bytes.len() - i,
{
    lemma_instruction_at(bytes, i);
    match instruction_at(bytes, i) {
        (Ok(Some(InstructionModel::Label(label))), next) => {
            lemma_first_pass_counts(bytes, next, map.insert(label, count), count);
        },
        (Ok(Some(_)), next) => {
            lemma_first_pass_counts(bytes, next, map, (count + 1) as u16);
        },
        _ => {},
    }
}

/// Where a source is assembled, the text holds one line of 17 characters
/// for each of its instructions, and nothing else.
pub proof fn lemma_assembled_length(bytes: Seq<u8>)
    requires
        assembled(bytes) is Ok,
    ensures
        assembled(bytes)->Ok_0.len() == 17 * instructions_from(bytes, 0),
{
    let (map, count) = first_pass(bytes, 0, Symbols::initial().map, 0)->Ok_0;
    lemma_one_line_per_instruction(
        bytes,
        0,
        Symbols { map, next: Symbols::initial().next },
        Seq::empty(),
    );
}

/// The table after a run of A-instructions has referred to the symbols
/// `names`, in this order.
pub open spec fn after_references(symbols: Symbols, names: Seq<Seq<char>>) -> Symbols
    decreases names.len(),
{
    if names.len() == 0 {
        symbols
    } else {
        after_references(symbols, names.drop_last()).referred(names.last())
    }
}

/// How many of the references `names` were to a symbol that was not in the
/// table when it was referred to.
pub open spec fn new_symbols(symbols: Symbols, names: Seq<Seq<char>>) -> nat
    decreases names.len(),
{
    if names.len() == 0 {
        0
    } else if after_references(symbols, names.drop_last()).map.contains_key(names.last()) {
        new_symbols(symbols, names.drop_last())
    } else {
        new_symbols(symbols, names.drop_last()) + 1
    }
}

/// Variables get consecutive addresses in the order of their first
/// reference: after any run of references, the next free address is the
/// first one plus the number of symbols that were new when referred to. So
/// the symbol that is new after `k` others were gets the address `k` above
/// the first, and keeps it.
pub proof fn lemma_variables_are_consecutive(symbols: Symbols, names: Seq<Seq<char>>)
    requires
        symbols.next + names.len() <= u16::MAX,
    ensures
        after_references(symbols, names).next == symbols.next + new_symbols(symbols, names),
        new_symbols(symbols, names) <= names.len(),
        forall|name: Seq<char>| #[trigger]
            symbols.map.contains_key(name) ==> after_references(symbols, names).map.contains_key(
                name,
            ) && after_references(symbols, names).map[name] == symbols.map[name],
        names.len() > 0 ==> after_references(symbols, names).map.contains_key(names.last())
            && after_references(symbols, names).map[names.last()] == after_references(
            symbols,
            names.drop_last(),
        ).address_of(names.last()),
        names.len() > 0 && !after_references(symbols, names.drop_last()).map.contains_key(
            names.last(),
        ) ==> after_references(symbols, names).map[names.last()] == symbols.next + new_symbols(
            symbols,
            names.drop_last(),
        ),
    decreases names.len(),
{
    if names.len() > 0 {
        lemma_variables_are_consecutive(symbols, names.drop_last());
        let before = after_references(symbols, names.drop_last());
        assert forall|name: Seq<char>| #[trigger]
            symbols.map.contains_key(name) implies after_references(
            symbols,
            names,
        ).map.contains_key(name) && after_references(symbols, names).map[name]
            == symbols.map[name] by {
            assert(before.map.contains_key(name));
        }
    }
}

/// Later variables get higher addresses: of two references, each to a
/// symbol that is new when referred to, the later one gets the higher
/// address.
pub proof fn lemma_variables_are_monotonic(
    symbols: Symbols,
    names: Seq<Seq<char>>,
    first: int,
    second: int,
)
    requires
        symbols.next + names.len() <= u16::MAX,
        0 <= first < second < names.len(),
        !after_references(symbols, names.take(first)).map.contains_key(names[first]),
        !after_references(symbols, names.take(second)).map.contains_key(names[second]),
    ensures
        after_references(symbols, names.take(first)).address_of(names[first]) < after_references(
            symbols,
            names.take(second),
        ).address_of(names[second]),
    decreases second - first,
{
    lemma_variables_are_consecutive(symbols, names.take(first));
    lemma_variables_are_consecutive(symbols, names.take(first + 1));
    assert(names.take(first + 1).drop_last() =~= names.take(first));
    assert(names.take(first + 1).last() == names[first]);
    lemma_next_never_falls(symbols, names.take(second), first + 1);
    assert(names.take(second).take(first + 1) =~= names.take(first + 1));
}

/// The address of the next variable never falls.
pub proof fn lemma_next_never_falls(symbols: Symbols, names: Seq<Seq<char>>, j: int)
    requires
        symbols.next + names.len() <= u16::MAX,
        0 <= j <= names.len(),
    ensures
        after_references(symbols, names.take(j)).next <= after_references(symbols, names).next,
    decreases names.len() - j,
{
    if j < names.len() {
        lemma_next_never_falls(symbols, names, j + 1);
        lemma_variables_are_consecutive(symbols, names.take(j));
        lemma_variables_are_consecutive(symbols, names.take(j + 1));
        assert(names.take(j + 1).drop_last() =~= names.take(j));
    } else {
        assert(names.take(j) =~= names);
    }
}

/// The first pass never takes a symbol out of the table, nor changes its
/// address.
pub proof fn lemma_first_pass_keeps_symbols(
    bytes: Seq<u8>,
    i: int,
    map: Map<Seq<char>, u16>,
    count: u16,
    name: Seq<char>,
)
    requires
        0 <= i <= bytes.len(),
        first_pass(bytes, i, map, count) is Ok,
        map.contains_key(name),
    ensures
        first_pass(bytes, i, map, count)->Ok_0.0.contains_key(name),
        first_pass(bytes, i, map, count)->Ok_0.0[name] == map[name],
    decreases bytes.len() - i,
{
    lemma_instruction_at(bytes, i);
    match instruction_at(bytes, i) {
        (Ok(Some(InstructionModel::Label(label))), next) => {
            lemma_first_pass_keeps_symbols(bytes, next, map.insert(label, count), count, name);
        },
        (Ok(Some(_)), next) => {
            lemma_first_pass_keeps_symbols(bytes, next, map, (count + 1) as u16, name);
        },
        _ => {},
    }
}

/// The second pass never takes a symbol out of the table, nor changes its
/// address, and the address of the next variable never falls.
pub proof fn lemma_second_pass_keeps_symbols(
    bytes: Seq<u8>,
    i: int,
    symbols: Symbols,
    out: Seq<char>,
    name: Seq<char>,
)
    requires
        0 <= i <= bytes.len(),
        second_pass(bytes, i, symbols, out) is Ok,
    ensures
        symbols.next <= second_pass(bytes, i, symbols, out)->Ok_0.0.next,
        symbols.map.contains_key(name) ==> second_pass(
            bytes,
            i,
            symbols,
            out,
        )->Ok_0.0.map.contains_key(name) && second_pass(bytes, i, symbols, out)->Ok_0.0.map[name]
            == symbols.map[name],
    decreases bytes.len() - i,
{
    lemma_instruction_at(bytes, i);
    match instruction_at(bytes, i) {
        (Ok(Some(InstructionModel::Label(_))), next) => {
            lemma_second_pass_keeps_symbols(bytes, next, symbols, out, name);
        },
        (Ok(Some(InstructionModel::AInstruction(AddressModel::NumericConstant(n)))), next) => {
            lemma_second_pass_keeps_symbols(bytes, next, symbols, out + a_line(n), name);
        },
        (Ok(Some(InstructionModel::AInstruction(AddressModel::Symbol(symbol)))), next) => {
            lemma_second_pass_keeps_symbols(
                bytes,
                next,
                symbols.referred(symbol),
                out + a_line(symbols.address_of(symbol)),
                name,
            );
        },
        (Ok(Some(InstructionModel::CInstruction { dest, comp, jump })), next) => {
            let bits = c_bits(dest, comp, jump)->Ok_0;
            lemma_second_pass_keeps_symbols(bytes, next, symbols, out + c_line(bits), name);
        },
        _ => {},
    }
}

} // verus!
