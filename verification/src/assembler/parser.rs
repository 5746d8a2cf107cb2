//! The parser of the assembly language: it reads the instructions and the
//! labels of a source, one at a time.
use crate::assembler::token::{
    end_at, lemma_end_at, lemma_text_end_is, list_text, mismatch_message, simple_type, token_at,
    type_at, Token, TokenType, Tokenizer, AT_SIGN, CLOSE_PAREN, OPEN_PAREN,
};
use crate::text::{
    ascii_bytes, bytes_of, debug_string, debug_text, decimal, is_digit, lemma_decimal_round_trip,
    parse_number, parse_u16, sliceable, DIGIT_NINE, DIGIT_ZERO,
};
use vstd::prelude::*;
use vstd::string::*;
use vstd::utf8::*;

verus! {

/// The largest number that an A-instruction can load.
pub const MAX_NUMERIC_CONSTANT: u16 = 32767;

/// What an A-instruction loads.
#[derive(Debug, PartialEq, Eq)]
pub enum Address {
    NumericConstant(u16),
    Symbol(String),
}

/// The mathematical model of an [`Address`].
pub enum AddressModel {
    NumericConstant(u16),
    Symbol(Seq<char>),
}

impl View for Address {
    type V = AddressModel;

    open spec fn view(&self) -> AddressModel {
        match *self {
            Address::NumericConstant(n) => AddressModel::NumericConstant(n),
            Address::Symbol(s) => AddressModel::Symbol(s@),
        }
    }
}

/// One record of a source: an instruction or a label.
#[derive(Debug, PartialEq, Eq)]
pub enum Instruction {
    AInstruction(Address),
    CInstruction { dest: Option<String>, comp: String, jump: Option<String> },
    Label(String),
}

/// The mathematical model of an [`Instruction`]: the same record with its
/// texts as character sequences.
pub enum InstructionModel {
    AInstruction(AddressModel),
    CInstruction { dest: Option<Seq<char>>, comp: Seq<char>, jump: Option<Seq<char>> },
    Label(Seq<char>),
}

/// The model of a text that may be absent.
pub open spec fn text_of(s: Option<String>) -> Option<Seq<char>> {
    match s {
        Some(s) => Some(s@),
        None => None,
    }
}

impl View for Instruction {
    type V = InstructionModel;

    open spec fn view(&self) -> InstructionModel {
        match *self {
            Instruction::AInstruction(a) => InstructionModel::AInstruction(a@),
            Instruction::CInstruction { dest, comp, jump } => InstructionModel::CInstruction {
                dest: text_of(dest),
                comp: comp@,
                jump: text_of(jump),
            },
            Instruction::Label(l) => InstructionModel::Label(l@),
        }
    }
}

impl Instruction {
    pub fn is_address(&self) -> (r: bool)
        ensures
            r == (self@ is AInstruction),
    {
        match self {
            Instruction::AInstruction(_) => true,
            _ => false,
        }
    }

    pub fn is_c_instruction(&self) -> (r: bool)
        ensures
            r == (self@ is CInstruction),
    {
        match self {
            Instruction::CInstruction { .. } => true,
            _ => false,
        }
    }

    pub fn is_label(&self) -> (r: bool)
        ensures
            r == (self@ is Label),
    {
        match self {
            Instruction::Label(_) => true,
            _ => false,
        }
    }

    /// Whether this is a C-instruction with a destination.
    pub fn is_assignment(&self) -> (r: bool)
        ensures
            r == (self@ matches InstructionModel::CInstruction { dest: Some(_), .. }),
    {
        match self {
            Instruction::CInstruction { dest: Some(_), .. } => true,
            _ => false,
        }
    }

    /// Whether this is a C-instruction with a jump.
    pub fn is_jump(&self) -> (r: bool)
        ensures
            r == (self@ matches InstructionModel::CInstruction { jump: Some(_), .. }),
    {
        match self {
            Instruction::CInstruction { jump: Some(_), .. } => true,
            _ => false,
        }
    }
}

/// Why no instruction could be read.
pub enum ParseError {
    /// A token that cannot start an instruction.
    UnexpectedToken,
    /// The source ended within an instruction.
    EndOfStream,
    /// A token of another type was due.
    Expected { expected: TokenType, found: TokenType },
    /// A symbol is followed by something other than a blank, a newline or a
    /// comment.
    SymbolNotEnded { found: TokenType },
    /// The number is above [`MAX_NUMERIC_CONSTANT`].
    ConstantTooLarge,
    /// The symbol is empty.
    EmptyLabel,
    /// The symbol holds a character that no symbol can hold.
    InvalidLabel,
    /// The symbol begins with a digit.
    LeadingDigit,
    /// What follows the first text of a C-instruction is neither `=` nor
    /// `;`.
    NoAssignmentOrJump(Seq<char>),
}

/// The token types that may follow a symbol.
pub open spec fn symbol_enders() -> Seq<TokenType> {
    seq![TokenType::WhiteSpace, TokenType::Newline, TokenType::Comment]
}

impl ParseError {
    /// The message that reports the error.
    pub open spec fn message(self) -> Seq<char> {
        match self {
            ParseError::UnexpectedToken => "Unexpected token"@,
            ParseError::EndOfStream => "end of stream"@,
            ParseError::Expected { expected, found } => mismatch_message(expected.text(), found),
            ParseError::SymbolNotEnded { found } => mismatch_message(
                list_text(symbol_enders()),
                found,
            ),
            ParseError::ConstantTooLarge => "numeric constant exceeds hack maximum numeric constant"@,
            ParseError::EmptyLabel => "empty label"@,
            ParseError::InvalidLabel => "invalid label"@,
            ParseError::LeadingDigit => "label cannot begin with a digit"@,
            ParseError::NoAssignmentOrJump(text) => "ctype expected '=' || ';', got "@
                + debug_text(text),
        }
    }
}

/// Whether a symbol can hold the byte: a letter, a digit, or one of `_`,
/// `.`, `$` and `:`.
pub open spec fn is_symbol_byte(c: u8) -> bool {
    is_digit(c) || (65 <= c <= 90) || (97 <= c <= 122) || c == 95 || c == 46 || c == 36 || c == 58
}

/// What is wrong with a text as a symbol, if anything.
pub open spec fn symbol_fault(text: Seq<u8>) -> Option<ParseError> {
    if text.len() == 0 {
        Some(ParseError::EmptyLabel)
    } else if exists|k: int| 0 <= k < text.len() && !is_symbol_byte(#[trigger] text[k]) {
        Some(ParseError::InvalidLabel)
    } else if is_digit(text[0]) {
        Some(ParseError::LeadingDigit)
    } else {
        None
    }
}

/// Whether tokens of this type stand between instructions.
pub open spec fn is_trivia(t: TokenType) -> bool {
    t == TokenType::WhiteSpace || t == TokenType::Newline || t == TokenType::Comment
}

/// The offset of the first token from offset `i` on that is no blank,
/// newline or comment, or the end of the source.
pub open spec fn skip_trivia(bytes: Seq<u8>, i: int) -> int
    decreases bytes.len() - i,
    via skip_trivia_decreases
{
    if i < 0 || i >= bytes.len() || !is_trivia(type_at(bytes, i)) {
        i
    } else {
        skip_trivia(bytes, end_at(bytes, i))
    }
}

#[via_fn]
proof fn skip_trivia_decreases(bytes: Seq<u8>, i: int) {
    if 0 <= i < bytes.len() {
        lemma_end_at(bytes, i);
    }
}

pub proof fn lemma_skip_trivia(bytes: Seq<u8>, i: int)
    requires
        0 <= i <= bytes.len(),
    ensures
        i <= skip_trivia(bytes, i) <= bytes.len(),
        skip_trivia(bytes, skip_trivia(bytes, i)) == skip_trivia(bytes, i),
    decreases bytes.len() - i,
{
    if i < bytes.len() && is_trivia(type_at(bytes, i)) {
        lemma_end_at(bytes, i);
        lemma_skip_trivia(bytes, end_at(bytes, i));
    }
}

/// The bytes of a token.
pub open spec fn token_bytes(bytes: Seq<u8>, token: Token) -> Seq<u8> {
    bytes.subrange(token.start as int, token.end as int)
}

/// The text of a token.
pub open spec fn token_text(bytes: Seq<u8>, token: Token) -> Seq<char> {
    decode_utf8(token_bytes(bytes, token))
}

/// The token at offset `i`, which is to be of type `expected`, and the
/// offset behind it.
pub open spec fn expected_at(bytes: Seq<u8>, i: int, expected: TokenType) -> (
    Result<Token, ParseError>,
    int,
) {
    match token_at(bytes, i) {
        None => (Err(ParseError::EndOfStream), i),
        Some(t) => if t.t == expected {
            (Ok(t), end_at(bytes, i))
        } else {
            (Err(ParseError::Expected { expected, found: t.t }), end_at(bytes, i))
        },
    }
}

/// The A-instruction whose `@` ends at offset `i`, and the offset behind
/// it. The text behind the `@` is a number up to [`MAX_NUMERIC_CONSTANT`],
/// or else a symbol that a blank, a newline, a comment or the end of the
/// source follows.
pub open spec fn a_instruction_at(bytes: Seq<u8>, i: int) -> (
    Result<InstructionModel, ParseError>,
    int,
) {
    match expected_at(bytes, i, TokenType::Text) {
        (Err(e), next) => (Err(e), next),
        (Ok(t), next) => match parse_number(token_bytes(bytes, t)) {
            Ok(n) => if n > MAX_NUMERIC_CONSTANT {
                (Err(ParseError::ConstantTooLarge), next)
            } else {
                (Ok(InstructionModel::AInstruction(AddressModel::NumericConstant(n))), next)
            },
            Err(_) => match symbol_fault(token_bytes(bytes, t)) {
                Some(e) => (Err(e), next),
                None => match token_at(bytes, next) {
                    Some(follower) => if is_trivia(follower.t) {
                        (
                            Ok(
                                InstructionModel::AInstruction(
                                    AddressModel::Symbol(token_text(bytes, t)),
                                ),
                            ),
                            next,
                        )
                    } else {
                        (Err(ParseError::SymbolNotEnded { found: follower.t }), next)
                    },
                    None => (
                        Ok(
                            InstructionModel::AInstruction(
                                AddressModel::Symbol(token_text(bytes, t)),
                            ),
                        ),
                        next,
                    ),
                },
            },
        },
    }
}

/// The label whose `(` ends at offset `i`, and the offset behind it: a
/// symbol, with `)` right behind it.
pub open spec fn label_at(bytes: Seq<u8>, i: int) -> (Result<InstructionModel, ParseError>, int) {
    match expected_at(bytes, i, TokenType::Text) {
        (Err(e), next) => (Err(e), next),
        (Ok(t), next) => match symbol_fault(token_bytes(bytes, t)) {
            Some(e) => (Err(e), next),
            None => match expected_at(bytes, next, TokenType::CloseParens) {
                (Err(e), last) => (Err(e), last),
                (Ok(_), last) => (Ok(InstructionModel::Label(token_text(bytes, t))), last),
            },
        },
    }
}

/// The C-instruction whose first text is the token `first`, which ends at
/// offset `i`, and the offset behind it: `dest=comp` or `comp;jump`.
pub open spec fn c_instruction_at(bytes: Seq<u8>, first: Token, i: int) -> (
    Result<InstructionModel, ParseError>,
    int,
) {
    match token_at(bytes, i) {
        None => (Err(ParseError::EndOfStream), i),
        Some(t) => if t.t == TokenType::Eq {
            match expected_at(bytes, end_at(bytes, i), TokenType::Text) {
                (Err(e), next) => (Err(e), next),
                (Ok(comp), next) => (
                    Ok(
                        InstructionModel::CInstruction {
                            dest: Some(token_text(bytes, first)),
                            comp: token_text(bytes, comp),
                            jump: None,
                        },
                    ),
                    next,
                ),
            }
        } else if t.t == TokenType::Comp {
            match expected_at(bytes, end_at(bytes, i), TokenType::Text) {
                (Err(e), next) => (Err(e), next),
                (Ok(jump), next) => (
                    Ok(
                        InstructionModel::CInstruction {
                            dest: None,
                            comp: token_text(bytes, first),
                            jump: Some(token_text(bytes, jump)),
                        },
                    ),
                    next,
                ),
            }
        } else {
            (Err(ParseError::NoAssignmentOrJump(token_text(bytes, t))), end_at(bytes, i))
        },
    }
}

/// The record read from offset `i` on, after blanks, newlines and
/// comments, and the offset behind it; no record at the end of the source.
pub open spec fn instruction_at(bytes: Seq<u8>, i: int) -> (
    Result<Option<InstructionModel>, ParseError>,
    int,
) {
    let start = skip_trivia(bytes, i);
    match token_at(bytes, start) {
        None => (Ok(None), start),
        Some(t) => {
            let (record, next) = if t.t == TokenType::Address {
                a_instruction_at(bytes, end_at(bytes, start))
            } else if t.t == TokenType::OpenParens {
                label_at(bytes, end_at(bytes, start))
            } else if t.t == TokenType::Text {
                c_instruction_at(bytes, t, end_at(bytes, start))
            } else {
                (Err(ParseError::UnexpectedToken), end_at(bytes, start))
            };
            match record {
                Ok(instruction) => (Ok(Some(instruction)), next),
                Err(e) => (Err(e), next),
            }
        },
    }
}

/// Reading a record moves on within the source, and past at least one
/// token unless the source has ended.
pub proof fn lemma_instruction_at(bytes: Seq<u8>, i: int)
    requires
        0 <= i <= bytes.len(),
    ensures
        i <= instruction_at(bytes, i).1 <= bytes.len(),
        !(instruction_at(bytes, i).0 matches Ok(None)) ==> i < instruction_at(bytes, i).1,
        instruction_at(bytes, i).0 matches Ok(None) ==> skip_trivia(bytes, i) == bytes.len(),
{
    lemma_skip_trivia(bytes, i);
    let start = skip_trivia(bytes, i);
    if start < bytes.len() {
        lemma_end_at(bytes, start);
        let p = end_at(bytes, start);
        if p < bytes.len() {
            lemma_end_at(bytes, p);
            let q = end_at(bytes, p);
            if q < bytes.len() {
                lemma_end_at(bytes, q);
            }
        }
    }
}

/// The rule of labels. A name between parentheses is read as a label, to
/// the end of the source, exactly where the name is a symbol: not empty,
/// made of letters, digits and `_`, `.`, `$`, `:` alone, and not begun by a
/// digit. The label then is the name.
pub proof fn lemma_label_rule(name: Seq<u8>)
    requires
        name.len() + 2 <= usize::MAX,
    ensures
        ({
            let source = seq![OPEN_PAREN] + name + seq![CLOSE_PAREN];
            let read = instruction_at(source, 0);
            &&& (read.0 matches Ok(Some(InstructionModel::Label(_))) && read.1 == source.len())
                <==> symbol_fault(name) is None
            &&& symbol_fault(name) is None ==> read.0 == Ok::<
                Option<InstructionModel>,
                ParseError,
            >(Some(InstructionModel::Label(decode_utf8(name))))
        }),
{
    let source = seq![OPEN_PAREN] + name + seq![CLOSE_PAREN];
    let n = name.len() as int;
    assert(source.len() == n + 2);
    assert(source[0] == OPEN_PAREN);
    assert(source[n + 1] == CLOSE_PAREN);
    assert forall|k: int| 0 <= k < n implies source[k + 1] == name[k] by {}
    assert(type_at(source, 0) == TokenType::OpenParens);
    assert(skip_trivia(source, 0) == 0);
    assert(end_at(source, 0) == 1);
    if symbol_fault(name) is None {
        assert forall|k: int| 1 <= k < n + 1 implies simple_type(#[trigger] source[k]) is None
            && source[k] != crate::text::SLASH by {
            assert(is_symbol_byte(name[k - 1]));
        }
        lemma_text_end_is(source, 1, n + 1);
        assert(is_symbol_byte(name[0]));
        assert(type_at(source, 1) == TokenType::Text);
        assert(end_at(source, 1) == n + 1);
        assert(source.subrange(1, n + 1) =~= name);
        assert(type_at(source, n + 1) == TokenType::CloseParens);
        assert(end_at(source, n + 1) == n + 2);
    } else {
        let read = instruction_at(source, 0);
        if read.0 matches Ok(Some(InstructionModel::Label(_))) && read.1 == source.len() {
            let e = end_at(source, 1);
            lemma_end_at(source, 1);
            assert(e < source.len());
            lemma_end_at(source, e);
            assert(end_at(source, e) == e + 1);
            assert(e == n + 1);
            assert(source.subrange(1, n + 1) =~= name);
            assert(false);
        }
    }
}

/// The rule of numeric constants. `@` with the decimal numeral of a number
/// behind it is read as the A-instruction that loads the number where it is
/// at most 32767, and refused where it is above.
pub proof fn lemma_numeric_constant_rule(n: u16)
    ensures
        ({
            let source = seq![AT_SIGN] + ascii_bytes(decimal(n as nat));
            instruction_at(source, 0) == if n <= MAX_NUMERIC_CONSTANT {
                (
                    Ok::<Option<InstructionModel>, ParseError>(
                        Some(InstructionModel::AInstruction(AddressModel::NumericConstant(n))),
                    ),
                    source.len() as int,
                )
            } else {
                (
                    Err::<Option<InstructionModel>, ParseError>(ParseError::ConstantTooLarge),
                    source.len() as int,
                )
            }
        }),
{
    let digits = ascii_bytes(decimal(n as nat));
    let source = seq![AT_SIGN] + digits;
    let m = digits.len() as int;
    lemma_decimal_round_trip(n);
    lemma_decimal_len(n as nat);
    assert(source[0] == AT_SIGN);
    assert forall|k: int| 0 <= k < m implies source[k + 1] == digits[k] by {}
    assert(type_at(source, 0) == TokenType::Address);
    assert(skip_trivia(source, 0) == 0);
    assert(end_at(source, 0) == 1);
    assert forall|k: int| 1 <= k < m + 1 implies simple_type(#[trigger] source[k]) is None
        && source[k] != crate::text::SLASH by {
        assert(is_digit(digits[k - 1]));
    }
    lemma_text_end_is(source, 1, m + 1);
    assert(is_digit(digits[0]));
    assert(type_at(source, 1) == TokenType::Text);
    assert(end_at(source, 1) == m + 1);
    assert(source.subrange(1, m + 1) =~= digits);
}

/// A decimal numeral of a `u16` has at most five digits.
pub proof fn lemma_decimal_len(n: nat)
    ensures
        n < 10 ==> decimal(n).len() == 1,
        n < 100 ==> decimal(n).len() <= 2,
        n < 1000 ==> decimal(n).len() <= 3,
        n < 10000 ==> decimal(n).len() <= 4,
        n < 100000 ==> decimal(n).len() <= 5,
{
    reveal_with_fuel(decimal, 6);
}

/// Whether what was read agrees with what was to be read.
pub open spec fn reads(
    res: Result<Option<Instruction>, String>,
    expected: Result<Option<InstructionModel>, ParseError>,
) -> bool {
    match expected {
        Ok(Some(instruction)) => res matches Ok(Some(i)) && i@ == instruction,
        Ok(None) => res matches Ok(None),
        Err(e) => res matches Err(message) && message@ == e.message(),
    }
}

/// The parser: a lexer, and on it the grammar of the assembly language.
pub struct Parser<'a> {
    tokenizer: Tokenizer<'a>,
}

impl<'a> Parser<'a> {
    /// The bytes of the source.
    pub closed spec fn bytes(&self) -> Seq<u8> {
        self.tokenizer.bytes()
    }

    /// The offset from which the next record is read.
    pub closed spec fn position(&self) -> int {
        self.tokenizer.position()
    }

    /// A parser at the start of `src`.
    pub fn new(src: &'a str) -> (r: Self)
        ensures
            r.bytes() == src.spec_bytes(),
            r.position() == 0,
    {
        Self { tokenizer: Tokenizer::new(src) }
    }

    /// Goes back to the start of the source.
    pub fn reset(&mut self)
        ensures
            final(self).bytes() == old(self).bytes(),
            final(self).position() == 0,
    {
        self.tokenizer.restore();
    }

    /// Reads the next record, or `None` at the end of the source.
    pub fn next_instruction(&mut self) -> (res: Result<Option<Instruction>, String>)
        ensures
            final(self).bytes() == old(self).bytes(),
            final(self).position() == instruction_at(old(self).bytes(), old(self).position()).1,
            reads(res, instruction_at(old(self).bytes(), old(self).position()).0),
    {
        self.skip_to_next_instruction();
        if self.is_done() {
            return Ok(None);
        }
        let next_token = self.take_token()?;
        let record = match next_token.get_type() {
            TokenType::Address => self.parse_a_instruction(),
            TokenType::OpenParens => self.parse_label(),
            TokenType::Text => self.parse_c_instruction(next_token),
            _ => Err(String::from_str("Unexpected token")),
        };
        record
    }

    fn parse_a_instruction(&mut self) -> (res: Result<Option<Instruction>, String>)
        ensures
            final(self).bytes() == old(self).bytes(),
            final(self).position() == a_instruction_at(old(self).bytes(), old(self).position()).1,
            match a_instruction_at(old(self).bytes(), old(self).position()).0 {
                Ok(instruction) => res matches Ok(Some(i)) && i@ == instruction,
                Err(e) => res matches Err(message) && message@ == e.message(),
            },
    {
        let address = self.expect_read(TokenType::Text)?;
        match parse_u16(address.as_str()) {
            Ok(num) => {
                if num > MAX_NUMERIC_CONSTANT {
                    return Err(
                        String::from_str("numeric constant exceeds hack maximum numeric constant"),
                    );
                }
                return Ok(Some(Instruction::AInstruction(Address::NumericConstant(num))));
            },
            Err(_) => {},
        }
        self.validate_symbol(address.as_str())?;
        match self.peek_token() {
            Some(t) => {
                let enders = [TokenType::WhiteSpace, TokenType::Newline, TokenType::Comment];
                assert(enders@ =~= symbol_enders());
                assert(symbol_enders().contains(t.t) == is_trivia(t.t)) by {
                    assert(symbol_enders()[0] == TokenType::WhiteSpace);
                    assert(symbol_enders()[1] == TokenType::Newline);
                    assert(symbol_enders()[2] == TokenType::Comment);
                }
                let _ = t.expect_one_of(enders.as_slice())?;
            },
            None => {},
        }
        Ok(Some(Instruction::AInstruction(Address::Symbol(address))))
    }

    fn parse_label(&mut self) -> (res: Result<Option<Instruction>, String>)
        ensures
            final(self).bytes() == old(self).bytes(),
            final(self).position() == label_at(old(self).bytes(), old(self).position()).1,
            match label_at(old(self).bytes(), old(self).position()).0 {
                Ok(instruction) => res matches Ok(Some(i)) && i@ == instruction,
                Err(e) => res matches Err(message) && message@ == e.message(),
            },
    {
        let label = self.expect_read(TokenType::Text)?;
        self.validate_symbol(label.as_str())?;
        let token = self.take_token()?;
        let _ = token.expect_type(TokenType::CloseParens)?;
        Ok(Some(Instruction::Label(label)))
    }

    fn parse_c_instruction(&mut self, text_token: Token) -> (res: Result<
        Option<Instruction>,
        String,
    >)
        requires
            sliceable(old(self).bytes(), text_token.start as int, text_token.end as int),
        ensures
            final(self).bytes() == old(self).bytes(),
            final(self).position() == c_instruction_at(
                old(self).bytes(),
                text_token,
                old(self).position(),
            ).1,
            match c_instruction_at(old(self).bytes(), text_token, old(self).position()).0 {
                Ok(instruction) => res matches Ok(Some(i)) && i@ == instruction,
                Err(e) => res matches Err(message) && message@ == e.message(),
            },
    {
        let dest_or_comp = self.read_token(text_token);
        let next_token = self.take_token()?;
        match next_token.get_type() {
            TokenType::Eq => {
                let dest = Some(dest_or_comp);
                let comp = self.expect_read(TokenType::Text)?;
                let jump = None;
                Ok(Some(Instruction::CInstruction { dest, comp, jump }))
            },
            TokenType::Comp => {
                let dest = None;
                let comp = dest_or_comp;
                let jump = Some(self.expect_read(TokenType::Text)?);
                Ok(Some(Instruction::CInstruction { dest, comp, jump }))
            },
            _ => {
                let found = self.read_token(next_token);
                let mut message = String::from_str("ctype expected '=' || ';', got ");
                message.append(debug_string(found.as_str()).as_str());
                Err(message)
            },
        }
    }

    fn validate_symbol(&self, label: &str) -> (res: Result<(), String>)
        ensures
            match symbol_fault(label.spec_bytes()) {
                None => res is Ok,
                Some(e) => res matches Err(message) && message@ == e.message(),
            },
    {
        let bytes = label.as_bytes();
        let n: usize = bytes.len();
        if n == 0 {
            return Err(String::from_str("empty label"));
        }
        let mut i: usize = 0;
        while i < n
            invariant
                0 < n,
                i <= n == bytes@.len(),
                bytes@ == label.spec_bytes(),
                forall|k: int| 0 <= k < i ==> is_symbol_byte(#[trigger] bytes@[k]),
            decreases n - i,
        {
            if !Self::is_symbol_char(bytes[i]) {
                assert(!is_symbol_byte(bytes@[i as int]));
                return Err(String::from_str("invalid label"));
            }
            i += 1;
        }
        if bytes[0] >= DIGIT_ZERO && bytes[0] <= DIGIT_NINE {
            return Err(String::from_str("label cannot begin with a digit"));
        }
        Ok(())
    }

    fn is_symbol_char(c: u8) -> (r: bool)
        ensures
            r == is_symbol_byte(c),
    {
        (DIGIT_ZERO <= c && c <= DIGIT_NINE) || (65 <= c && c <= 90) || (97 <= c && c <= 122) || c
            == 95 || c == 46 || c == 36 || c == 58
    }

    /// Steps over the blanks, newlines and comments before the next record.
    fn skip_to_next_instruction(&mut self)
        ensures
            final(self).bytes() == old(self).bytes(),
            final(self).position() == skip_trivia(old(self).bytes(), old(self).position()),
    {
        loop
            invariant
                self.bytes() == old(self).bytes(),
                skip_trivia(self.bytes(), self.position()) == skip_trivia(
                    old(self).bytes(),
                    old(self).position(),
                ),
            ensures
                self.bytes() == old(self).bytes(),
                self.position() == skip_trivia(old(self).bytes(), old(self).position()),
            decreases self.bytes().len() - self.position(),
        {
            proof {
                if 0 <= self.position() < self.bytes().len() {
                    lemma_end_at(self.bytes(), self.position());
                }
            }
            match self.tokenizer.peek_token() {
                Some(toke) => {
                    let t = toke.get_type();
                    if t == TokenType::WhiteSpace || t == TokenType::Newline || t
                        == TokenType::Comment {
                        let _ = self.tokenizer.next_token();
                    } else {
                        break ;
                    }
                },
                None => {
                    break ;
                },
            }
        }
    }

    fn take_token(&mut self) -> (res: Result<Token, String>)
        ensures
            final(self).bytes() == old(self).bytes(),
            match token_at(old(self).bytes(), old(self).position()) {
                Some(t) => res == Ok::<Token, String>(t) && final(self).position() == end_at(
                    old(self).bytes(),
                    old(self).position(),
                ) && sliceable(old(self).bytes(), t.start as int, t.end as int),
                None => final(self).position() == old(self).position() && (res matches Err(
                    message,
                ) && message@ == ParseError::EndOfStream.message()),
            },
    {
        proof {
            if 0 <= self.position() < self.bytes().len() {
                lemma_end_at(self.bytes(), self.position());
            }
        }
        match self.tokenizer.next_token() {
            Some(t) => Ok(t),
            None => Err(String::from_str("end of stream")),
        }
    }

    fn read_token(&self, t: Token) -> (r: String)
        requires
            sliceable(self.bytes(), t.start as int, t.end as int),
        ensures
            r@ == token_text(self.bytes(), t),
            bytes_of(r@) == token_bytes(self.bytes(), t),
    {
        let text = self.tokenizer.read_token(t);
        proof {
            encode_utf8_decode_utf8(text@);
        }
        String::from_str(text)
    }

    fn expect_read(&mut self, t: TokenType) -> (res: Result<String, String>)
        ensures
            final(self).bytes() == old(self).bytes(),
            final(self).position() == expected_at(old(self).bytes(), old(self).position(), t).1,
            match expected_at(old(self).bytes(), old(self).position(), t).0 {
                Ok(token) => res matches Ok(text) && text@ == token_text(old(self).bytes(), token)
                    && bytes_of(text@) == token_bytes(old(self).bytes(), token),
                Err(e) => res matches Err(message) && message@ == e.message(),
            },
    {
        let toke = self.take_token()?;
        let toke = toke.expect_type(t)?;
        Ok(self.read_token(toke))
    }

    fn peek_token(&self) -> (r: Option<Token>)
        ensures
            r == token_at(self.bytes(), self.position()),
    {
        self.tokenizer.peek_token()
    }

    /// Whether the source has been read to its end.
    pub(crate) fn is_done(&self) -> (r: bool)
        ensures
            r == (self.position() >= self.bytes().len()),
            0 <= self.position() <= self.bytes().len(),
    {
        self.tokenizer.is_empty()
    }
}

} // verus!
