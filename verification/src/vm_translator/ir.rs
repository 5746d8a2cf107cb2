//! The assembly intermediate representation: the nodes that VM commands are
//! lowered to, their rendering as Hack assembly, and the peephole pass.
use crate::text::{decimal, push_decimal, str_eq};
use crate::vm_translator::parser::{VmCommand, VmCommandModel};
use vstd::prelude::*;
use vstd::string::*;

verus! {

/// The computations of a C-instruction that the translator emits.
#[derive(Debug, Clone, Copy, PartialEq, Eq)]
pub enum Comp {
    Zero,
    NegOne,
    One,
    Data,
    Mem,
    Addr,
    NotData,
    NotMem,
    NotAddr,
    NegData,
    NegMem,
    NegAddr,
    DataPlusOne,
    MemPlusOne,
    AddrPlusOne,
    DataMinusOne,
    MemMinusOne,
    AddrMinusOne,
    DataPlusAddr,
    DataPlusMem,
    DataMinusAddr,
    AddrMinusData,
    MemMinusData,
    DataAndAddr,
    DataAndMem,
    DataOrAddr,
    DataOrMem,
}

impl Comp {
    /// The assembly mnemonic of the computation.
    pub open spec fn text(self) -> Seq<char> {
        match self {
            Comp::Zero => "0"@,
            Comp::NegOne => "-1"@,
            Comp::One => "1"@,
            Comp::Data => "D"@,
            Comp::Mem => "M"@,
            Comp::Addr => "A"@,
            Comp::NotData => "!D"@,
            Comp::NotMem => "!M"@,
            Comp::NotAddr => "!A"@,
            Comp::NegData => "-D"@,
            Comp::NegMem => "-M"@,
            Comp::NegAddr => "-A"@,
            Comp::DataPlusOne => "D+1"@,
            Comp::MemPlusOne => "M+1"@,
            Comp::AddrPlusOne => "A+1"@,
            Comp::DataMinusOne => "D-1"@,
            Comp::MemMinusOne => "M-1"@,
            Comp::AddrMinusOne => "A-1"@,
            Comp::DataPlusAddr => "D+A"@,
            Comp::DataPlusMem => "D+M"@,
            Comp::DataMinusAddr => "D-A"@,
            Comp::AddrMinusData => "A-D"@,
            Comp::MemMinusData => "M-D"@,
            Comp::DataAndAddr => "D&A"@,
            Comp::DataAndMem => "D&M"@,
            Comp::DataOrAddr => "D|A"@,
            Comp::DataOrMem => "D|M"@,
        }
    }

    pub fn as_str(&self) -> (r: &'static str)
        ensures
            r@ == self.text(),
    {
        match self {
            Comp::Zero => "0",
            Comp::NegOne => "-1",
            Comp::One => "1",
            Comp::Data => "D",
            Comp::Mem => "M",
            Comp::Addr => "A",
            Comp::NotData => "!D",
            Comp::NotMem => "!M",
            Comp::NotAddr => "!A",
            Comp::NegData => "-D",
            Comp::NegMem => "-M",
            Comp::NegAddr => "-A",
            Comp::DataPlusOne => "D+1",
            Comp::MemPlusOne => "M+1",
            Comp::AddrPlusOne => "A+1",
            Comp::DataMinusOne => "D-1",
            Comp::MemMinusOne => "M-1",
            Comp::AddrMinusOne => "A-1",
            Comp::DataPlusAddr => "D+A",
            Comp::DataPlusMem => "D+M",
            Comp::DataMinusAddr => "D-A",
            Comp::AddrMinusData => "A-D",
            Comp::MemMinusData => "M-D",
            Comp::DataAndAddr => "D&A",
            Comp::DataAndMem => "D&M",
            Comp::DataOrAddr => "D|A",
            Comp::DataOrMem => "D|M",
        }
    }
}

/// The destinations of a C-instruction.
#[derive(Debug, Clone, Copy, PartialEq, Eq)]
pub enum Dest {
    Mem,
    Data,
    DataMem,
    Addr,
    AddrMem,
    AddrData,
    All,
}

impl Dest {
    /// The assembly mnemonic of the destination.
    pub open spec fn text(self) -> Seq<char> {
        match self {
            Dest::Mem => "M"@,
            Dest::Data => "D"@,
            Dest::DataMem => "DM"@,
            Dest::Addr => "A"@,
            Dest::AddrMem => "AM"@,
            Dest::AddrData => "AD"@,
            Dest::All => "ADM"@,
        }
    }

    pub fn as_str(&self) -> (r: &'static str)
        ensures
            r@ == self.text(),
    {
        match self {
            Dest::Mem => "M",
            Dest::Data => "D",
            Dest::DataMem => "DM",
            Dest::Addr => "A",
            Dest::AddrMem => "AM",
            Dest::AddrData => "AD",
            Dest::All => "ADM",
        }
    }
}

/// The jump conditions of a C-instruction.
#[derive(Debug, Clone, Copy, PartialEq, Eq)]
pub enum Jump {
    Jgt,
    Jeq,
    Jge,
    Jlt,
    Jne,
    Jle,
    Jmp,
}

impl Jump {
    /// The assembly mnemonic of the jump.
    pub open spec fn text(self) -> Seq<char> {
        match self {
            Jump::Jgt => "JGT"@,
            Jump::Jeq => "JEQ"@,
            Jump::Jge => "JGE"@,
            Jump::Jlt => "JLT"@,
            Jump::Jne => "JNE"@,
            Jump::Jle => "JLE"@,
            Jump::Jmp => "JMP"@,
        }
    }

    pub fn as_str(&self) -> (r: &'static str)
        ensures
            r@ == self.text(),
    {
        match self {
            Jump::Jgt => "JGT",
            Jump::Jeq => "JEQ",
            Jump::Jge => "JGE",
            Jump::Jlt => "JLT",
            Jump::Jne => "JNE",
            Jump::Jle => "JLE",
            Jump::Jmp => "JMP",
        }
    }
}

/// One node of the assembly intermediate representation.
#[derive(Debug, Clone, PartialEq, Eq)]
pub enum AsmIr {
    /// Push D on the stack, then increment SP.
    Push,
    /// Decrement SP, then pop the top of the stack into D.
    Pop,
    /// `A = A - 1`, then `dest = comp`.
    DecAssign(Dest, Comp),
    /// `A = SP - 1`, then `dest = comp`.
    TopAssign(Dest, Comp),
    /// Load the cell at an offset from a segment's base into D.
    LoadOffset(String, u16),
    /// Load a constant into D.
    LoadConstant(u16),
    /// Load the cell at a symbol into D.
    LoadAddress(String),
    /// Store D in the cell at a symbol.
    WriteToAddress(String),
    /// Store the address of an offset from a segment's base in R13.
    StoreOffset(String, u16),
    /// Store D in the cell that the cell at a symbol points to.
    DerefWrite(String),
    /// Jump to a label on a condition on D.
    Jump(String, Jump),
    /// A label definition.
    Label(String),
    /// `dest = comp`.
    Assign(Dest, Comp),
    /// `@symbol`.
    Address(String),
    /// A comment, written out as it is.
    Comment(String),
}

/// The mathematical model of an [`AsmIr`] node: the same node with its texts
/// as character sequences.
pub enum AsmIrModel {
    Push,
    Pop,
    DecAssign(Dest, Comp),
    TopAssign(Dest, Comp),
    LoadOffset(Seq<char>, u16),
    LoadConstant(u16),
    LoadAddress(Seq<char>),
    WriteToAddress(Seq<char>),
    StoreOffset(Seq<char>, u16),
    DerefWrite(Seq<char>),
    Jump(Seq<char>, Jump),
    Label(Seq<char>),
    Assign(Dest, Comp),
    Address(Seq<char>),
    Comment(Seq<char>),
}

impl AsmIrModel {
    /// The Hack assembly that the node stands for.
    pub open spec fn render(self) -> Seq<char> {
        match self {
            AsmIrModel::Push => "@SP\nA=M\nM=D\n@SP\nM=M+1\n"@,
            AsmIrModel::Pop => "@SP\nAM=M-1\nD=M\n"@,
            AsmIrModel::DecAssign(dest, comp) => "A=A-1\n"@ + dest.text() + "="@ + comp.text()
                + "\n"@,
            AsmIrModel::TopAssign(dest, comp) => "@SP\nA=M-1\n"@ + dest.text() + "="@
                + comp.text() + "\n"@,
            AsmIrModel::LoadOffset(segment, offset) => "@"@ + decimal(offset as nat)
                + "\nD=A\n@"@ + segment + "\nA=D+M\nD=M\n"@,
            AsmIrModel::LoadConstant(value) => "@"@ + decimal(value as nat) + "\nD=A\n"@,
            AsmIrModel::LoadAddress(address) => "@"@ + address + "\nD=M\n"@,
            AsmIrModel::WriteToAddress(address) => "@"@ + address + "\nM=D\n"@,
            AsmIrModel::StoreOffset(segment, offset) => "@"@ + decimal(offset as nat)
                + "\nD=A\n@"@ + segment + "\nD=D+M\n@R13\nM=D\n"@,
            AsmIrModel::DerefWrite(address) => "@"@ + address + "\nA=M\nM=D\n"@,
            AsmIrModel::Jump(label, jump) => "@"@ + label + "\nD;"@ + jump.text() + "\n"@,
            AsmIrModel::Label(label) => "("@ + label + ")\n"@,
            AsmIrModel::Assign(dest, comp) => dest.text() + "="@ + comp.text() + "\n"@,
            AsmIrModel::Address(address) => "@"@ + address + "\n"@,
            AsmIrModel::Comment(comment) => comment,
        }
    }
}

impl View for AsmIr {
    type V = AsmIrModel;

    open spec fn view(&self) -> AsmIrModel {
        match *self {
            AsmIr::Push => AsmIrModel::Push,
            AsmIr::Pop => AsmIrModel::Pop,
            AsmIr::DecAssign(dest, comp) => AsmIrModel::DecAssign(dest, comp),
            AsmIr::TopAssign(dest, comp) => AsmIrModel::TopAssign(dest, comp),
            AsmIr::LoadOffset(segment, offset) => AsmIrModel::LoadOffset(segment@, offset),
            AsmIr::LoadConstant(value) => AsmIrModel::LoadConstant(value),
            AsmIr::LoadAddress(address) => AsmIrModel::LoadAddress(address@),
            AsmIr::WriteToAddress(address) => AsmIrModel::WriteToAddress(address@),
            AsmIr::StoreOffset(segment, offset) => AsmIrModel::StoreOffset(segment@, offset),
            AsmIr::DerefWrite(address) => AsmIrModel::DerefWrite(address@),
            AsmIr::Jump(label, jump) => AsmIrModel::Jump(label@, jump),
            AsmIr::Label(label) => AsmIrModel::Label(label@),
            AsmIr::Assign(dest, comp) => AsmIrModel::Assign(dest, comp),
            AsmIr::Address(address) => AsmIrModel::Address(address@),
            AsmIr::Comment(comment) => AsmIrModel::Comment(comment@),
        }
    }
}

/// The models of a sequence of nodes, in order.
pub open spec fn models(nodes: Seq<AsmIr>) -> Seq<AsmIrModel> {
    Seq::new(nodes.len(), |i: int| nodes[i]@)
}

impl AsmIr {
    /// The Hack assembly that the node stands for.
    pub fn to_string(self) -> (r: String)
        ensures
            r@ == self@.render(),
    {
        match self {
            AsmIr::Push => Self::push(),
            AsmIr::Pop => Self::pop(),
            AsmIr::DecAssign(dest, comp) => Self::dec_assign(dest, comp),
            AsmIr::TopAssign(dest, comp) => Self::top_assign(dest, comp),
            AsmIr::LoadOffset(segment, offset) => Self::load_offset(segment, offset),
            AsmIr::LoadConstant(value) => Self::load_constant(value),
            AsmIr::LoadAddress(address) => Self::load_address(address),
            AsmIr::WriteToAddress(address) => Self::write_to_address(address),
            AsmIr::StoreOffset(segment, offset) => Self::store_offset(segment, offset),
            AsmIr::DerefWrite(address) => Self::deref_write(address),
            AsmIr::Jump(label, jump) => Self::jump(label, jump),
            AsmIr::Label(label) => Self::label(label),
            AsmIr::Assign(dest, comp) => Self::assign(dest, comp),
            AsmIr::Address(address) => Self::address(address),
            AsmIr::Comment(comment) => comment,
        }
    }

    fn push() -> (r: String)
        ensures
            r@ == AsmIrModel::Push.render(),
    {
        String::from_str("@SP\nA=M\nM=D\n@SP\nM=M+1\n")
    }

    fn pop() -> (r: String)
        ensures
            r@ == AsmIrModel::Pop.render(),
    {
        String::from_str("@SP\nAM=M-1\nD=M\n")
    }

    fn dec_assign(dest: Dest, comp: Comp) -> (r: String)
        ensures
            r@ == AsmIrModel::DecAssign(dest, comp).render(),
    {
        let mut out = String::from_str("A=A-1\n");
        out.append(dest.as_str());
        out.append("=");
        out.append(comp.as_str());
        out.append("\n");
        out
    }

    fn top_assign(dest: Dest, comp: Comp) -> (r: String)
        ensures
            r@ == AsmIrModel::TopAssign(dest, comp).render(),
    {
        let mut out = String::from_str("@SP\nA=M-1\n");
        out.append(dest.as_str());
        out.append("=");
        out.append(comp.as_str());
        out.append("\n");
        out
    }

    fn load_offset(segment: String, offset: u16) -> (r: String)
        ensures
            r@ == AsmIrModel::LoadOffset(segment@, offset).render(),
    {
        let mut out = String::from_str("@");
        push_decimal(&mut out, offset);
        out.append("\nD=A\n@");
        out.append(segment.as_str());
        out.append("\nA=D+M\nD=M\n");
        out
    }

    fn load_constant(value: u16) -> (r: String)
        ensures
            r@ == AsmIrModel::LoadConstant(value).render(),
    {
        let mut out = String::from_str("@");
        push_decimal(&mut out, value);
        out.append("\nD=A\n");
        out
    }

    fn load_address(address: String) -> (r: String)
        ensures
            r@ == AsmIrModel::LoadAddress(address@).render(),
    {
        let mut out = String::from_str("@");
        out.append(address.as_str());
        out.append("\nD=M\n");
        out
    }

    fn write_to_address(address: String) -> (r: String)
        ensures
            r@ == AsmIrModel::WriteToAddress(address@).render(),
    {
        let mut out = String::from_str("@");
        out.append(address.as_str());
        out.append("\nM=D\n");
        out
    }

    fn store_offset(segment: String, offset: u16) -> (r: String)
        ensures
            r@ == AsmIrModel::StoreOffset(segment@, offset).render(),
    {
        let mut out = String::from_str("@");
        push_decimal(&mut out, offset);
        out.append("\nD=A\n@");
        out.append(segment.as_str());
        out.append("\nD=D+M\n@R13\nM=D\n");
        out
    }

    /// The assembly that stores D in the cell that the cell at `address`
    /// points to.
    pub fn deref_write(address: String) -> (r: String)
        ensures
            r@ == AsmIrModel::DerefWrite(address@).render(),
    {
        let mut out = String::from_str("@");
        out.append(address.as_str());
        out.append("\nA=M\nM=D\n");
        out
    }

    fn jump(label: String, jump: Jump) -> (r: String)
        ensures
            r@ == AsmIrModel::Jump(label@, jump).render(),
    {
        let mut out = String::from_str("@");
        out.append(label.as_str());
        out.append("\nD;");
        out.append(jump.as_str());
        out.append("\n");
        out
    }

    fn label(label: String) -> (r: String)
        ensures
            r@ == AsmIrModel::Label(label@).render(),
    {
        let mut out = String::from_str("(");
        out.append(label.as_str());
        out.append(")\n");
        out
    }

    fn assign(dest: Dest, comp: Comp) -> (r: String)
        ensures
            r@ == AsmIrModel::Assign(dest, comp).render(),
    {
        let mut out = String::from_str(dest.as_str());
        out.append("=");
        out.append(comp.as_str());
        out.append("\n");
        out
    }

    fn address(address: String) -> (r: String)
        ensures
            r@ == AsmIrModel::Address(address@).render(),
    {
        let mut out = String::from_str("@");
        out.append(address.as_str());
        out.append("\n");
        out
    }

    /// A copy of the node.
    pub(crate) fn duplicate(&self) -> (r: AsmIr)
        ensures
            r@ == self@,
    {
        match self {
            AsmIr::Push => AsmIr::Push,
            AsmIr::Pop => AsmIr::Pop,
            AsmIr::DecAssign(dest, comp) => AsmIr::DecAssign(*dest, *comp),
            AsmIr::TopAssign(dest, comp) => AsmIr::TopAssign(*dest, *comp),
            AsmIr::LoadOffset(segment, offset) => AsmIr::LoadOffset(segment.clone(), *offset),
            AsmIr::LoadConstant(value) => AsmIr::LoadConstant(*value),
            AsmIr::LoadAddress(address) => AsmIr::LoadAddress(address.clone()),
            AsmIr::WriteToAddress(address) => AsmIr::WriteToAddress(address.clone()),
            AsmIr::StoreOffset(segment, offset) => AsmIr::StoreOffset(segment.clone(), *offset),
            AsmIr::DerefWrite(address) => AsmIr::DerefWrite(address.clone()),
            AsmIr::Jump(label, jump) => AsmIr::Jump(label.clone(), *jump),
            AsmIr::Label(label) => AsmIr::Label(label.clone()),
            AsmIr::Assign(dest, comp) => AsmIr::Assign(*dest, *comp),
            AsmIr::Address(address) => AsmIr::Address(address.clone()),
            AsmIr::Comment(comment) => AsmIr::Comment(comment.clone()),
        }
    }
}

/// Why a VM command cannot be lowered.
pub enum LowerError {
    /// `push temp` with an index above 7.
    PushTempIndex(u16),
    /// `pop temp` with an index above 7.
    PopTempIndex(u16),
    /// The segment cannot be addressed by this command.
    InvalidSegment,
}

impl LowerError {
    /// The message that reports the error.
    pub open spec fn message(self) -> Seq<char> {
        match self {
            LowerError::PushTempIndex(index) => "Invalid index for push temp, received "@
                + decimal(index as nat),
            LowerError::PopTempIndex(index) => "Invalid index for pop temp, received "@ + decimal(
                index as nat,
            ),
            LowerError::InvalidSegment => "Invalid segment"@,
        }
    }
}

/// The comment node that holds `text`.
pub open spec fn comment_node(text: Seq<char>) -> AsmIrModel {
    AsmIrModel::Comment("// "@ + text + "\n"@)
}

/// The base-address symbol of a segment that is addressed through a pointer.
pub open spec fn segment_base(segment: Seq<char>) -> Option<Seq<char>> {
    if segment == "local"@ {
        Some("LCL"@)
    } else if segment == "argument"@ {
        Some("ARG"@)
    } else if segment == "this"@ {
        Some("THIS"@)
    } else if segment == "that"@ {
        Some("THAT"@)
    } else {
        None
    }
}

/// The two labels of the `counter`-th comparison of a file: the one jumped
/// to when the condition holds, and the one at the end.
pub open spec fn comparison_labels(condition: Seq<char>, file: Seq<char>, counter: u16) -> (
    Seq<char>,
    Seq<char>,
) {
    (
        condition + "_TRUE_"@ + file + "."@ + decimal(counter as nat),
        condition + "_END_"@ + file + "."@ + decimal(counter as nat),
    )
}

/// The nodes of a binary arithmetic or logical command.
pub open spec fn lower_binary(name: Seq<char>, comp: Comp) -> Seq<AsmIrModel> {
    seq![comment_node(name), AsmIrModel::Pop, AsmIrModel::DecAssign(Dest::Mem, comp)]
}

/// The nodes of a unary arithmetic or logical command.
pub open spec fn lower_unary(name: Seq<char>, comp: Comp) -> Seq<AsmIrModel> {
    seq![comment_node(name), AsmIrModel::TopAssign(Dest::Mem, comp)]
}

/// The nodes of a comparison: the top of the stack becomes -1 where the
/// condition holds of the difference of the two topmost cells, else 0.
pub open spec fn lower_comparison(
    condition: Seq<char>,
    jump: Jump,
    file: Seq<char>,
    counter: u16,
) -> Seq<AsmIrModel> {
    let (if_true, end) = comparison_labels(condition, file, counter);
    seq![
        comment_node("Comparison "@ + condition),
        AsmIrModel::Pop,
        AsmIrModel::DecAssign(Dest::Data, Comp::MemMinusData),
        AsmIrModel::Jump(if_true, jump),
        AsmIrModel::TopAssign(Dest::Mem, Comp::Zero),
        AsmIrModel::Jump(end, Jump::Jmp),
        AsmIrModel::Label(if_true),
        AsmIrModel::TopAssign(Dest::Mem, Comp::NegOne),
        AsmIrModel::Label(end),
    ]
}

/// The nodes that follow the comment of `push segment index`.
pub open spec fn lower_push(segment: Seq<char>, index: u16, file: Seq<char>) -> Result<
    Seq<AsmIrModel>,
    LowerError,
> {
    if segment == "constant"@ {
        Ok(seq![AsmIrModel::LoadConstant(index), AsmIrModel::Push])
    } else if segment == "static"@ {
        Ok(seq![AsmIrModel::LoadAddress(file + "."@ + decimal(index as nat)), AsmIrModel::Push])
    } else if segment == "pointer"@ && index == 0 {
        Ok(seq![AsmIrModel::LoadAddress("THIS"@), AsmIrModel::Push])
    } else if segment == "pointer"@ && index == 1 {
        Ok(seq![AsmIrModel::LoadAddress("THAT"@), AsmIrModel::Push])
    } else if segment == "temp"@ {
        if index > 7 {
            Err(LowerError::PushTempIndex(index))
        } else {
            Ok(
                seq![
                    AsmIrModel::LoadAddress("R"@ + decimal((5 + index) as nat)),
                    AsmIrModel::Push,
                ],
            )
        }
    } else {
        match segment_base(segment) {
            Some(base) => Ok(seq![AsmIrModel::LoadOffset(base, index), AsmIrModel::Push]),
            None => Err(LowerError::InvalidSegment),
        }
    }
}

/// The nodes that follow the comment of `pop segment index`.
pub open spec fn lower_pop(segment: Seq<char>, index: u16, file: Seq<char>) -> Result<
    Seq<AsmIrModel>,
    LowerError,
> {
    if segment == "static"@ {
        Ok(
            seq![
                AsmIrModel::Pop,
                AsmIrModel::WriteToAddress(file + "."@ + decimal(index as nat)),
            ],
        )
    } else if segment == "pointer"@ && index == 0 {
        Ok(seq![AsmIrModel::Pop, AsmIrModel::WriteToAddress("THIS"@)])
    } else if segment == "pointer"@ && index == 1 {
        Ok(seq![AsmIrModel::Pop, AsmIrModel::WriteToAddress("THAT"@)])
    } else if segment == "temp"@ {
        if index > 7 {
            Err(LowerError::PopTempIndex(index))
        } else {
            Ok(
                seq![
                    AsmIrModel::Pop,
                    AsmIrModel::WriteToAddress("R"@ + decimal((5 + index) as nat)),
                ],
            )
        }
    } else {
        match segment_base(segment) {
            Some(base) => Ok(
                seq![
                    AsmIrModel::StoreOffset(base, index),
                    AsmIrModel::Pop,
                    AsmIrModel::DerefWrite("R13"@),
                ],
            ),
            None => Err(LowerError::InvalidSegment),
        }
    }
}

/// The rule of the temp segment. `push temp` and `pop temp` are lowered for
/// the indices 0 to 7, to the registers R5 to R12, and for no other.
pub proof fn lemma_temp_rule(index: u16, file: Seq<char>)
    ensures
        lower_push("temp"@, index, file) is Ok <==> index <= 7,
        lower_pop("temp"@, index, file) is Ok <==> index <= 7,
        index <= 7 ==> lower_push("temp"@, index, file) == Ok::<Seq<AsmIrModel>, LowerError>(
            seq![AsmIrModel::LoadAddress("R"@ + decimal((5 + index) as nat)), AsmIrModel::Push],
        ),
        index <= 7 ==> lower_pop("temp"@, index, file) == Ok::<Seq<AsmIrModel>, LowerError>(
            seq![AsmIrModel::Pop, AsmIrModel::WriteToAddress("R"@ + decimal((5 + index) as nat))],
        ),
{
    reveal_strlit("temp");
    reveal_strlit("constant");
    reveal_strlit("static");
    reveal_strlit("pointer");
    assert("temp"@.len() == 4 && "constant"@.len() == 8 && "static"@.len() == 6 && "pointer"@.len()
        == 7);
}

/// Whether a command is a comparison, which takes a fresh pair of labels.
pub open spec fn is_comparison(command: VmCommandModel) -> bool {
    command is Eq || command is Gt || command is Lt
}

/// The nodes that a command adds to the program, and the error that ends
/// the lowering where there is one. A memory command whose segment or index
/// is refused still leaves its comment behind.
pub open spec fn lower(command: VmCommandModel, file: Seq<char>, counter: u16) -> (
    Seq<AsmIrModel>,
    Option<LowerError>,
) {
    match command {
        VmCommandModel::Add => (lower_binary("Add"@, Comp::DataPlusMem), None),
        VmCommandModel::Sub => (lower_binary("Sub"@, Comp::MemMinusData), None),
        VmCommandModel::And => (lower_binary("And"@, Comp::DataAndMem), None),
        VmCommandModel::Or => (lower_binary("Or"@, Comp::DataOrMem), None),
        VmCommandModel::Neg => (lower_unary("Neg"@, Comp::NegMem), None),
        VmCommandModel::Not => (lower_unary("Not"@, Comp::NotMem), None),
        VmCommandModel::Gt => (lower_comparison("JGT"@, Jump::Jgt, file, counter), None),
        VmCommandModel::Lt => (lower_comparison("JLT"@, Jump::Jlt, file, counter), None),
        VmCommandModel::Eq => (lower_comparison("JEQ"@, Jump::Jeq, file, counter), None),
        VmCommandModel::Push { segment, index } => {
            let comment = comment_node("Push "@ + segment + " "@ + decimal(index as nat));
            match lower_push(segment, index, file) {
                Ok(nodes) => (seq![comment] + nodes, None),
                Err(e) => (seq![comment], Some(e)),
            }
        },
        VmCommandModel::Pop { segment, index } => {
            let comment = comment_node("Pop "@ + segment + " "@ + decimal(index as nat));
            match lower_pop(segment, index, file) {
                Ok(nodes) => (seq![comment] + nodes, None),
                Err(e) => (seq![comment], Some(e)),
            }
        },
    }
}

/// The replacement of a `Push` that a `Pop` follows: the address register
/// is left at the top of the stack, and the stack pointer where it was.
pub open spec fn collapsed_pair() -> Seq<AsmIrModel> {
    seq![AsmIrModel::Address("SP"@), AsmIrModel::Assign(Dest::Addr, Comp::Mem)]
}

/// The peephole pass on the nodes from index `i` on. A `Push` whose next
/// node, or whose next node after one comment, is a `Pop` is collapsed
/// together with it; the comment, where there is one, follows the
/// replacement. Every other node is kept, in order.
pub open spec fn optimized_from(nodes: Seq<AsmIrModel>, i: int) -> Seq<AsmIrModel>
    decreases nodes.len() - i,
{
    if i < 0 || i >= nodes.len() {
        Seq::empty()
    } else if i + 1 >= nodes.len() {
        seq![nodes[i]]
    } else if nodes[i + 1] is Comment {
        if i + 2 < nodes.len() && nodes[i] is Push && nodes[i + 2] is Pop {
            collapsed_pair().push(nodes[i + 1]) + optimized_from(nodes, i + 3)
        } else {
            seq![nodes[i], nodes[i + 1]] + optimized_from(nodes, i + 2)
        }
    } else if nodes[i] is Push && nodes[i + 1] is Pop {
        collapsed_pair() + optimized_from(nodes, i + 2)
    } else {
        seq![nodes[i]] + optimized_from(nodes, i + 1)
    }
}

/// The peephole pass on a whole program.
pub open spec fn optimized(nodes: Seq<AsmIrModel>) -> Seq<AsmIrModel> {
    optimized_from(nodes, 0)
}

/// The nodes of a program that a predicate selects, in order.
pub open spec fn selected(nodes: Seq<AsmIrModel>, keep: spec_fn(AsmIrModel) -> bool) -> Seq<
    AsmIrModel,
>
    decreases nodes.len(),
{
    if nodes.len() == 0 {
        Seq::empty()
    } else if keep(nodes.last()) {
        selected(nodes.drop_last(), keep).push(nodes.last())
    } else {
        selected(nodes.drop_last(), keep)
    }
}

/// Whether a predicate selects none of the nodes that the peephole pass
/// takes away or puts in: `Push`, `Pop`, and the two nodes of the
/// replacement.
pub open spec fn untouched_by_pass(keep: spec_fn(AsmIrModel) -> bool) -> bool {
    &&& !keep(AsmIrModel::Push)
    &&& !keep(AsmIrModel::Pop)
    &&& !keep(collapsed_pair()[0])
    &&& !keep(collapsed_pair()[1])
}

/// Selecting from two programs, one after the other, is selecting from
/// each.
pub proof fn lemma_selected_add(
    first: Seq<AsmIrModel>,
    second: Seq<AsmIrModel>,
    keep: spec_fn(AsmIrModel) -> bool,
)
    ensures
        selected(first + second, keep) == selected(first, keep) + selected(second, keep),
    decreases second.len(),
{
    if second.len() == 0 {
        assert(first + second =~= first);
        assert(selected(first, keep) + selected(second, keep) =~= selected(first, keep));
    } else {
        assert((first + second).drop_last() =~= first + second.drop_last());
        assert((first + second).last() == second.last());
        lemma_selected_add(first, second.drop_last(), keep);
        if keep(second.last()) {
            assert(selected(first, keep) + selected(second.drop_last(), keep).push(second.last())
                =~= (selected(first, keep) + selected(second.drop_last(), keep)).push(
                second.last(),
            ));
        }
    }
}

/// What is selected from one node.
proof fn lemma_selected_one(a: AsmIrModel, keep: spec_fn(AsmIrModel) -> bool)
    ensures
        selected(seq![a], keep) == if keep(a) {
            seq![a]
        } else {
            Seq::<AsmIrModel>::empty()
        },
{
    reveal_with_fuel(selected, 2);
    assert(seq![a].drop_last() =~= Seq::<AsmIrModel>::empty());
    assert(selected(seq![a], keep) =~= if keep(a) {
        seq![a]
    } else {
        Seq::<AsmIrModel>::empty()
    });
}

/// What is selected from two nodes.
proof fn lemma_selected_two(a: AsmIrModel, b: AsmIrModel, keep: spec_fn(AsmIrModel) -> bool)
    ensures
        selected(seq![a, b], keep) == selected(seq![a], keep) + selected(seq![b], keep),
{
    assert(seq![a, b] =~= seq![a] + seq![b]);
    lemma_selected_add(seq![a], seq![b], keep);
}

/// What is selected from three nodes.
proof fn lemma_selected_three(
    a: AsmIrModel,
    b: AsmIrModel,
    c: AsmIrModel,
    keep: spec_fn(AsmIrModel) -> bool,
)
    ensures
        selected(seq![a, b, c], keep) == selected(seq![a], keep) + selected(seq![b], keep)
            + selected(seq![c], keep),
{
    lemma_selected_two(a, b, keep);
    assert(seq![a, b, c] =~= seq![a, b] + seq![c]);
    lemma_selected_add(seq![a, b], seq![c], keep);
}

/// The peephole pass is stable. Whatever is selected by a predicate that
/// leaves out `Push`, `Pop` and the nodes of the replacement, the pass
/// keeps it, each node once and all in their order. So it keeps every
/// comment and every node that it does not collapse.
pub proof fn lemma_pass_is_stable(
    nodes: Seq<AsmIrModel>,
    i: int,
    keep: spec_fn(AsmIrModel) -> bool,
)
    requires
        0 <= i <= nodes.len(),
        untouched_by_pass(keep),
    ensures
        selected(optimized_from(nodes, i), keep) == selected(nodes.skip(i), keep),
    decreases nodes.len() - i,
{
    let rest = nodes.skip(i);
    let pair = collapsed_pair();
    assert(pair =~= seq![pair[0], pair[1]]);
    lemma_selected_one(pair[0], keep);
    lemma_selected_one(pair[1], keep);
    lemma_selected_two(pair[0], pair[1], keep);
    if i >= nodes.len() {
        assert(rest =~= Seq::<AsmIrModel>::empty());
    } else if i + 1 >= nodes.len() {
        assert(rest =~= seq![nodes[i]]);
    } else if nodes[i + 1] is Comment {
        if i + 2 < nodes.len() && nodes[i] is Push && nodes[i + 2] is Pop {
            lemma_pass_is_stable(nodes, i + 3, keep);
            let head = pair.push(nodes[i + 1]);
            assert(head =~= seq![pair[0], pair[1], nodes[i + 1]]);
            lemma_selected_three(pair[0], pair[1], nodes[i + 1], keep);
            lemma_selected_add(head, optimized_from(nodes, i + 3), keep);
            let taken = seq![nodes[i], nodes[i + 1], nodes[i + 2]];
            assert(rest =~= taken + nodes.skip(i + 3));
            lemma_selected_three(nodes[i], nodes[i + 1], nodes[i + 2], keep);
            lemma_selected_add(taken, nodes.skip(i + 3), keep);
            lemma_selected_one(nodes[i], keep);
            lemma_selected_one(nodes[i + 2], keep);
            assert(selected(head, keep) =~= selected(seq![nodes[i + 1]], keep));
            assert(selected(taken, keep) =~= selected(seq![nodes[i + 1]], keep));
        } else {
            lemma_pass_is_stable(nodes, i + 2, keep);
            let kept = seq![nodes[i], nodes[i + 1]];
            lemma_selected_add(kept, optimized_from(nodes, i + 2), keep);
            assert(rest =~= kept + nodes.skip(i + 2));
            lemma_selected_add(kept, nodes.skip(i + 2), keep);
        }
    } else if nodes[i] is Push && nodes[i + 1] is Pop {
        lemma_pass_is_stable(nodes, i + 2, keep);
        lemma_selected_add(pair, optimized_from(nodes, i + 2), keep);
        let taken = seq![nodes[i], nodes[i + 1]];
        assert(rest =~= taken + nodes.skip(i + 2));
        lemma_selected_two(nodes[i], nodes[i + 1], keep);
        lemma_selected_one(nodes[i], keep);
        lemma_selected_one(nodes[i + 1], keep);
        lemma_selected_add(taken, nodes.skip(i + 2), keep);
        assert(selected(pair, keep) =~= Seq::<AsmIrModel>::empty());
        assert(selected(taken, keep) =~= Seq::<AsmIrModel>::empty());
    } else {
        lemma_pass_is_stable(nodes, i + 1, keep);
        lemma_selected_add(seq![nodes[i]], optimized_from(nodes, i + 1), keep);
        assert(rest =~= seq![nodes[i]] + nodes.skip(i + 1));
        lemma_selected_add(seq![nodes[i]], nodes.skip(i + 1), keep);
    }
}

/// The peephole pass keeps the comments of a program, each once and all in
/// their order.
pub proof fn lemma_pass_keeps_comments(nodes: Seq<AsmIrModel>)
    ensures
        selected(optimized(nodes), |n: AsmIrModel| n is Comment) == selected(
            nodes,
            |n: AsmIrModel| n is Comment,
        ),
{
    let keep = |n: AsmIrModel| n is Comment;
    lemma_pass_is_stable(nodes, 0, keep);
    assert(nodes.skip(0) =~= nodes);
}

/// Lowers VM commands, one at a time, into a growing program of nodes.
pub struct IrParser<'a> {
    /// The program lowered so far.
    pub commands: Vec<AsmIr>,
    /// The number of comparisons lowered so far.
    pub conditional_counter: u16,
    /// The name of the file that is translated.
    pub filename: &'a str,
}

impl<'a> IrParser<'a> {
    /// The program lowered so far.
    pub open spec fn program(&self) -> Seq<AsmIrModel> {
        models(self.commands@)
    }

    /// The number of comparisons lowered so far.
    pub open spec fn counter(&self) -> u16 {
        self.conditional_counter
    }

    /// The name of the file that is translated: it makes labels and static
    /// symbols unique to the file.
    pub open spec fn file(&self) -> Seq<char> {
        self.filename@
    }

    pub fn new(filename: &'a str) -> (r: Self)
        ensures
            r.program() == Seq::<AsmIrModel>::empty(),
            r.counter() == 0,
            r.file() == filename@,
    {
        let r = IrParser { commands: Vec::new(), conditional_counter: 0, filename };
        assert(r.program() =~= Seq::<AsmIrModel>::empty());
        r
    }

    /// Lowers one command and appends its nodes.
    pub fn parse(&mut self, command: VmCommand) -> (res: Result<(), String>)
        requires
            is_comparison(command@) ==> old(self).counter() < u16::MAX,
        ensures
            final(self).file() == old(self).file(),
            final(self).program() == old(self).program() + lower(
                command@,
                old(self).file(),
                old(self).counter(),
            ).0,
            final(self).counter() == if is_comparison(command@) {
                (old(self).counter() + 1) as u16
            } else {
                old(self).counter()
            },
            match lower(command@, old(self).file(), old(self).counter()).1 {
                None => res is Ok,
                Some(e) => res matches Err(message) && message@ == e.message(),
            },
    {
        match command {
            VmCommand::Add => {
                self.comment("Add");
                self.emit(AsmIr::Pop);
                self.emit(AsmIr::DecAssign(Dest::Mem, Comp::DataPlusMem));
                assert(self.program() =~= old(self).program() + lower_binary(
                    "Add"@,
                    Comp::DataPlusMem,
                ));
                Ok(())
            },
            VmCommand::Sub => {
                self.comment("Sub");
                self.emit(AsmIr::Pop);
                self.emit(AsmIr::DecAssign(Dest::Mem, Comp::MemMinusData));
                assert(self.program() =~= old(self).program() + lower_binary(
                    "Sub"@,
                    Comp::MemMinusData,
                ));
                Ok(())
            },
            VmCommand::And => {
                self.comment("And");
                self.emit(AsmIr::Pop);
                self.emit(AsmIr::DecAssign(Dest::Mem, Comp::DataAndMem));
                assert(self.program() =~= old(self).program() + lower_binary(
                    "And"@,
                    Comp::DataAndMem,
                ));
                Ok(())
            },
            VmCommand::Or => {
                self.comment("Or");
                self.emit(AsmIr::Pop);
                self.emit(AsmIr::DecAssign(Dest::Mem, Comp::DataOrMem));
                assert(self.program() =~= old(self).program() + lower_binary(
                    "Or"@,
                    Comp::DataOrMem,
                ));
                Ok(())
            },
            VmCommand::Neg => {
                self.comment("Neg");
                self.emit(AsmIr::TopAssign(Dest::Mem, Comp::NegMem));
                assert(self.program() =~= old(self).program() + lower_unary("Neg"@, Comp::NegMem));
                Ok(())
            },
            VmCommand::Not => {
                self.comment("Not");
                self.emit(AsmIr::TopAssign(Dest::Mem, Comp::NotMem));
                assert(self.program() =~= old(self).program() + lower_unary("Not"@, Comp::NotMem));
                Ok(())
            },
            VmCommand::Gt => self.push_comparison("JGT", Jump::Jgt),
            VmCommand::Lt => self.push_comparison("JLT", Jump::Jlt),
            VmCommand::Eq => self.push_comparison("JEQ", Jump::Jeq),
            VmCommand::Push { segment, index } => self.push(segment, index),
            VmCommand::Pop { segment, index } => self.pop(segment, index),
        }
    }

    /// Rewrites the program by the peephole pass.
    pub fn optimize(&mut self)
        ensures
            final(self).program() == optimized(old(self).program()),
            final(self).counter() == old(self).counter(),
            final(self).file() == old(self).file(),
    {
        let mut result: Vec<AsmIr> = Vec::new();
        let n: usize = self.commands.len();
        let mut i: usize = 0;
        while i < n
            invariant
                i <= n,
                n == self.commands.len(),
                *self == *old(self),
                optimized(self.program()) == models(result@) + optimized_from(
                    self.program(),
                    i as int,
                ),
            decreases n - i,
        {
            let ghost before = models(result@);
            let ghost nodes = self.program();
            if i + 1 >= n {
                result.push(self.commands[i].duplicate());
                assert(models(result@) =~= before + seq![nodes[i as int]]);
                i = i + 1;
            } else if Self::is_comment(&self.commands[i + 1]) {
                if i + 2 < n && Self::is_push(&self.commands[i]) && Self::is_pop(
                    &self.commands[i + 2],
                ) {
                    result.push(AsmIr::Address(String::from_str("SP")));
                    result.push(AsmIr::Assign(Dest::Addr, Comp::Mem));
                    result.push(self.commands[i + 1].duplicate());
                    assert(models(result@) =~= before + collapsed_pair().push(
                        nodes[i as int + 1],
                    ));
                    i = i + 3;
                } else {
                    result.push(self.commands[i].duplicate());
                    result.push(self.commands[i + 1].duplicate());
                    assert(models(result@) =~= before + seq![
                        nodes[i as int],
                        nodes[i as int + 1],
                    ]);
                    i = i + 2;
                }
            } else if Self::is_push(&self.commands[i]) && Self::is_pop(&self.commands[i + 1]) {
                result.push(AsmIr::Address(String::from_str("SP")));
                result.push(AsmIr::Assign(Dest::Addr, Comp::Mem));
                assert(models(result@) =~= before + collapsed_pair());
                i = i + 2;
            } else {
                result.push(self.commands[i].duplicate());
                assert(models(result@) =~= before + seq![nodes[i as int]]);
                i = i + 1;
            }
        }
        assert(models(result@) =~= optimized(self.program()));
        self.commands = result;
    }

    fn is_comment(node: &AsmIr) -> (r: bool)
        ensures
            r == (node@ is Comment),
    {
        match node {
            AsmIr::Comment(_) => true,
            _ => false,
        }
    }

    fn is_push(node: &AsmIr) -> (r: bool)
        ensures
            r == (node@ is Push),
    {
        match node {
            AsmIr::Push => true,
            _ => false,
        }
    }

    fn is_pop(node: &AsmIr) -> (r: bool)
        ensures
            r == (node@ is Pop),
    {
        match node {
            AsmIr::Pop => true,
            _ => false,
        }
    }

    fn emit(&mut self, node: AsmIr)
        ensures
            final(self).program() == old(self).program().push(node@),
            final(self).counter() == old(self).counter(),
            final(self).file() == old(self).file(),
    {
        self.commands.push(node);
        assert(self.program() =~= old(self).program().push(node@));
    }

    fn push_comparison(&mut self, condition: &str, jmp: Jump) -> (res: Result<(), String>)
        requires
            old(self).counter() < u16::MAX,
        ensures
            res is Ok,
            final(self).file() == old(self).file(),
            final(self).counter() == old(self).counter() + 1,
            final(self).program() == old(self).program() + lower_comparison(
                condition@,
                jmp,
                old(self).file(),
                old(self).counter(),
            ),
    {
        let mut title = String::from_str("Comparison ");
        title.append(condition);
        self.comment(title.as_str());

        let mut if_true = String::from_str(condition);
        if_true.append("_TRUE_");
        if_true.append(self.filename);
        if_true.append(".");
        push_decimal(&mut if_true, self.conditional_counter);

        let mut end = String::from_str(condition);
        end.append("_END_");
        end.append(self.filename);
        end.append(".");
        push_decimal(&mut end, self.conditional_counter);

        self.conditional_counter += 1;
        self.emit(AsmIr::Pop);
        self.emit(AsmIr::DecAssign(Dest::Data, Comp::MemMinusData));
        self.emit(AsmIr::Jump(if_true.clone(), jmp));
        self.emit(AsmIr::TopAssign(Dest::Mem, Comp::Zero));
        self.emit(AsmIr::Jump(end.clone(), Jump::Jmp));
        self.emit(AsmIr::Label(if_true));
        self.emit(AsmIr::TopAssign(Dest::Mem, Comp::NegOne));
        self.emit(AsmIr::Label(end));
        assert(self.program() =~= old(self).program() + lower_comparison(
            condition@,
            jmp,
            old(self).file(),
            old(self).counter(),
        ));
        Ok(())
    }

    fn push(&mut self, segment: &str, index: u16) -> (res: Result<(), String>)
        ensures
            final(self).file() == old(self).file(),
            final(self).counter() == old(self).counter(),
            match lower_push(segment@, index, old(self).file()) {
                Ok(nodes) => res is Ok && final(self).program() == old(self).program() + (seq![
                    comment_node("Push "@ + segment@ + " "@ + decimal(index as nat)),
                ] + nodes),
                Err(e) => res matches Err(message) && message@ == e.message()
                    && final(self).program() == old(self).program() + seq![
                    comment_node("Push "@ + segment@ + " "@ + decimal(index as nat)),
                ],
            },
    {
        let mut title = String::from_str("Push ");
        title.append(segment);
        title.append(" ");
        push_decimal(&mut title, index);
        self.comment(title.as_str());
        let ghost start = self.program();
        assert(start =~= old(self).program() + seq![
            comment_node("Push "@ + segment@ + " "@ + decimal(index as nat)),
        ]);
        if str_eq(segment, "constant") {
            self.emit(AsmIr::LoadConstant(index));
            self.emit(AsmIr::Push);
        } else if str_eq(segment, "static") {
            let mut symbol = String::from_str(self.filename);
            symbol.append(".");
            push_decimal(&mut symbol, index);
            self.emit(AsmIr::LoadAddress(symbol));
            self.emit(AsmIr::Push);
        } else if str_eq(segment, "pointer") && index == 0 {
            self.emit(AsmIr::LoadAddress(String::from_str("THIS")));
            self.emit(AsmIr::Push);
        } else if str_eq(segment, "pointer") && index == 1 {
            self.emit(AsmIr::LoadAddress(String::from_str("THAT")));
            self.emit(AsmIr::Push);
        } else if str_eq(segment, "temp") {
            if index > 7 {
                let mut message = String::from_str("Invalid index for push temp, received ");
                push_decimal(&mut message, index);
                return Err(message);
            }
            let mut symbol = String::from_str("R");
            push_decimal(&mut symbol, 5 + index);
            self.emit(AsmIr::LoadAddress(symbol));
            self.emit(AsmIr::Push);
        } else {
            let reference = self.resolve_reference(segment)?;
            self.emit(AsmIr::LoadOffset(reference, index));
            self.emit(AsmIr::Push);
        }
        assert(self.program() =~= old(self).program() + (seq![
            comment_node("Push "@ + segment@ + " "@ + decimal(index as nat)),
        ] + lower_push(segment@, index, old(self).file())->Ok_0));
        Ok(())
    }

    fn pop(&mut self, segment: &str, index: u16) -> (res: Result<(), String>)
        ensures
            final(self).file() == old(self).file(),
            final(self).counter() == old(self).counter(),
            match lower_pop(segment@, index, old(self).file()) {
                Ok(nodes) => res is Ok && final(self).program() == old(self).program() + (seq![
                    comment_node("Pop "@ + segment@ + " "@ + decimal(index as nat)),
                ] + nodes),
                Err(e) => res matches Err(message) && message@ == e.message()
                    && final(self).program() == old(self).program() + seq![
                    comment_node("Pop "@ + segment@ + " "@ + decimal(index as nat)),
                ],
            },
    {
        let mut title = String::from_str("Pop ");
        title.append(segment);
        title.append(" ");
        push_decimal(&mut title, index);
        self.comment(title.as_str());
        let ghost start = self.program();
        assert(start =~= old(self).program() + seq![
            comment_node("Pop "@ + segment@ + " "@ + decimal(index as nat)),
        ]);
        if str_eq(segment, "static") {
            let mut symbol = String::from_str(self.filename);
            symbol.append(".");
            push_decimal(&mut symbol, index);
            self.emit(AsmIr::Pop);
            self.emit(AsmIr::WriteToAddress(symbol));
        } else if str_eq(segment, "pointer") && index == 0 {
            self.emit(AsmIr::Pop);
            self.emit(AsmIr::WriteToAddress(String::from_str("THIS")));
        } else if str_eq(segment, "pointer") && index == 1 {
            self.emit(AsmIr::Pop);
            self.emit(AsmIr::WriteToAddress(String::from_str("THAT")));
        } else if str_eq(segment, "temp") {
            if index > 7 {
                let mut message = String::from_str("Invalid index for pop temp, received ");
                push_decimal(&mut message, index);
                return Err(message);
            }
            let mut symbol = String::from_str("R");
            push_decimal(&mut symbol, 5 + index);
            self.emit(AsmIr::Pop);
            self.emit(AsmIr::WriteToAddress(symbol));
        } else {
            let reference = self.resolve_reference(segment)?;
            self.emit(AsmIr::StoreOffset(reference, index));
            self.emit(AsmIr::Pop);
            self.emit(AsmIr::DerefWrite(String::from_str("R13")));
        }
        assert(self.program() =~= old(self).program() + (seq![
            comment_node("Pop "@ + segment@ + " "@ + decimal(index as nat)),
        ] + lower_pop(segment@, index, old(self).file())->Ok_0));
        Ok(())
    }

    fn comment(&mut self, comment: &str)
        ensures
            final(self).program() == old(self).program().push(comment_node(comment@)),
            final(self).counter() == old(self).counter(),
            final(self).file() == old(self).file(),
    {
        let mut text = String::from_str("// ");
        text.append(comment);
        text.append("\n");
        self.emit(AsmIr::Comment(text));
    }

    fn resolve_reference(&self, segment: &str) -> (res: Result<String, String>)
        ensures
            match segment_base(segment@) {
                Some(base) => res matches Ok(symbol) && symbol@ == base,
                None => res matches Err(message) && message@ == LowerError::InvalidSegment.message(),
            },
    {
        if str_eq(segment, "local") {
            Ok(String::from_str("LCL"))
        } else if str_eq(segment, "argument") {
            Ok(String::from_str("ARG"))
        } else if str_eq(segment, "this") {
            Ok(String::from_str("THIS"))
        } else if str_eq(segment, "that") {
            Ok(String::from_str("THAT"))
        } else {
            Err(String::from_str("Invalid segment"))
        }
    }
}

} // verus!
