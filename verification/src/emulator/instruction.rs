//! The fields of a 16-bit machine word.
use vstd::prelude::*;

verus! {

pub const ADDRESS_MASK: u16 = 0b1000000000000000;

pub const A_BIT: u16 = 0b0001000000000000;

pub const COMP_MASK: u16 = 0b0000111111000000;

pub const DEST_MASK: u16 = 0b0000000000111000;

pub const JUMP_MASK: u16 = 0b0000000000000111;

/// Whether the word is an A-instruction: its top bit is 0.
pub open spec fn is_address_word(word: u16) -> bool {
    word < 0x8000
}

/// Bit 12 of the word: whether the ALU reads the memory cell rather than
/// the address register.
pub open spec fn a_bit_of(word: u16) -> bool {
    word / 0x1000 % 2 == 1
}

/// Bits 6 to 11 of the word, the ALU control, as a number below 64.
pub open spec fn comp_bits_of(word: u16) -> u16 {
    (word / 64 % 64) as u16
}

/// Bit 5 of the word: whether the result goes to the address register.
pub open spec fn dest_addr_of(word: u16) -> bool {
    word / 32 % 2 == 1
}

/// Bit 4 of the word: whether the result goes to the data register.
pub open spec fn dest_data_of(word: u16) -> bool {
    word / 16 % 2 == 1
}

/// Bit 3 of the word: whether the result goes to the memory cell.
pub open spec fn dest_mem_of(word: u16) -> bool {
    word / 8 % 2 == 1
}

/// The jump that bits 0 to 2 of the word stand for.
pub open spec fn jump_of(word: u16) -> Jump {
    let bits = word % 8;
    if bits == 1 {
        Jump::Jgt
    } else if bits == 2 {
        Jump::Jeq
    } else if bits == 3 {
        Jump::Jge
    } else if bits == 4 {
        Jump::Jlt
    } else if bits == 5 {
        Jump::Jne
    } else if bits == 6 {
        Jump::Jle
    } else if bits == 7 {
        Jump::Jmp
    } else {
        Jump::NoJump
    }
}

/// A machine word, read as an instruction.
pub struct Instruction(pub u16);

impl Instruction {
    pub fn new(instruction: u16) -> (r: Self)
        ensures
            r.0 == instruction,
    {
        Self(instruction)
    }

    pub fn a_bit_is_set(&self) -> (r: bool)
        ensures
            r == a_bit_of(self.0),
    {
        let w: u16 = self.0;
        assert((w & 0b0001000000000000 != 0) == (w / 0x1000 % 2 == 1)) by (bit_vector);
        w & A_BIT != 0
    }

    pub fn is_computation(&self) -> (r: bool)
        ensures
            r == !is_address_word(self.0),
    {
        let w: u16 = self.0;
        assert((w & 0b1000000000000000 != 0) == (w >= 0x8000)) by (bit_vector);
        w & ADDRESS_MASK != 0
    }

    pub fn is_address(&self) -> (r: bool)
        ensures
            r == is_address_word(self.0),
    {
        let w: u16 = self.0;
        assert((w & 0b1000000000000000 == 0) == (w < 0x8000)) by (bit_vector);
        w & ADDRESS_MASK == 0
    }

    pub fn inner(&self) -> (r: u16)
        ensures
            r == self.0,
    {
        self.0
    }

    pub fn comp_bits(&self) -> (r: u16)
        ensures
            r == comp_bits_of(self.0),
    {
        let w: u16 = self.0;
        assert((w & 0b0000111111000000) >> 6 == w / 64 % 64) by (bit_vector);
        (w & COMP_MASK) >> 6
    }

    pub fn jump(&self) -> (r: Jump)
        ensures
            r == jump_of(self.0),
    {
        Jump::new(self.0)
    }

    pub fn dest_is_none(&self) -> (r: bool)
        ensures
            r == (!dest_addr_of(self.0) && !dest_data_of(self.0) && !dest_mem_of(self.0)),
    {
        let w: u16 = self.0;
        assert((w & 0b0000000000111000 == 0) == (!(w / 32 % 2 == 1) && !(w / 16 % 2 == 1) && !(w
            / 8 % 2 == 1))) by (bit_vector);
        w & DEST_MASK == 0
    }

    pub fn dest_addr(&self) -> (r: bool)
        ensures
            r == dest_addr_of(self.0),
    {
        let w: u16 = self.0;
        assert((w & 0b100000 != 0) == (w / 32 % 2 == 1)) by (bit_vector);
        w & 0b100000 != 0
    }

    pub fn dest_data(&self) -> (r: bool)
        ensures
            r == dest_data_of(self.0),
    {
        let w: u16 = self.0;
        assert((w & 0b010000 != 0) == (w / 16 % 2 == 1)) by (bit_vector);
        w & 0b010000 != 0
    }

    pub fn dest_mem(&self) -> (r: bool)
        ensures
            r == dest_mem_of(self.0),
    {
        let w: u16 = self.0;
        assert((w & 0b001000 != 0) == (w / 8 % 2 == 1)) by (bit_vector);
        w & 0b001000 != 0
    }
}

/// The condition on which a C-instruction jumps.
#[derive(Debug, Clone, Copy, PartialEq, Eq, Structural)]
pub enum Jump {
    Jgt,
    Jeq,
    Jge,
    Jlt,
    Jne,
    Jle,
    Jmp,
    /// No jump: the next instruction follows.
    NoJump,
}

impl Jump {
    /// Whether the jump is taken on the ALU output `input`.
    pub open spec fn holds(self, input: i16) -> bool {
        match self {
            Jump::Jgt => input > 0,
            Jump::Jeq => input == 0,
            Jump::Jge => input >= 0,
            Jump::Jlt => input < 0,
            Jump::Jne => input != 0,
            Jump::Jle => input <= 0,
            Jump::Jmp => true,
            Jump::NoJump => false,
        }
    }

    /// The name of the jump.
    pub open spec fn text(self) -> Seq<char> {
        match self {
            Jump::Jgt => "JGT"@,
            Jump::Jeq => "JEQ"@,
            Jump::Jge => "JGE"@,
            Jump::Jlt => "JLT"@,
            Jump::Jne => "JNE"@,
            Jump::Jle => "JLE"@,
            Jump::Jmp => "JMP"@,
            Jump::NoJump => "NONE"@,
        }
    }

    /// The jump that the low three bits of a word stand for.
    pub fn new(instruction: u16) -> (r: Self)
        ensures
            r == jump_of(instruction),
    {
        assert(instruction & 0b0000000000000111 == instruction % 8) by (bit_vector);
        let bits: u16 = instruction & JUMP_MASK;
        if bits == 0b001 {
            Jump::Jgt
        } else if bits == 0b010 {
            Jump::Jeq
        } else if bits == 0b011 {
            Jump::Jge
        } else if bits == 0b100 {
            Jump::Jlt
        } else if bits == 0b101 {
            Jump::Jne
        } else if bits == 0b110 {
            Jump::Jle
        } else if bits == 0b111 {
            Jump::Jmp
        } else {
            Jump::NoJump
        }
    }

    pub fn is_none(&self) -> (r: bool)
        ensures
            r == (*self == Jump::NoJump),
    {
        *self == Jump::NoJump
    }

    pub fn as_str(&self) -> (r: &'static str)
        ensures
            r@ == self.text(),
    {
        match self {
            Jump::Jgt => "JGT",
            Jump::Jeq => "JEQ",
            Jump::Jge => "JGE",
            Jump::Jlt => "JLT",
            Jump::Jne => "JNE",
            Jump::Jle => "JLE",
            Jump::Jmp => "JMP",
            Jump::NoJump => "NONE",
        }
    }

    /// Whether the jump is taken on the ALU output `input`.
    pub fn cmp(&self, input: i16) -> (r: bool)
        ensures
            r == self.holds(input),
    {
        match self {
            Jump::Jgt => input > 0,
            Jump::Jeq => input == 0,
            Jump::Jge => input >= 0,
            Jump::Jlt => input < 0,
            Jump::Jne => input != 0,
            Jump::Jle => input <= 0,
            Jump::Jmp => true,
            Jump::NoJump => false,
        }
    }
}

} // verus!
