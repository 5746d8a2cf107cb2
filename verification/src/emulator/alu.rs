//! The arithmetic logic unit: a combinational function of two 16-bit inputs
//! and six control bits.
use vstd::prelude::*;

verus! {

/// The bitwise complement of a 16-bit two's-complement number.
pub open spec fn complement(v: i16) -> i16 {
    (-v - 1) as i16
}

/// The sum of two 16-bit two's-complement numbers, wrapped into 16 bits.
pub open spec fn wrapping_sum(x: i16, y: i16) -> i16 {
    if x + y > i16::MAX {
        (x + y - 0x1_0000) as i16
    } else if x + y < i16::MIN {
        (x + y + 0x1_0000) as i16
    } else {
        (x + y) as i16
    }
}

/// The ALU, as its six control bits.
#[derive(Debug, PartialEq)]
pub struct Alu {
    /// Zero the x input.
    pub zx: bool,
    /// Complement the x input.
    pub nx: bool,
    /// Zero the y input.
    pub zy: bool,
    /// Complement the y input.
    pub ny: bool,
    /// Add the inputs rather than and them.
    pub f: bool,
    /// Complement the output.
    pub no: bool,
}

impl Alu {
    /// The control bits held in the low six bits of `bits`, `zx` the
    /// highest and `no` the lowest.
    pub open spec fn from_bits(bits: u16) -> Alu {
        Alu {
            zx: bits / 32 % 2 == 1,
            nx: bits / 16 % 2 == 1,
            zy: bits / 8 % 2 == 1,
            ny: bits / 4 % 2 == 1,
            f: bits / 2 % 2 == 1,
            no: bits % 2 == 1,
        }
    }

    /// What the ALU puts out for the inputs `x` and `y`.
    pub open spec fn output(&self, x: i16, y: i16) -> i16 {
        let x = if self.zx {
            0
        } else {
            x
        };
        let x = if self.nx {
            complement(x)
        } else {
            x
        };
        let y = if self.zy {
            0
        } else {
            y
        };
        let y = if self.ny {
            complement(y)
        } else {
            y
        };
        let out = if self.f {
            wrapping_sum(x, y)
        } else {
            x & y
        };
        if self.no {
            complement(out)
        } else {
            out
        }
    }

    pub fn new(zx: bool, nx: bool, zy: bool, ny: bool, f: bool, no: bool) -> (r: Self)
        ensures
            r == (Alu { zx, nx, zy, ny, f, no }),
    {
        Self { zx, nx, zy, ny, f, no }
    }

    /// Loads the control bits from the low six bits of `bits`.
    pub fn load_bits(&mut self, bits: u16) -> (r: &mut Self)
        ensures
            *r == Alu::from_bits(bits),
            *final(self) == *final(r),
    {
        assert((bits & 0b100000 != 0) == (bits / 32 % 2 == 1)) by (bit_vector);
        assert((bits & 0b010000 != 0) == (bits / 16 % 2 == 1)) by (bit_vector);
        assert((bits & 0b001000 != 0) == (bits / 8 % 2 == 1)) by (bit_vector);
        assert((bits & 0b000100 != 0) == (bits / 4 % 2 == 1)) by (bit_vector);
        assert((bits & 0b000010 != 0) == (bits / 2 % 2 == 1)) by (bit_vector);
        assert((bits & 0b000001 != 0) == (bits % 2 == 1)) by (bit_vector);
        self.zx = bits & 0b100000 != 0;
        self.nx = bits & 0b010000 != 0;
        self.zy = bits & 0b001000 != 0;
        self.ny = bits & 0b000100 != 0;
        self.f = bits & 0b000010 != 0;
        self.no = bits & 0b000001 != 0;
        self
    }

    /// Computes the output for the inputs `x` and `y`. The result depends on
    /// the control bits and the inputs alone.
    pub fn execute(&self, x: i16, y: i16) -> (r: i16)
        ensures
            r == self.output(x, y),
    {
        let x: i16 = if self.zx {
            0
        } else {
            x
        };
        let x: i16 = if self.nx {
            Self::invert(x)
        } else {
            x
        };
        let y: i16 = if self.zy {
            0
        } else {
            y
        };
        let y: i16 = if self.ny {
            Self::invert(y)
        } else {
            y
        };
        let result: i16 = if self.f {
            x.wrapping_add(y)
        } else {
            x & y
        };
        if self.no {
            Self::invert(result)
        } else {
            result
        }
    }

    fn invert(v: i16) -> (r: i16)
        ensures
            r == complement(v),
    {
        assert(!v == (-v - 1) as i16) by (bit_vector);
        !v
    }
}

impl Default for Alu {
    fn default() -> (r: Self)
        ensures
            r == Alu::from_bits(0),
    {
        Self::new(false, false, false, false, false, false)
    }
}

/// The ALU is a function: two ALUs with the same control bits put out the
/// same for the same inputs.
pub proof fn lemma_output_is_a_function(first: Alu, second: Alu, x: i16, y: i16)
    requires
        first == second,
    ensures
        first.output(x, y) == second.output(x, y),
{
}

/// With both inputs zeroed and the inputs and-ed, the output is 0 whatever
/// the inputs are.
pub proof fn lemma_zero_control(x: i16, y: i16)
    ensures
        (Alu { zx: true, nx: false, zy: true, ny: false, f: false, no: false }).output(x, y) == 0,
{
    assert(0i16 & 0i16 == 0i16) by (bit_vector);
}

/// With no input changed and the inputs added, the output is their sum
/// wrapped into 16 bits: it is the sum where that fits, and the largest
/// number plus one is the smallest.
pub proof fn lemma_add_control(x: i16, y: i16)
    ensures
        (Alu { zx: false, nx: false, zy: false, ny: false, f: true, no: false }).output(x, y)
            == wrapping_sum(x, y),
        i16::MIN <= x + y <= i16::MAX ==> wrapping_sum(x, y) == x + y,
        wrapping_sum(i16::MAX, 1) == i16::MIN,
{
}

/// The ALU computes the functions of the instruction set. With the data
/// register as `x` and `y` for A or M, the control bits of each of the 18
/// computations give what its mnemonic says, sums and differences wrapped
/// into 16 bits.
pub proof fn lemma_canonical_functions(x: i16, y: i16)
    ensures
        Alu::from_bits(0b101010).output(x, y) == 0,
        Alu::from_bits(0b111111).output(x, y) == 1,
        Alu::from_bits(0b111010).output(x, y) == -1,
        Alu::from_bits(0b001100).output(x, y) == x,
        Alu::from_bits(0b110000).output(x, y) == y,
        Alu::from_bits(0b001101).output(x, y) == complement(x),
        Alu::from_bits(0b110001).output(x, y) == complement(y),
        Alu::from_bits(0b001111).output(x, y) == wrapping_sum(complement(x), 1),
        Alu::from_bits(0b110011).output(x, y) == wrapping_sum(complement(y), 1),
        Alu::from_bits(0b011111).output(x, y) == wrapping_sum(x, 1),
        Alu::from_bits(0b110111).output(x, y) == wrapping_sum(y, 1),
        Alu::from_bits(0b001110).output(x, y) == wrapping_sum(x, -1i16),
        Alu::from_bits(0b110010).output(x, y) == wrapping_sum(y, -1i16),
        Alu::from_bits(0b000010).output(x, y) == wrapping_sum(x, y),
        Alu::from_bits(0b010011).output(x, y) == wrapping_sum(x, wrapping_sum(complement(y), 1)),
        Alu::from_bits(0b000111).output(x, y) == wrapping_sum(y, wrapping_sum(complement(x), 1)),
        Alu::from_bits(0b000000).output(x, y) == x & y,
        Alu::from_bits(0b010101).output(x, y) == x | y,
{
    assert(0i16 & 0i16 == 0i16) by (bit_vector);
    assert((-1i16) & (-1i16) == -1i16) by (bit_vector);
    assert(x & (-1i16) == x) by (bit_vector);
    assert((-1i16) & y == y) by (bit_vector);
    assert((-(((-x - 1) as i16) & ((-y - 1) as i16)) - 1) as i16 == x | y) by (bit_vector);
}

} // verus!
