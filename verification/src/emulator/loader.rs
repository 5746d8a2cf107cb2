//! The reader of program files: one machine word to a line, written as 16
//! binary digits.
use crate::text::{ascii_bytes, binary, NEWLINE};
use vstd::arithmetic::div_mod::lemma_mod_breakdown;
use vstd::arithmetic::power2::{
    lemma2_to64, lemma_pow2_pos, lemma_pow2_strictly_increases, lemma_pow2_unfold, pow2,
};
use vstd::prelude::*;
use vstd::string::*;

verus! {

pub const BIT_ZERO: u8 = 48;

pub const BIT_ONE: u8 = 49;

/// The number of bytes of a line: 16 digits and a newline.
pub const LINE_LENGTH: usize = 17;

/// Whether a byte is a binary digit.
pub open spec fn is_bit(c: u8) -> bool {
    c == BIT_ZERO || c == BIT_ONE
}

/// The number that binary digits stand for, the first being the highest.
pub open spec fn number_of(digits: Seq<u8>) -> nat
    decreases digits.len(),
{
    if digits.len() == 0 {
        0
    } else {
        2 * number_of(digits.drop_last()) + if digits.last() == BIT_ONE {
            1nat
        } else {
            0nat
        }
    }
}

/// Whether the bytes from offset `17 * l` on are line `l` of a program
/// file: 16 binary digits and a newline.
pub open spec fn is_line(bytes: Seq<u8>, l: int) -> bool {
    &&& 0 <= l
    &&& 17 * l + LINE_LENGTH <= bytes.len()
    &&& forall|k: int| 0 <= k < 16 ==> is_bit(#[trigger] bytes[17 * l + k])
    &&& bytes[17 * l + 16] == NEWLINE
}

/// The word on line `l`.
pub open spec fn word_at(bytes: Seq<u8>, l: int) -> u16 {
    number_of(bytes.subrange(17 * l, 17 * l + 16)) as u16
}

/// Whether a text is a program file: lines, each ended by its newline, and
/// nothing else.
pub open spec fn is_program(bytes: Seq<u8>) -> bool {
    &&& bytes.len() % (LINE_LENGTH as nat) == 0
    &&& forall|l: int| 0 <= l < bytes.len() / (LINE_LENGTH as nat) ==> is_line(bytes, l)
}

/// The words of a program file, in order.
pub open spec fn words_of(bytes: Seq<u8>) -> Seq<u16> {
    Seq::new(bytes.len() / (LINE_LENGTH as nat), |l: int| word_at(bytes, l))
}

/// Binary digits stand for a number below 2 to the power of their count:
/// 16 of them for a number below 65536.
pub proof fn lemma_number_bound(digits: Seq<u8>)
    ensures
        number_of(digits) < pow2(digits.len()),
    decreases digits.len(),
{
    lemma2_to64();
    if digits.len() > 0 {
        lemma_pow2_unfold(digits.len());
        lemma_number_bound(digits.drop_last());
    }
}

/// Reads a program file. Returns its words, or `None` where the text is
/// no program file.
pub fn read_prog_as_u16(prog: &str) -> (r: Option<Vec<u16>>)
    ensures
        is_program(prog.spec_bytes()) ==> (r matches Some(words) && words@ == words_of(
            prog.spec_bytes(),
        )),
        !is_program(prog.spec_bytes()) ==> r is None,
{
    let bytes = prog.as_bytes();
    let n: usize = bytes.len();
    if n % LINE_LENGTH != 0 {
        return None;
    }
    let lines: usize = n / LINE_LENGTH;
    let mut words: Vec<u16> = Vec::new();
    let mut l: usize = 0;
    while l < lines
        invariant
            l <= lines,
            n == bytes@.len(),
            n == 17 * lines,
            bytes@ == prog.spec_bytes(),
            words@.len() == l,
            forall|j: int| 0 <= j < l ==> is_line(bytes@, j),
            forall|j: int| 0 <= j < l ==> words@[j] == word_at(bytes@, j),
        decreases lines - l,
    {
        let start: usize = l * LINE_LENGTH;
        let mut value: u16 = 0;
        let mut k: usize = 0;
        while k < 16
            invariant
                k <= 16,
                l < lines,
                start == 17 * l,
                n == 17 * lines,
                n == bytes@.len(),
                bytes@ == prog.spec_bytes(),
                forall|j: int| 0 <= j < k ==> is_bit(#[trigger] bytes@[start + j]),
                value == number_of(bytes@.subrange(start as int, start + k)),
            decreases 16 - k,
        {
            let c: u8 = bytes[start + k];
            if c != BIT_ZERO && c != BIT_ONE {
                proof {
                    assert(!is_bit(bytes@[17 * l + k]));
                    assert(!is_line(bytes@, l as int));
                }
                return None;
            }
            proof {
                let now = bytes@.subrange(start as int, start + k + 1);
                assert(now.drop_last() =~= bytes@.subrange(start as int, start + k));
                assert(now.last() == c);
                lemma2_to64();
                lemma_number_bound(now);
                assert(pow2((k + 1) as nat) <= 65536) by {
                    if k + 1 < 16 {
                        lemma_pow2_strictly_increases((k + 1) as nat, 16);
                    }
                }
            }
            value = value * 2 + (if c == BIT_ONE {
                1
            } else {
                0
            });
            k += 1;
        }
        if bytes[start + 16] != NEWLINE {
            proof {
                assert(!is_line(bytes@, l as int));
            }
            return None;
        }
        words.push(value);
        l += 1;
    }
    assert(words@ =~= words_of(bytes@));
    Some(words)
}

/// Reading is the inverse of writing: the digits of a binary numeral of a
/// given width are binary digits, and they stand for the number's low bits.
pub proof fn lemma_number_of_binary(v: nat, width: nat)
    ensures
        ascii_bytes(binary(v, width)).len() == width,
        forall|k: int| 0 <= k < width ==> is_bit(#[trigger] ascii_bytes(binary(v, width))[k]),
        number_of(ascii_bytes(binary(v, width))) == v % pow2(width),
    decreases width,
{
    crate::text::lemma_binary_len(v, width);
    if width == 0 {
        lemma2_to64();
    } else {
        let low = (width - 1) as nat;
        crate::text::lemma_binary_len(v / 2, low);
        lemma_number_of_binary(v / 2, low);
        lemma_pow2_unfold(width);
        lemma_pow2_pos(low);
        lemma_mod_breakdown(v as int, 2, pow2(low) as int);
        let digits = ascii_bytes(binary(v, width));
        assert(digits.drop_last() =~= ascii_bytes(binary(v / 2, low)));
        assert forall|k: int| 0 <= k < width implies is_bit(#[trigger] digits[k]) by {
            if k < width - 1 {
                assert(digits[k] == digits.drop_last()[k]);
            }
        }
    }
}

} // verus!
