//! Text helpers shared by the assembler and the VM translator: comparison and
//! slicing of UTF-8 strings, and decimal and binary numerals.
use vstd::arithmetic::div_mod::{lemma_div_denominator, lemma_mod_breakdown};
use vstd::arithmetic::power2::{lemma2_to64, lemma_pow2_pos, lemma_pow2_unfold, pow2};
use vstd::prelude::*;
use vstd::string::*;
use vstd::utf8::*;

verus! {

/// The UTF-8 encoding of a text: the byte-level model that scanning works on.
pub open spec fn bytes_of(text: Seq<char>) -> Seq<u8> {
    encode_utf8(text)
}

pub const TAB: u8 = 9;

pub const NEWLINE: u8 = 10;

pub const CARRIAGE_RETURN: u8 = 13;

pub const SPACE: u8 = 32;

pub const SLASH: u8 = 47;

/// A blank within a line.
pub open spec fn is_blank(c: u8) -> bool {
    c == SPACE || c == TAB || c == CARRIAGE_RETURN
}

/// Whether a comment, two slashes, starts at offset `i`.
pub open spec fn comment_at(bytes: Seq<u8>, i: int) -> bool {
    0 <= i && i + 1 < bytes.len() && bytes[i] == SLASH && bytes[i + 1] == SLASH
}

/// The offset at which the line that holds offset `i` ends: that of its
/// newline, or the end of the text.
pub open spec fn line_end(bytes: Seq<u8>, i: int) -> int
    decreases bytes.len() - i,
{
    if i < 0 || i >= bytes.len() || bytes[i] == NEWLINE {
        i
    } else {
        line_end(bytes, i + 1)
    }
}

/// Whether `start..end` can be cut out of a text: the offsets are in range
/// and in order, and neither splits a character.
pub open spec fn sliceable(bytes: Seq<u8>, start: int, end: int) -> bool {
    &&& 0 <= start <= end <= bytes.len()
    &&& is_char_boundary(bytes, start)
    &&& is_char_boundary(bytes, end)
}

/// Whether offset `i` is the end of the text or holds an ASCII byte.
pub open spec fn ascii_or_end(bytes: Seq<u8>, i: int) -> bool {
    0 <= i <= bytes.len() && (i < bytes.len() ==> bytes[i] < 0x80)
}

pub proof fn lemma_line_end(bytes: Seq<u8>, i: int)
    requires
        0 <= i <= bytes.len(),
    ensures
        i <= line_end(bytes, i) <= bytes.len(),
        line_end(bytes, i) < bytes.len() ==> bytes[line_end(bytes, i)] == NEWLINE,
        forall|k: int| i <= k < line_end(bytes, i) ==> bytes[k] != NEWLINE,
    decreases bytes.len() - i,
{
    if i < bytes.len() && bytes[i] != NEWLINE {
        lemma_line_end(bytes, i + 1);
    }
}

/// In well-formed UTF-8, no character is split at an ASCII byte, before it
/// or behind it, nor at the end of the text.
pub proof fn lemma_ascii_boundary(bytes: Seq<u8>, i: int)
    requires
        valid_utf8(bytes),
        ascii_or_end(bytes, i),
    ensures
        is_char_boundary(bytes, i),
        i < bytes.len() ==> is_char_boundary(bytes, i + 1),
{
    broadcast use group_utf8_lib;

    if i < bytes.len() {
        is_char_boundary_iff_not_is_continuation_byte(bytes, i);
        valid_utf8_split(bytes, i);
        let rest = bytes.subrange(i, bytes.len() as int);
        assert(rest[0] == bytes[i]);
        assert(valid_first_scalar(rest));
        assert(length_of_first_scalar(rest) == 1);
        let tail = pop_first_scalar(rest);
        assert(valid_utf8(tail));
        assert(tail =~= bytes.subrange(i + 1, bytes.len() as int));
        if i + 1 < bytes.len() {
            assert(tail[0] == bytes[i + 1]);
            assert(valid_first_scalar(tail));
            is_char_boundary_iff_not_is_continuation_byte(bytes, i + 1);
        } else {
            is_char_boundary_start_end_of_seq(bytes);
        }
    } else {
        is_char_boundary_start_end_of_seq(bytes);
    }
}

pub const PLUS: u8 = 43;

pub const DIGIT_ZERO: u8 = 48;

pub const DIGIT_NINE: u8 = 57;

/// Why a text is not the numeral of a `u16`.
#[derive(Debug, Clone, Copy, PartialEq, Eq, Structural)]
pub enum NumberError {
    /// The text is empty.
    Empty,
    /// A character is not a digit, or a sign stands alone.
    InvalidDigit,
    /// The number is above `u16::MAX`.
    PosOverflow,
}

impl NumberError {
    /// The message that reports the error.
    pub open spec fn message(self) -> Seq<char> {
        match self {
            NumberError::Empty => "cannot parse integer from empty string"@,
            NumberError::InvalidDigit => "invalid digit found in string"@,
            NumberError::PosOverflow => "number too large to fit in target type"@,
        }
    }

    pub fn describe(&self) -> (r: &'static str)
        ensures
            r@ == self.message(),
    {
        match self {
            NumberError::Empty => "cannot parse integer from empty string",
            NumberError::InvalidDigit => "invalid digit found in string",
            NumberError::PosOverflow => "number too large to fit in target type",
        }
    }
}

/// Whether a byte is an ASCII decimal digit.
pub open spec fn is_digit(c: u8) -> bool {
    DIGIT_ZERO <= c <= DIGIT_NINE
}

/// The number that `acc` becomes when the digits of `s` are written behind
/// it. The first character that is not a digit, or that takes the number
/// above `u16::MAX`, decides the error.
pub open spec fn parse_digits(s: Seq<u8>, acc: nat) -> Result<u16, NumberError>
    decreases s.len(),
{
    if s.len() == 0 {
        Ok(acc as u16)
    } else if !is_digit(s[0]) {
        Err(NumberError::InvalidDigit)
    } else if acc * 10 + (s[0] - DIGIT_ZERO) > u16::MAX {
        Err(NumberError::PosOverflow)
    } else {
        parse_digits(s.drop_first(), (acc * 10 + (s[0] - DIGIT_ZERO)) as nat)
    }
}

/// The `u16` that a text is the decimal numeral of: digits, after at most
/// one plus sign.
pub open spec fn parse_number(s: Seq<u8>) -> Result<u16, NumberError> {
    if s.len() == 0 {
        Err(NumberError::Empty)
    } else if s[0] == PLUS {
        if s.len() == 1 {
            Err(NumberError::InvalidDigit)
        } else {
            parse_digits(s.drop_first(), 0)
        }
    } else {
        parse_digits(s, 0)
    }
}

/// Reads a text as the decimal numeral of a `u16`.
pub fn parse_u16(text: &str) -> (r: Result<u16, NumberError>)
    ensures
        r == parse_number(text.spec_bytes()),
{
    let bytes = text.as_bytes();
    let n: usize = bytes.len();
    if n == 0 {
        return Err(NumberError::Empty);
    }
    let mut i: usize = 0;
    if bytes[0] == PLUS {
        if n == 1 {
            return Err(NumberError::InvalidDigit);
        }
        i = 1;
    }
    let mut acc: u16 = 0;
    assert(bytes@.subrange(0, n as int) =~= bytes@);
    assert(bytes@.drop_first() =~= bytes@.subrange(1, n as int));
    while i < n
        invariant
            i <= n,
            n == bytes@.len(),
            bytes@ == text.spec_bytes(),
            parse_number(bytes@) == parse_digits(bytes@.subrange(i as int, n as int), acc as nat),
        decreases n - i,
    {
        let c: u8 = bytes[i];
        let ghost rest = bytes@.subrange(i as int, n as int);
        assert(rest[0] == c);
        assert(rest.drop_first() =~= bytes@.subrange(i as int + 1, n as int));
        if c < DIGIT_ZERO || c > DIGIT_NINE {
            return Err(NumberError::InvalidDigit);
        }
        let d: u16 = (c - DIGIT_ZERO) as u16;
        if acc > 6553 || (acc == 6553 && d > 5) {
            return Err(NumberError::PosOverflow);
        }
        acc = acc * 10 + d;
        i += 1;
    }
    assert(bytes@.subrange(n as int, n as int) =~= Seq::<u8>::empty());
    Ok(acc)
}

/// The bytes of a text of ASCII characters.
pub open spec fn ascii_bytes(text: Seq<char>) -> Seq<u8> {
    Seq::new(text.len(), |i: int| text[i] as u8)
}

/// Reading digits that are written one after the other is reading the
/// first ones and then, from the number they give, the others.
pub proof fn lemma_parse_digits_add(first: Seq<u8>, second: Seq<u8>, acc: nat)
    ensures
        parse_digits(first + second, acc) == match parse_digits(first, acc) {
            Ok(v) => if first.len() == 0 {
                parse_digits(second, acc)
            } else {
                parse_digits(second, v as nat)
            },
            Err(e) => Err(e),
        },
    decreases first.len(),
{
    if first.len() == 0 {
        assert(first + second =~= second);
    } else {
        assert((first + second)[0] == first[0]);
        assert((first + second).drop_first() =~= first.drop_first() + second);
        if is_digit(first[0]) && acc * 10 + (first[0] - DIGIT_ZERO) <= u16::MAX {
            let next = (acc * 10 + (first[0] - DIGIT_ZERO)) as nat;
            lemma_parse_digits_add(first.drop_first(), second, next);
            if first.len() == 1 {
                assert(first.drop_first() =~= Seq::<u8>::empty());
            }
        }
    }
}

/// Reading is the inverse of writing: the decimal numeral of a `u16` is read
/// as that number.
pub proof fn lemma_decimal_round_trip(n: u16)
    ensures
        parse_number(ascii_bytes(decimal(n as nat))) == Ok::<u16, NumberError>(n),
        ascii_bytes(decimal(n as nat)).len() > 0,
        forall|k: int|
            0 <= k < ascii_bytes(decimal(n as nat)).len() ==> is_digit(
                #[trigger] ascii_bytes(decimal(n as nat))[k],
            ),
    decreases n,
{
    let digits = ascii_bytes(decimal(n as nat));
    let last = seq![(DIGIT_ZERO + n % 10) as u8];
    assert(digit_char((n % 10) as int) as u8 == DIGIT_ZERO + n % 10);
    reveal_with_fuel(parse_digits, 2);
    if n < 10 {
        assert(digits =~= last);
        assert(last.drop_first() =~= Seq::<u8>::empty());
    } else {
        let front = ascii_bytes(decimal((n / 10) as nat));
        lemma_decimal_round_trip((n / 10) as u16);
        assert(digits =~= front + last);
        lemma_parse_digits_add(front, last, 0);
        assert(last.drop_first() =~= Seq::<u8>::empty());
        assert(front[0] != PLUS);
        assert(digits[0] == front[0]);
        assert forall|k: int| 0 <= k < digits.len() implies is_digit(#[trigger] digits[k]) by {
            if k < front.len() {
                assert(digits[k] == front[k]);
            }
        }
    }
}

/// The text that `<str as core::fmt::Debug>::fmt` writes for a string: the
/// string between double quotes, with the characters that it escapes
/// written as their escapes. It depends on the string alone.
pub uninterp spec fn debug_text(text: Seq<char>) -> Seq<char>;

/// Formats a string with `<str as core::fmt::Debug>::fmt`, through
/// `format!("{:?}", ..)`. The body is not verified, and nothing is claimed of
/// how the string is quoted and escaped: the contract only gives the result
/// its name.
#[verifier::external_body]
pub(crate) fn debug_string(text: &str) -> (r: String)
    ensures
        r@ == debug_text(text@),
{
    format!("{:?}", text)
}

/// The character `0`..`9` for a digit value.
pub open spec fn digit_char(d: int) -> char {
    if d == 0 {
        '0'
    } else if d == 1 {
        '1'
    } else if d == 2 {
        '2'
    } else if d == 3 {
        '3'
    } else if d == 4 {
        '4'
    } else if d == 5 {
        '5'
    } else if d == 6 {
        '6'
    } else if d == 7 {
        '7'
    } else if d == 8 {
        '8'
    } else {
        '9'
    }
}

/// The decimal numeral of `n`, without sign or leading zeros.
pub open spec fn decimal(n: nat) -> Seq<char>
    decreases n,
{
    if n < 10 {
        seq![digit_char(n as int)]
    } else {
        decimal(n / 10).push(digit_char((n % 10) as int))
    }
}

/// The binary numeral of the low `width` bits of `v`, most significant bit first.
pub open spec fn binary(v: nat, width: nat) -> Seq<char>
    decreases width,
{
    if width == 0 {
        Seq::empty()
    } else {
        binary(v / 2, (width - 1) as nat).push(
            if v % 2 == 1 {
                '1'
            } else {
                '0'
            },
        )
    }
}

/// The digits of a binary numeral do not depend on the bits above its
/// width.
pub proof fn lemma_binary_mod(v: nat, width: nat)
    ensures
        binary(v, width) == binary(v % pow2(width), width),
    decreases width,
{
    lemma_pow2_pos(width);
    let u = v % pow2(width);
    if width > 0 {
        let low = (width - 1) as nat;
        lemma_pow2_unfold(width);
        lemma_pow2_pos(low);
        lemma_mod_breakdown(v as int, 2, pow2(low) as int);
        assert(u % 2 == v % 2);
        assert(u / 2 == (v / 2) % pow2(low));
        lemma_binary_mod(v / 2, low);
        assert(binary(v / 2, low) == binary(u / 2, low));
        assert(binary(u, width) == binary(u / 2, low).push(
            if u % 2 == 1 {
                '1'
            } else {
                '0'
            },
        ));
        assert(binary(v, width) == binary(v / 2, low).push(
            if v % 2 == 1 {
                '1'
            } else {
                '0'
            },
        ));
        assert(binary(v, width) == binary(u, width));
    }
}

/// A binary numeral is that of its high bits followed by that of its low
/// bits.
pub proof fn lemma_binary_split(v: nat, high: nat, low: nat)
    ensures
        binary(v, high + low) == binary(v / pow2(low), high) + binary(v, low),
    decreases low,
{
    if low == 0 {
        lemma2_to64();
        assert(binary(v / pow2(low), high) + binary(v, low) =~= binary(v, high));
    } else {
        let less = (low - 1) as nat;
        lemma_pow2_unfold(low);
        lemma_pow2_pos(less);
        lemma_div_denominator(v as int, 2, pow2(less) as int);
        lemma_binary_split(v / 2, high, less);
        let bit = if v % 2 == 1 {
            '1'
        } else {
            '0'
        };
        assert(binary(v, high + low) == binary(v / 2, (high + low - 1) as nat).push(bit));
        assert((binary((v / 2) / pow2(less), high) + binary(v / 2, less)).push(bit) =~= binary(
            v / pow2(low),
            high,
        ) + binary(v, low));
    }
}

pub proof fn lemma_binary_len(v: nat, width: nat)
    ensures
        binary(v, width).len() == width,
    decreases width,
{
    if width > 0 {
        lemma_binary_len(v / 2, (width - 1) as nat);
    }
}

/// Two texts are equal exactly when their UTF-8 encodings are.
pub proof fn lemma_bytes_of_injective(a: Seq<char>, b: Seq<char>)
    ensures
        (bytes_of(a) == bytes_of(b)) == (a == b),
{
    encode_utf8_decode_utf8(a);
    encode_utf8_decode_utf8(b);
}

/// Whether two strings hold the same text.
pub fn str_eq(a: &str, b: &str) -> (r: bool)
    ensures
        r == (a@ == b@),
{
    let x = a.as_bytes();
    let y = b.as_bytes();
    proof {
        lemma_bytes_of_injective(a@, b@);
    }
    if x.len() != y.len() {
        return false;
    }
    let mut i: usize = 0;
    while i < x.len()
        invariant
            i <= x.len(),
            x.len() == y.len(),
            x@ == bytes_of(a@),
            y@ == bytes_of(b@),
            (bytes_of(a@) == bytes_of(b@)) == (a@ == b@),
            forall|k: int| 0 <= k < i ==> x@[k] == y@[k],
        decreases x.len() - i,
    {
        if x[i] != y[i] {
            return false;
        }
        i += 1;
    }
    assert(x@ =~= y@);
    true
}

/// The part of `s` between two byte offsets that fall on character boundaries.
pub fn str_slice<'a>(s: &'a str, start: usize, end: usize) -> (r: &'a str)
    requires
        start <= end <= s.spec_bytes().len(),
        is_char_boundary(s.spec_bytes(), start as int),
        is_char_boundary(s.spec_bytes(), end as int),
    ensures
        r.spec_bytes() == s.spec_bytes().subrange(start as int, end as int),
{
    broadcast use group_utf8_lib;

    let (head, _) = s.split_at(end);
    proof {
        if start < end {
            is_char_boundary_iff_not_is_continuation_byte(s.spec_bytes(), start as int);
            is_char_boundary_iff_not_is_continuation_byte(head.spec_bytes(), start as int);
        }
    }
    let (_, mid) = head.split_at(start);
    mid
}

fn digit_str(d: u16) -> (r: &'static str)
    requires
        d < 10,
    ensures
        r@ == seq![digit_char(d as int)],
{
    proof {
        reveal_strlit("0");
        reveal_strlit("1");
        reveal_strlit("2");
        reveal_strlit("3");
        reveal_strlit("4");
        reveal_strlit("5");
        reveal_strlit("6");
        reveal_strlit("7");
        reveal_strlit("8");
        reveal_strlit("9");
    }
    let r = if d == 0 {
        "0"
    } else if d == 1 {
        "1"
    } else if d == 2 {
        "2"
    } else if d == 3 {
        "3"
    } else if d == 4 {
        "4"
    } else if d == 5 {
        "5"
    } else if d == 6 {
        "6"
    } else if d == 7 {
        "7"
    } else if d == 8 {
        "8"
    } else {
        "9"
    };
    assert(r@ =~= seq![digit_char(d as int)]);
    r
}

/// Appends the decimal numeral of `n` to `out`.
pub fn push_decimal(out: &mut String, n: u16)
    ensures
        final(out)@ == old(out)@ + decimal(n as nat),
    decreases n,
{
    if n >= 10 {
        push_decimal(out, n / 10);
    }
    out.append(digit_str(n % 10));
    assert(out@ =~= old(out)@ + decimal(n as nat));
}

/// Appends the decimal numeral of `n` to `out`.
pub fn push_decimal_usize(out: &mut String, n: usize)
    ensures
        final(out)@ == old(out)@ + decimal(n as nat),
    decreases n,
{
    if n >= 10 {
        push_decimal_usize(out, n / 10);
    }
    out.append(digit_str((n % 10) as u16));
    assert(out@ =~= old(out)@ + decimal(n as nat));
}

/// Appends the low `width` bits of `v` to `out`, most significant bit first.
pub fn push_binary(out: &mut String, v: u16, width: u8)
    ensures
        final(out)@ == old(out)@ + binary(v as nat, width as nat),
    decreases width,
{
    if width > 0 {
        push_binary(out, v / 2, width - 1);
        out.append(digit_str(v % 2));
    }
    assert(out@ =~= old(out)@ + binary(v as nat, width as nat));
}

} // verus!
