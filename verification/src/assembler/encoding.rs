//! The assembler against the emulator: what the assembler writes, the
//! loader of the emulator reads, and what it writes for an assignment, the
//! decoder of the emulator reads back.
use crate::assembler::code::{
    a_line, assembled, c_bits, c_line, comp_table, dest_table, first_pass, instructions_from,
    lemma_line_lengths, lookup, second_pass, Entries, Symbols,
};
use crate::assembler::parser::{
    instruction_at, lemma_instruction_at, AddressModel, InstructionModel,
};
use crate::emulator::instruction::{
    a_bit_of, comp_bits_of, dest_addr_of, dest_data_of, dest_mem_of, is_address_word, jump_of,
    Jump,
};
use crate::emulator::loader::{
    is_bit, is_line, is_program, lemma_number_of_binary, number_of, word_at, words_of,
};
use crate::text::{
    ascii_bytes, binary, bytes_of, lemma_binary_len, lemma_binary_mod, lemma_binary_split,
};
use vstd::arithmetic::power2::{lemma2_to64, pow2};
use vstd::prelude::*;
use vstd::utf8::{is_ascii_chars, is_ascii_chars_encode_utf8};

verus! {

/// The name that a table holds for a code, if any.
pub open spec fn name_of(table: Entries, code: u16) -> Option<Seq<char>>
    decreases table.len(),
{
    if table.len() == 0 {
        None
    } else if table.last().1 == code {
        Some(table.last().0)
    } else {
        name_of(table.drop_last(), code)
    }
}

/// The word of a C-instruction with the given low 13 bits.
pub open spec fn c_word(bits: u16) -> u16 {
    (0xE000 + bits % 0x2000) as u16
}

/// The a-bit and the control bits of a word, where they stand in the word.
pub open spec fn comp_field(word: u16) -> u16 {
    (word / 64 % 128 * 64) as u16
}

/// The destination bits of a word, where they stand in the word.
pub open spec fn dest_field(word: u16) -> u16 {
    (word / 8 % 8 * 8) as u16
}

/// The jump bits of a word.
pub open spec fn jump_field(word: u16) -> u16 {
    word % 8
}

/// A name that a table holds is that of one of its entries.
pub proof fn lemma_lookup_index(table: Entries, name: Seq<char>) -> (k: int)
    requires
        lookup(table, name) is Some,
    ensures
        0 <= k < table.len(),
        table[k].0 == name,
        table[k].1 == lookup(table, name)->0,
    decreases table.len(),
{
    if table.last().0 == name {
        table.len() - 1
    } else {
        lemma_lookup_index(table.drop_last(), name)
    }
}

/// Where no two entries of a table have one code, each code leads back to
/// its name.
pub proof fn lemma_name_of(table: Entries, k: int)
    requires
        0 <= k < table.len(),
        forall|i: int, j: int| 0 <= i < j < table.len() ==> table[i].1 != table[j].1,
    ensures
        name_of(table, table[k].1) == Some(table[k].0),
    decreases table.len(),
{
    if k < table.len() - 1 {
        lemma_name_of(table.drop_last(), k);
    }
}

/// No two computations have one code, and each code fills bits 6 to 12.
pub proof fn lemma_comp_codes()
    ensures
        comp_table().len() == 28,
        forall|i: int, j: int| 0 <= i < j < 28 ==> comp_table()[i].1 != comp_table()[j].1,
        forall|i: int| 0 <= i < 28 ==> comp_table()[i].1 % 64 == 0 && comp_table()[i].1 < 0x2000,
{
}

/// No two destinations have one code, and each code fills bits 3 to 5.
pub proof fn lemma_dest_codes()
    ensures
        dest_table().len() == 7,
        forall|i: int, j: int| 0 <= i < j < 7 ==> dest_table()[i].1 != dest_table()[j].1,
        forall|i: int| 0 <= i < 7 ==> dest_table()[i].1 % 8 == 0 && 0 < dest_table()[i].1 < 64,
{
}

/// Bit fields that do not overlap are or-ed by adding them.
pub proof fn lemma_fields_add(c: u16, d: u16, j: u16)
    requires
        c % 64 == 0,
        c < 0x2000,
        d % 8 == 0,
        d < 64,
        j < 8,
    ensures
        c | d | j == c + d + j,
{
    assert(c % 64 == 0 && c < 0x2000 && d % 8 == 0 && d < 64 && j < 8 ==> c | d | j == c + d + j)
        by (bit_vector);
}

/// The fields of the word that holds a computation's code and a
/// destination's code.
pub proof fn lemma_fields_of_word(c: u16, d: u16)
    requires
        c % 64 == 0,
        c < 0x2000,
        d % 8 == 0,
        d < 64,
    ensures
        ({
            let word = c_word((c + d) as u16);
            &&& word == 0xE000 + c + d
            &&& !is_address_word(word)
            &&& comp_field(word) == c
            &&& dest_field(word) == d
            &&& jump_field(word) == 0
            &&& jump_of(word) == Jump::NoJump
            &&& comp_field(word) == comp_bits_of(word) * 64 + if a_bit_of(word) {
                0x1000int
            } else {
                0int
            }
            &&& dest_field(word) == (if dest_addr_of(word) {
                32int
            } else {
                0int
            }) + (if dest_data_of(word) {
                16int
            } else {
                0int
            }) + (if dest_mem_of(word) {
                8int
            } else {
                0int
            })
        }),
{
    let a = c as int / 64;
    let b = d as int / 8;
    assert(c == 64 * a && 0 <= a < 128);
    assert(d == 8 * b && 0 <= b < 8);
    let word = 0xE000 + 64 * a + 8 * b;
    assert(word / 8 == 7168 + 8 * a + b);
    assert(word % 8 == 0);
    assert(word / 64 == 896 + a);
    assert((896 + a) % 128 == a);
    assert((7168 + 8 * a + b) % 8 == b);
    assert(word / 16 == 3584 + 4 * a + b / 2);
    assert(word / 32 == 1792 + 2 * a + b / 4);
    assert(word / 0x1000 == 14 + a / 64);
}

/// The round trip of an assignment. For `dest=comp`, with any of the 28
/// computations and any of the 7 destinations, the word that the assembler
/// writes is a C-instruction whose computation field leads back to `comp`,
/// whose destination field leads back to `dest`, and whose jump field is
/// empty. The decoder of the emulator reads these very fields: the a-bit and
/// the six control bits make up the computation's code, the three
/// destination bits the destination's code, and the jump never holds.
pub proof fn lemma_assignment_round_trip(dest: Seq<char>, comp: Seq<char>)
    requires
        lookup(comp_table(), comp) is Some,
        lookup(dest_table(), dest) is Some,
    ensures
        c_bits(Some(dest), comp, None) is Ok,
        ({
            let word = c_word(c_bits(Some(dest), comp, None)->Ok_0);
            &&& !is_address_word(word)
            &&& name_of(comp_table(), comp_field(word)) == Some(comp)
            &&& name_of(dest_table(), dest_field(word)) == Some(dest)
            &&& jump_field(word) == 0
            &&& jump_of(word) == Jump::NoJump
            &&& comp_field(word) == comp_bits_of(word) * 64 + if a_bit_of(word) {
                0x1000int
            } else {
                0int
            }
            &&& dest_field(word) == (if dest_addr_of(word) {
                32int
            } else {
                0int
            }) + (if dest_data_of(word) {
                16int
            } else {
                0int
            }) + (if dest_mem_of(word) {
                8int
            } else {
                0int
            })
        }),
{
    let c = lemma_lookup_index(comp_table(), comp);
    let d = lemma_lookup_index(dest_table(), dest);
    let cc = comp_table()[c].1;
    let dc = dest_table()[d].1;
    assert(name_of(comp_table(), cc) == Some(comp)) by {
        lemma_comp_codes();
        lemma_name_of(comp_table(), c);
    }
    assert(name_of(dest_table(), dc) == Some(dest)) by {
        lemma_dest_codes();
        lemma_name_of(dest_table(), d);
    }
    assert(cc % 64 == 0 && cc < 0x2000) by {
        lemma_comp_codes();
    }
    assert(dc % 8 == 0 && dc < 64) by {
        lemma_dest_codes();
    }
    lemma_fields_add(cc, dc, 0);
    lemma_fields_of_word(cc, dc);
}

/// The line of a C-instruction holds the 16 bits of its word: the line that
/// an A-instruction of that value would get. Read as a number, its digits
/// give the word.
pub proof fn lemma_c_line_is_word(bits: u16)
    ensures
        c_line(bits) == a_line(c_word(bits)),
        number_of(ascii_bytes(binary(c_word(bits) as nat, 16))) == c_word(bits),
{
    let word = c_word(bits) as nat;
    lemma2_to64();
    lemma_binary_split(word, 3, 13);
    assert(word / pow2(13) == 7);
    assert(binary(7, 3) =~= "111"@) by {
        reveal_strlit("111");
        reveal_with_fuel(binary, 4);
    }
    lemma_binary_mod(word, 13);
    lemma_binary_mod(bits as nat, 13);
    assert(word % pow2(13) == (bits as nat) % pow2(13));
    lemma_number_of_binary(word, 16);
}

/// The lines of a sequence of words, one after the other.
pub open spec fn lines_of(words: Seq<u16>) -> Seq<char>
    decreases words.len(),
{
    if words.len() == 0 {
        Seq::empty()
    } else {
        lines_of(words.drop_last()) + a_line(words.last())
    }
}

/// The second pass writes words: what it adds to the text are the lines of
/// a sequence of words, one for each instruction that it reads.
pub proof fn lemma_second_pass_writes_words(
    bytes: Seq<u8>,
    i: int,
    symbols: Symbols,
    out: Seq<char>,
) -> (words: Seq<u16>)
    requires
        0 <= i <= bytes.len(),
        second_pass(bytes, i, symbols, out) is Ok,
    ensures
        second_pass(bytes, i, symbols, out)->Ok_0.1 == out + lines_of(words),
        words.len() == instructions_from(bytes, i),
    decreases bytes.len() - i,
{
    lemma_instruction_at(bytes, i);
    match instruction_at(bytes, i) {
        (Ok(Some(InstructionModel::Label(_))), next) => {
            lemma_second_pass_writes_words(bytes, next, symbols, out)
        },
        (Ok(Some(InstructionModel::AInstruction(AddressModel::NumericConstant(n)))), next) => {
            let rest = lemma_second_pass_writes_words(bytes, next, symbols, out + a_line(n));
            lemma_lines_of_first(n, rest);
            assert(out + a_line(n) + lines_of(rest) =~= out + (a_line(n) + lines_of(rest)));
            seq![n] + rest
        },
        (Ok(Some(InstructionModel::AInstruction(AddressModel::Symbol(name)))), next) => {
            let n = symbols.address_of(name);
            let rest = lemma_second_pass_writes_words(
                bytes,
                next,
                symbols.referred(name),
                out + a_line(n),
            );
            lemma_lines_of_first(n, rest);
            assert(out + a_line(n) + lines_of(rest) =~= out + (a_line(n) + lines_of(rest)));
            seq![n] + rest
        },
        (Ok(Some(InstructionModel::CInstruction { dest, comp, jump })), next) => {
            let bits = c_bits(dest, comp, jump)->Ok_0;
            let n = c_word(bits);
            lemma_c_line_is_word(bits);
            let rest = lemma_second_pass_writes_words(bytes, next, symbols, out + c_line(bits));
            lemma_lines_of_first(n, rest);
            assert(out + a_line(n) + lines_of(rest) =~= out + (a_line(n) + lines_of(rest)));
            seq![n] + rest
        },
        _ => {
            assert(out + lines_of(Seq::<u16>::empty()) =~= out);
            Seq::empty()
        },
    }
}

/// The lines of a word followed by others are its line followed by theirs.
pub proof fn lemma_lines_of_first(first: u16, rest: Seq<u16>)
    ensures
        lines_of(seq![first] + rest) == a_line(first) + lines_of(rest),
    decreases rest.len(),
{
    let all = seq![first] + rest;
    if rest.len() == 0 {
        reveal_with_fuel(lines_of, 2);
        assert(all.drop_last() =~= Seq::<u16>::empty());
        assert(all.last() == first);
        assert(lines_of(all) =~= a_line(first) + lines_of(rest));
    } else {
        assert(all.drop_last() =~= seq![first] + rest.drop_last());
        assert(all.last() == rest.last());
        lemma_lines_of_first(first, rest.drop_last());
        assert(a_line(first) + lines_of(rest.drop_last()) + a_line(rest.last()) =~= a_line(first)
            + (lines_of(rest.drop_last()) + a_line(rest.last())));
    }
}

/// The characters of the lines of words: character `k` of line `l` is
/// character `k` of the line of word `l`.
pub proof fn lemma_lines_of_index(words: Seq<u16>, l: int, k: int)
    requires
        0 <= l < words.len(),
        0 <= k < 17,
    ensures
        lines_of(words).len() == 17 * words.len(),
        lines_of(words)[17 * l + k] == a_line(words[l])[k],
    decreases words.len(),
{
    lemma_lines_of_len(words);
    lemma_lines_of_len(words.drop_last());
    lemma_line_lengths(words.last());
    if l < words.len() - 1 {
        lemma_lines_of_index(words.drop_last(), l, k);
    }
}

/// The lines of words are 17 characters for each word.
pub proof fn lemma_lines_of_len(words: Seq<u16>)
    ensures
        lines_of(words).len() == 17 * words.len(),
    decreases words.len(),
{
    if words.len() > 0 {
        lemma_lines_of_len(words.drop_last());
        lemma_line_lengths(words.last());
    }
}

/// The lines of words make up a program file, and its words are these
/// words.
pub proof fn lemma_lines_are_a_program(words: Seq<u16>)
    ensures
        is_ascii_chars(lines_of(words)),
        bytes_of(lines_of(words)) == ascii_bytes(lines_of(words)),
        is_program(bytes_of(lines_of(words))),
        words_of(bytes_of(lines_of(words))) == words,
{
    let text = lines_of(words);
    let bytes = ascii_bytes(text);
    lemma_lines_of_len(words);
    reveal_strlit("\n");
    assert forall|l: int, k: int| 0 <= l < words.len() && 0 <= k < 17 implies #[trigger] text[17
        * l + k] == if k < 16 {
        binary(words[l] as nat, 16)[k]
    } else {
        '\n'
    } by {
        lemma_lines_of_index(words, l, k);
        lemma_binary_len(words[l] as nat, 16);
    }
    assert forall|l: int| 0 <= l < words.len() implies is_line(bytes, l) && word_at(bytes, l)
        == words[l] by {
        lemma_number_of_binary(words[l] as nat, 16);
        lemma_binary_len(words[l] as nat, 16);
        lemma2_to64();
        let digits = ascii_bytes(binary(words[l] as nat, 16));
        assert forall|k: int| 0 <= k < 16 implies bytes[17 * l + k] == digits[k] by {
            assert(text[17 * l + k] == binary(words[l] as nat, 16)[k]);
        }
        assert(text[17 * l + 16] == '\n');
        assert(bytes.subrange(17 * l, 17 * l + 16) =~= digits);
        assert forall|k: int| 0 <= k < 16 implies is_bit(#[trigger] bytes[17 * l + k]) by {
            assert(is_bit(digits[k]));
        }
    }
    assert(is_ascii_chars(text)) by {
        assert forall|i: int| 0 <= i < text.len() implies '\0' <= #[trigger] text[i]
            <= '\u{7f}' by {
            let l = i / 17;
            let k = i % 17;
            assert(text[17 * l + k] == if k < 16 {
                binary(words[l] as nat, 16)[k]
            } else {
                '\n'
            });
            assert(is_line(bytes, l));
            assert(bytes[17 * l + k] == text[i] as u8);
            if k < 16 {
                assert(is_bit(bytes[17 * l + k]));
                lemma_binary_chars(words[l] as nat, 16, k);
            }
        }
    }
    is_ascii_chars_encode_utf8(text);
    assert(bytes_of(text) =~= bytes);
    assert(bytes.len() == 17 * words.len());
    assert(words_of(bytes) =~= words);
}

/// The characters of a binary numeral are `0` and `1`.
pub proof fn lemma_binary_chars(v: nat, width: nat, k: int)
    requires
        0 <= k < width,
    ensures
        binary(v, width).len() == width,
        binary(v, width)[k] == '0' || binary(v, width)[k] == '1',
    decreases width,
{
    lemma_binary_len(v, width);
    lemma_binary_len(v / 2, (width - 1) as nat);
    if k < width - 1 {
        lemma_binary_chars(v / 2, (width - 1) as nat, k);
    }
}

/// What the assembler writes, the loader of the emulator reads: the text
/// of an assembled source is a program file with one word for each
/// instruction.
pub proof fn lemma_loader_reads_what_was_assembled(bytes: Seq<u8>)
    requires
        assembled(bytes) is Ok,
    ensures
        is_program(bytes_of(assembled(bytes)->Ok_0)),
        words_of(bytes_of(assembled(bytes)->Ok_0)).len() == instructions_from(bytes, 0),
{
    let (map, count) = first_pass(bytes, 0, Symbols::initial().map, 0)->Ok_0;
    let symbols = Symbols { map, next: Symbols::initial().next };
    let words = lemma_second_pass_writes_words(bytes, 0, symbols, Seq::empty());
    assert(Seq::<char>::empty() + lines_of(words) =~= lines_of(words));
    lemma_lines_are_a_program(words);
}

} // verus!
