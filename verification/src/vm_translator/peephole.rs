//! What the peephole pass does to the machine: the instructions of a `Push`
//! that a `Pop` follows, against those of their replacement.
use crate::emulator::alu::{lemma_canonical_functions, wrapping_sum};
use crate::emulator::cpu::{can_execute, executed, signed, unsigned, Machine};
use crate::emulator::instruction::{
    a_bit_of, comp_bits_of, dest_addr_of, dest_data_of, dest_mem_of, jump_of, Jump,
};
use vstd::prelude::*;

verus! {

/// `@SP`
pub const AT_SP: u16 = 0b0000_0000_0000_0000;

/// `A=M`
pub const A_GETS_M: u16 = 0b1111_1100_0010_0000;

/// `M=D`
pub const M_GETS_D: u16 = 0b1110_0011_0000_1000;

/// `M=M+1`
pub const M_GETS_M_PLUS_1: u16 = 0b1111_1101_1100_1000;

/// `AM=M-1`
pub const AM_GETS_M_MINUS_1: u16 = 0b1111_1100_1010_1000;

/// `D=M`
pub const D_GETS_M: u16 = 0b1111_1100_0001_0000;

/// The machine words of `Push`: `@SP`, `A=M`, `M=D`, `@SP`, `M=M+1`.
pub open spec fn push_words() -> Seq<u16> {
    seq![AT_SP, A_GETS_M, M_GETS_D, AT_SP, M_GETS_M_PLUS_1]
}

/// The machine words of `Pop`: `@SP`, `AM=M-1`, `D=M`.
pub open spec fn pop_words() -> Seq<u16> {
    seq![AT_SP, AM_GETS_M_MINUS_1, D_GETS_M]
}

/// The machine words of the replacement: `@SP`, `A=M`.
pub open spec fn collapsed_words() -> Seq<u16> {
    seq![AT_SP, A_GETS_M]
}

/// Whether the machine can execute the words one after the other.
pub open spec fn can_execute_all(words: Seq<u16>, m: Machine) -> bool
    decreases words.len(),
{
    words.len() > 0 ==> can_execute_all(words.drop_last(), m) && can_execute(
        words.last(),
        executed_all(words.drop_last(), m),
    )
}

/// The machine after it has executed the words one after the other.
pub open spec fn executed_all(words: Seq<u16>, m: Machine) -> Machine
    decreases words.len(),
{
    if words.len() == 0 {
        m
    } else {
        executed(words.last(), executed_all(words.drop_last(), m))
    }
}

/// What `@SP` does.
pub proof fn lemma_at_sp(m: Machine)
    ensures
        can_execute(AT_SP, m),
        executed(AT_SP, m) == (Machine { pc: m.pc + 1, a: 0, ..m }),
{
}

/// What `M=D` does.
pub proof fn lemma_m_gets_d(m: Machine)
    ensures
        can_execute(M_GETS_D, m) == (m.a < m.ram.len()),
        executed(M_GETS_D, m) == (Machine {
            pc: m.pc + 1,
            ram: m.ram.update(m.a as int, m.d),
            ..m
        }),
{
    assert(comp_bits_of(M_GETS_D) == 0b001100 && !a_bit_of(M_GETS_D));
    assert(!dest_addr_of(M_GETS_D) && !dest_data_of(M_GETS_D) && dest_mem_of(M_GETS_D));
    assert(jump_of(M_GETS_D) == Jump::NoJump);
    lemma_canonical_functions(m.d, signed(m.a));
}

/// What `A=M` does.
pub proof fn lemma_a_gets_m(m: Machine)
    ensures
        can_execute(A_GETS_M, m) == (m.a < m.ram.len()),
        executed(A_GETS_M, m) == (Machine {
            pc: m.pc + 1,
            a: unsigned(m.ram[m.a as int]),
            ..m
        }),
{
    assert(comp_bits_of(A_GETS_M) == 0b110000 && a_bit_of(A_GETS_M));
    assert(dest_addr_of(A_GETS_M) && !dest_data_of(A_GETS_M) && !dest_mem_of(A_GETS_M));
    assert(jump_of(A_GETS_M) == Jump::NoJump);
    lemma_canonical_functions(m.d, m.ram[m.a as int]);
}

/// What `D=M` does.
pub proof fn lemma_d_gets_m(m: Machine)
    ensures
        can_execute(D_GETS_M, m) == (m.a < m.ram.len()),
        executed(D_GETS_M, m) == (Machine { pc: m.pc + 1, d: m.ram[m.a as int], ..m }),
{
    assert(comp_bits_of(D_GETS_M) == 0b110000 && a_bit_of(D_GETS_M));
    assert(!dest_addr_of(D_GETS_M) && dest_data_of(D_GETS_M) && !dest_mem_of(D_GETS_M));
    assert(jump_of(D_GETS_M) == Jump::NoJump);
    lemma_canonical_functions(m.d, m.ram[m.a as int]);
}

/// What `M=M+1` does.
pub proof fn lemma_m_gets_m_plus_1(m: Machine)
    ensures
        can_execute(M_GETS_M_PLUS_1, m) == (m.a < m.ram.len()),
        executed(M_GETS_M_PLUS_1, m) == (Machine {
            pc: m.pc + 1,
            ram: m.ram.update(m.a as int, wrapping_sum(m.ram[m.a as int], 1)),
            ..m
        }),
{
    assert(comp_bits_of(M_GETS_M_PLUS_1) == 0b110111 && a_bit_of(M_GETS_M_PLUS_1));
    assert(!dest_addr_of(M_GETS_M_PLUS_1) && !dest_data_of(M_GETS_M_PLUS_1) && dest_mem_of(
        M_GETS_M_PLUS_1,
    ));
    assert(jump_of(M_GETS_M_PLUS_1) == Jump::NoJump);
    lemma_canonical_functions(m.d, m.ram[m.a as int]);
}

/// What `AM=M-1` does.
pub proof fn lemma_am_gets_m_minus_1(m: Machine)
    ensures
        can_execute(AM_GETS_M_MINUS_1, m) == (m.a < m.ram.len()),
        executed(AM_GETS_M_MINUS_1, m) == (Machine {
            pc: m.pc + 1,
            a: unsigned(wrapping_sum(m.ram[m.a as int], -1i16)),
            ram: m.ram.update(m.a as int, wrapping_sum(m.ram[m.a as int], -1i16)),
            ..m
        }),
{
    assert(comp_bits_of(AM_GETS_M_MINUS_1) == 0b110010 && a_bit_of(AM_GETS_M_MINUS_1));
    assert(dest_addr_of(AM_GETS_M_MINUS_1) && !dest_data_of(AM_GETS_M_MINUS_1) && dest_mem_of(
        AM_GETS_M_MINUS_1,
    ));
    assert(jump_of(AM_GETS_M_MINUS_1) == Jump::NoJump);
    lemma_canonical_functions(m.d, m.ram[m.a as int]);
}

/// A `Push` that a `Pop` follows, against their replacement. Where the stack
/// pointer, the cell at 0, holds the address of a cell other than itself,
/// both leave the address register at the stack pointer, and the data
/// register and the stack pointer as they were. The replacement leaves the
/// memory as it was; the push and the pop leave the data register's value in
/// the cell at the stack pointer, the first free cell of the stack. In every
/// other cell the memories agree.
pub proof fn lemma_push_pop_against_replacement(m: Machine)
    requires
        0 < m.ram.len(),
        0 < m.ram[0] < m.ram.len(),
    ensures
        can_execute_all(push_words() + pop_words(), m),
        can_execute_all(collapsed_words(), m),
        ({
            let sp = m.ram[0];
            let full = executed_all(push_words() + pop_words(), m);
            let short = executed_all(collapsed_words(), m);
            &&& short == (Machine { pc: m.pc + 2, a: sp as u16, d: m.d, ram: m.ram })
            &&& full == (Machine {
                pc: m.pc + 8,
                a: sp as u16,
                d: m.d,
                ram: m.ram.update(sp as int, m.d),
            })
            &&& full.ram[0] == sp
        }),
{
    let sp = m.ram[0];
    let all = push_words() + pop_words();
    assert(all =~= seq![
        AT_SP,
        A_GETS_M,
        M_GETS_D,
        AT_SP,
        M_GETS_M_PLUS_1,
        AT_SP,
        AM_GETS_M_MINUS_1,
        D_GETS_M,
    ]);
    let w1 = all.take(1);
    let w2 = all.take(2);
    let w3 = all.take(3);
    let w4 = all.take(4);
    let w5 = all.take(5);
    let w6 = all.take(6);
    let w7 = all.take(7);
    assert(w1.drop_last() =~= Seq::<u16>::empty());
    assert(w2.drop_last() =~= w1);
    assert(w3.drop_last() =~= w2);
    assert(w4.drop_last() =~= w3);
    assert(w5.drop_last() =~= w4);
    assert(w6.drop_last() =~= w5);
    assert(w7.drop_last() =~= w6);
    assert(all.drop_last() =~= w7);
    assert(collapsed_words() =~= w2);

    reveal_with_fuel(executed_all, 2);
    reveal_with_fuel(can_execute_all, 2);
    lemma_at_sp(m);
    let m1 = executed_all(w1, m);
    assert(m1 == (Machine { pc: m.pc + 1, a: 0, ..m }));
    assert(can_execute_all(w1, m));
    lemma_a_gets_m(m1);
    let m2 = executed_all(w2, m);
    assert(m2 == (Machine { pc: m.pc + 2, a: sp as u16, ..m }));
    assert(can_execute_all(w2, m));
    lemma_m_gets_d(m2);
    let m3 = executed_all(w3, m);
    let stored = m.ram.update(sp as int, m.d);
    assert(m3 == (Machine { pc: m.pc + 3, a: sp as u16, d: m.d, ram: stored }));
    assert(can_execute_all(w3, m));
    lemma_at_sp(m3);
    let m4 = executed_all(w4, m);
    assert(m4 == (Machine { pc: m.pc + 4, a: 0, d: m.d, ram: stored }));
    assert(can_execute_all(w4, m));
    lemma_m_gets_m_plus_1(m4);
    let m5 = executed_all(w5, m);
    let raised = stored.update(0, wrapping_sum(sp, 1));
    assert(m5 == (Machine { pc: m.pc + 5, a: 0, d: m.d, ram: raised }));
    assert(can_execute_all(w5, m));
    lemma_at_sp(m5);
    let m6 = executed_all(w6, m);
    assert(m6 == (Machine { pc: m.pc + 6, a: 0, d: m.d, ram: raised }));
    assert(can_execute_all(w6, m));
    lemma_am_gets_m_minus_1(m6);
    let m7 = executed_all(w7, m);
    assert(wrapping_sum(wrapping_sum(sp, 1), -1i16) == sp);
    assert(raised.update(0, sp) =~= stored);
    assert(m7 == (Machine { pc: m.pc + 7, a: sp as u16, d: m.d, ram: stored }));
    assert(can_execute_all(w7, m));
    lemma_d_gets_m(m7);
    let m8 = executed_all(all, m);
    assert(m8 == (Machine { pc: m.pc + 8, a: sp as u16, d: m.d, ram: stored }));
}

} // verus!
