//! The single-cycle executor on borrowed memories, and the model of the
//! machine that it and the chipset share.
use crate::emulator::alu::Alu;
use crate::emulator::instruction::{
    a_bit_of, comp_bits_of, dest_addr_of, dest_data_of, dest_mem_of, is_address_word, jump_of,
    Instruction,
};
use vstd::prelude::*;

verus! {

/// The state of the machine: the program counter, the address and data
/// registers, and the data memory.
pub struct Machine {
    pub pc: nat,
    pub a: u16,
    pub d: i16,
    pub ram: Seq<i16>,
}

/// The signed number with the bit pattern of `v`.
pub open spec fn signed(v: u16) -> i16 {
    if v < 0x8000 {
        v as i16
    } else {
        (v - 0x1_0000) as i16
    }
}

/// The unsigned number with the bit pattern of `v`.
pub open spec fn unsigned(v: i16) -> u16 {
    if v >= 0 {
        v as u16
    } else {
        (v + 0x1_0000) as u16
    }
}

/// What the ALU reads and computes for a C-instruction: the data register
/// and, by the word's a-bit, the memory cell at A or A itself.
pub open spec fn computed(word: u16, m: Machine) -> i16 {
    Alu::from_bits(comp_bits_of(word)).output(
        m.d,
        if a_bit_of(word) {
            m.ram[m.a as int]
        } else {
            signed(m.a)
        },
    )
}

/// Whether the machine can execute the word: a C-instruction that reads
/// or writes the memory cell needs A to be an address of the memory.
pub open spec fn can_execute(word: u16, m: Machine) -> bool {
    !is_address_word(word) && (a_bit_of(word) || dest_mem_of(word)) ==> m.a < m.ram.len()
}

/// The machine after it has executed the word. An A-instruction loads its
/// 15 bits into A. A C-instruction stores the ALU output in the memory cell
/// at the old A, in A and in D, each as its destination bit says, and then
/// jumps to the new A where its jump holds of the output.
pub open spec fn executed(word: u16, m: Machine) -> Machine {
    if is_address_word(word) {
        Machine { pc: m.pc + 1, a: word, d: m.d, ram: m.ram }
    } else {
        let out = computed(word, m);
        let a = if dest_addr_of(word) {
            unsigned(out)
        } else {
            m.a
        };
        Machine {
            pc: if jump_of(word).holds(out) {
                a as nat
            } else {
                m.pc + 1
            },
            a,
            d: if dest_data_of(word) {
                out
            } else {
                m.d
            },
            ram: if dest_mem_of(word) {
                m.ram.update(m.a as int, out)
            } else {
                m.ram
            },
        }
    }
}

/// Whether the machine can take a step: the program counter is within the
/// program, and the instruction there can be executed.
pub open spec fn can_step(rom: Seq<u16>, m: Machine) -> bool {
    m.pc < rom.len() && can_execute(rom[m.pc as int], m)
}

/// The machine after one step: the instruction at the program counter is
/// fetched and executed.
pub open spec fn step(rom: Seq<u16>, m: Machine) -> Machine {
    executed(rom[m.pc as int], m)
}

/// The signed number with the bit pattern of `v`.
pub fn to_signed(v: u16) -> (r: i16)
    ensures
        r == signed(v),
{
    if v < 0x8000 {
        v as i16
    } else {
        ((v - 0x8000) as i16) + i16::MIN
    }
}

/// The unsigned number with the bit pattern of `v`.
pub fn to_unsigned(v: i16) -> (r: u16)
    ensures
        r == unsigned(v),
{
    if v >= 0 {
        v as u16
    } else {
        ((v - i16::MIN) as u16) + 0x8000
    }
}

/// The index of the memory cell at address `a`.
pub fn to_index(a: u16) -> (r: usize)
    ensures
        r == a,
{
    a as usize
}

/// The registers of the CPU. The memories are lent to it for each step.
#[derive(Debug, PartialEq)]
pub struct Cpu {
    pub pc: usize,
    pub d_reg: i16,
    pub a_reg: u16,
}

impl Cpu {
    /// The machine that the registers make up with a data memory.
    pub open spec fn machine(&self, ram: Seq<i16>) -> Machine {
        Machine { pc: self.pc as nat, a: self.a_reg, d: self.d_reg, ram }
    }

    /// A CPU with all registers at 0.
    pub fn new() -> (r: Self)
        ensures
            r.pc == 0,
            r.d_reg == 0,
            r.a_reg == 0,
    {
        Self { pc: 0, d_reg: 0, a_reg: 0 }
    }

    /// Whether a step can be taken on these memories.
    pub fn is_runnable(&self, rom: &[u16], ram: &[i16]) -> (r: bool)
        ensures
            r == can_step(rom@, self.machine(ram@)),
    {
        if self.pc >= rom.len() {
            return false;
        }
        let instruction = Instruction::new(rom[self.pc]);
        if instruction.is_address() {
            return true;
        }
        if instruction.a_bit_is_set() || instruction.dest_mem() {
            to_index(self.a_reg) < ram.len()
        } else {
            true
        }
    }

    /// Takes one step: fetches the instruction at the program counter and
    /// executes it.
    pub fn run_next_instruction(&mut self, rom: &[u16], ram: &mut [i16])
        requires
            can_step(rom@, old(self).machine(old(ram)@)),
        ensures
            final(self).machine(final(ram)@) == step(rom@, old(self).machine(old(ram)@)),
    {
        let instruction = self.fetch_instruction(rom);
        if instruction.is_address() {
            self.a_reg = instruction.inner();
            return ;
        }
        let mut alu = Alu::default();
        alu.load_bits(instruction.comp_bits());
        let result: i16 = if instruction.a_bit_is_set() {
            alu.execute(self.d_reg, ram[to_index(self.a_reg)])
        } else {
            alu.execute(self.d_reg, to_signed(self.a_reg))
        };

        if instruction.dest_mem() {
            ram[to_index(self.a_reg)] = result;
        }
        if instruction.dest_addr() {
            self.a_reg = to_unsigned(result);
        }
        if instruction.dest_data() {
            self.d_reg = result;
        }
        if instruction.jump().cmp(result) {
            self.pc = to_index(self.a_reg);
        }
    }

    fn fetch_instruction(&mut self, rom: &[u16]) -> (r: Instruction)
        requires
            old(self).pc < rom@.len(),
        ensures
            r.0 == rom@[old(self).pc as int],
            final(self).pc == old(self).pc + 1,
            final(self).a_reg == old(self).a_reg,
            final(self).d_reg == old(self).d_reg,
    {
        let ret = Instruction::new(rom[self.pc]);
        self.pc += 1;
        ret
    }
}

/// An A-instruction can always be executed. It loads its value into the
/// address register, moves the program counter on by one, and leaves the
/// data register and the memory as they were. So after the first step of a
/// program that starts with `@k`, the address register holds `k` and the
/// program counter is 1.
pub proof fn lemma_load_address(rom: Seq<u16>, m: Machine, k: u16)
    requires
        m.pc < rom.len(),
        rom[m.pc as int] == k,
        k <= 32767,
    ensures
        can_step(rom, m),
        step(rom, m) == (Machine { pc: m.pc + 1, a: k, d: m.d, ram: m.ram }),
{
}

} // verus!
