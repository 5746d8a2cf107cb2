//! The chipset: the CPU registers with the program and the data memory they
//! work on.
use crate::emulator::alu::Alu;
use crate::emulator::cpu::{can_step, step, to_index, to_signed, to_unsigned, Machine};
use crate::emulator::instruction::{comp_bits_of, is_address_word, Instruction};
use crate::emulator::ram::Ram;
use vstd::prelude::*;

verus! {

/// The hardware of the Hack computer: the program memory, the data memory,
/// the ALU, the program counter, and the two registers.
#[derive(Debug)]
pub struct Chipset {
    pub rom: Vec<u16>,
    pub ram: Ram,
    pub alu: Alu,
    pub pc: usize,
    pub d_reg: i16,
    pub a_reg: u16,
}

impl Chipset {
    /// The state of the machine.
    pub open spec fn machine(&self) -> Machine {
        Machine { pc: self.pc as nat, a: self.a_reg, d: self.d_reg, ram: self.ram@ }
    }

    /// The word at the program counter.
    pub open spec fn current_word(&self) -> u16 {
        self.rom@[self.pc as int]
    }

    /// A chipset with the given memories and all registers at 0.
    pub fn new(rom: Vec<u16>, ram: Ram) -> (r: Self)
        ensures
            r.rom == rom,
            r.ram == ram,
            r.alu == Alu::from_bits(0),
            r.pc == 0,
            r.d_reg == 0,
            r.a_reg == 0,
    {
        Self { rom, ram, alu: Alu::default(), pc: 0, d_reg: 0, a_reg: 0 }
    }

    /// Whether a step can be taken.
    pub fn is_runnable(&self) -> (r: bool)
        ensures
            r == can_step(self.rom@, self.machine()),
    {
        if self.pc >= self.rom.len() {
            return false;
        }
        let instruction = Instruction::new(self.rom[self.pc]);
        if instruction.is_address() {
            return true;
        }
        if instruction.a_bit_is_set() || instruction.dest_mem() {
            to_index(self.a_reg) < self.ram.len()
        } else {
            true
        }
    }

    /// Takes one step: fetches the instruction at the program counter and
    /// executes it. A C-instruction leaves its control bits in the ALU.
    pub fn run_next_instruction(&mut self)
        requires
            can_step(old(self).rom@, old(self).machine()),
        ensures
            final(self).rom == old(self).rom,
            final(self).machine() == step(old(self).rom@, old(self).machine()),
            final(self).alu == if is_address_word(old(self).current_word()) {
                old(self).alu
            } else {
                Alu::from_bits(comp_bits_of(old(self).current_word()))
            },
    {
        let instruction = self.fetch_instruction();
        if instruction.is_address() {
            self.a_reg = instruction.inner();
            return ;
        }
        self.alu.load_bits(instruction.comp_bits());

        let result: i16 = if instruction.a_bit_is_set() {
            self.alu.execute(self.d_reg, self.ram.read(to_index(self.a_reg)))
        } else {
            self.alu.execute(self.d_reg, to_signed(self.a_reg))
        };

        if instruction.dest_mem() {
            self.ram.write(to_index(self.a_reg), result);
        }
        if instruction.dest_addr() {
            self.a_reg = to_unsigned(result);
        }
        if instruction.dest_data() {
            self.d_reg = result;
        }
        if instruction.jump().cmp(result) {
            self.pc = to_index(self.a_reg);
        }
    }

    fn fetch_instruction(&mut self) -> (r: Instruction)
        requires
            old(self).pc < old(self).rom@.len(),
        ensures
            r.0 == old(self).rom@[old(self).pc as int],
            final(self).pc == old(self).pc + 1,
            final(self).rom == old(self).rom,
            final(self).ram == old(self).ram,
            final(self).alu == old(self).alu,
            final(self).a_reg == old(self).a_reg,
            final(self).d_reg == old(self).d_reg,
    {
        let _size: usize = self.rom.len();
        let ret = Instruction::new(self.rom[self.pc]);
        self.pc += 1;
        ret
    }
}

} // verus!
