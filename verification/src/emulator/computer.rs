//! The computer at power-on: the sizes and places of its memories, and the
//! chipset with the program loaded.
use crate::emulator::alu::Alu;
use crate::emulator::chipset::Chipset;
use crate::emulator::ram::Ram;
use crate::emulator::screen::Dimension;
use vstd::prelude::*;

verus! {

/// Where things are in the memories, and how large these are.
pub struct ComputerConstants {
    /// The first cell of the screen and the first cell behind it.
    pub screen_location: (usize, usize),
    /// The cell of the keyboard latch.
    pub keyboard_location: usize,
    /// The number of cells of the data memory.
    pub ram_size: usize,
    /// The number of words of the program memory.
    pub rom_size: usize,
    /// The time between two refreshes of the screen, in milliseconds.
    pub screen_update_interval: u64,
}

impl ComputerConstants {
    /// The Hack computer: memories of 32768 words, the screen in the cells
    /// from 16384 up to 24576, and the keyboard latch right behind it.
    pub open spec fn hack() -> ComputerConstants {
        ComputerConstants {
            screen_location: (16384usize, 24576usize),
            keyboard_location: 24576,
            ram_size: 32768,
            rom_size: 32768,
            screen_update_interval: 1,
        }
    }
}

impl Default for ComputerConstants {
    fn default() -> (r: Self)
        ensures
            r == ComputerConstants::hack(),
    {
        Self {
            screen_location: (16384, 24576),
            keyboard_location: 24576,
            ram_size: 32_768,
            rom_size: 32_768,
            screen_update_interval: 1,
        }
    }
}

/// How a computer is set up.
pub struct ComputerOptions {
    /// The number of cycles after which to stop, if any.
    pub max_cycles: Option<u32>,
    pub config: ComputerConstants,
    pub screen_dimensions: Dimension,
}

impl Default for ComputerOptions {
    fn default() -> (r: Self)
        ensures
            r.max_cycles.is_none(),
            r.config == ComputerConstants::hack(),
            r.screen_dimensions.width() == 512,
            r.screen_dimensions.height() == 256,
    {
        Self {
            max_cycles: None,
            config: ComputerConstants::default(),
            screen_dimensions: Dimension::default(),
        }
    }
}

/// A program memory with the program at its start and 0 in every word
/// behind it.
pub open spec fn loaded(size: nat, program: Seq<u16>) -> Seq<u16> {
    Seq::new(
        size,
        |i: int|
            if i < program.len() {
                program[i]
            } else {
                0u16
            },
    )
}

/// A program memory of `size` words that holds `program` at its start, or
/// `None` where the program is longer than the memory.
pub fn load_rom(size: usize, program: &[u16]) -> (r: Option<Vec<u16>>)
    ensures
        program@.len() <= size ==> (r matches Some(rom) && rom@ == loaded(size as nat, program@)),
        program@.len() > size ==> r is None,
{
    if program.len() > size {
        return None;
    }
    let mut rom: Vec<u16> = Vec::new();
    let mut i: usize = 0;
    while i < size
        invariant
            i <= size,
            program@.len() <= size,
            rom@ == loaded(i as nat, program@),
        decreases size - i,
    {
        if i < program.len() {
            rom.push(program[i]);
        } else {
            rom.push(0);
        }
        assert(rom@ =~= loaded((i + 1) as nat, program@));
        i += 1;
    }
    Some(rom)
}

/// The chipset at power-on: the program loaded, the data memory all zero,
/// and the registers at 0. `None` where the program is longer than the
/// program memory.
pub fn power_on(constants: &ComputerConstants, program: &[u16]) -> (r: Option<Chipset>)
    ensures
        program@.len() > constants.rom_size ==> r is None,
        program@.len() <= constants.rom_size ==> (r matches Some(chipset) && chipset.rom@
            == loaded(constants.rom_size as nat, program@) && chipset.ram@ == Seq::new(
            constants.ram_size as nat,
            |i: int| 0i16,
        ) && chipset.alu == Alu::from_bits(0) && chipset.pc == 0 && chipset.a_reg == 0
            && chipset.d_reg == 0),
{
    match load_rom(constants.rom_size, program) {
        Some(rom) => Some(Chipset::new(rom, Ram::new(constants.ram_size))),
        None => None,
    }
}

} // verus!
