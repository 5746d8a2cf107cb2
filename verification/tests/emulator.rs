use hack_toolchain::emulator::alu::Alu;
use hack_toolchain::emulator::chipset::Chipset;
use hack_toolchain::emulator::computer::{load_rom, power_on, ComputerConstants, ComputerOptions};
use hack_toolchain::emulator::cpu::{to_index, to_signed, to_unsigned, Cpu};
use hack_toolchain::emulator::cpu_thread::{
    on_heartbeat, on_start_poll, StartAction, State, START_RETRIES,
};
use hack_toolchain::emulator::events::{CpuThreadMessage, MainThreadMessage};
use hack_toolchain::emulator::instruction::{Instruction, Jump};
use hack_toolchain::emulator::keyboard::{Key, Keyboard, KeyboardState};
use hack_toolchain::emulator::loader::read_prog_as_u16;
use hack_toolchain::emulator::ram::Ram;

#[test]
fn instruction_fields() {
    // 111 a cccccc ddd jjj
    let word = Instruction::new(0b111_1_110000_101_011);
    assert_eq!(word.inner(), 0b1111_1100_0010_1011);
    assert!(word.is_computation());
    assert!(!word.is_address());
    assert!(word.a_bit_is_set());
    assert_eq!(word.comp_bits(), 0b110000);
    assert!(word.dest_addr());
    assert!(!word.dest_data());
    assert!(word.dest_mem());
    assert!(!word.dest_is_none());
    assert_eq!(word.jump(), Jump::Jge);

    let address = Instruction::new(0b0111_1111_1111_1111);
    assert!(address.is_address());
    assert!(!address.is_computation());
    assert_eq!(address.inner(), 32767);

    let plain = Instruction::new(0b111_0_101010_000_000);
    assert!(!plain.a_bit_is_set());
    assert!(plain.dest_is_none());
    assert!(!plain.dest_addr() && !plain.dest_data() && !plain.dest_mem());
    assert_eq!(plain.comp_bits(), 0b101010);
    assert_eq!(plain.jump(), Jump::NoJump);
    assert!(plain.jump().is_none());
    let only_data = Instruction::new(0b111_0_001100_010_000);
    assert!(only_data.dest_data() && !only_data.dest_addr() && !only_data.dest_mem());
}

#[test]
fn jump_decoding_and_conditions() {
    let all = [
        (0b000, Jump::NoJump, "NONE", [false, false, false]),
        (0b001, Jump::Jgt, "JGT", [false, false, true]),
        (0b010, Jump::Jeq, "JEQ", [false, true, false]),
        (0b011, Jump::Jge, "JGE", [false, true, true]),
        (0b100, Jump::Jlt, "JLT", [true, false, false]),
        (0b101, Jump::Jne, "JNE", [true, false, true]),
        (0b110, Jump::Jle, "JLE", [true, true, false]),
        (0b111, Jump::Jmp, "JMP", [true, true, true]),
    ];
    for (bits, jump, name, holds) in all {
        assert_eq!(Jump::new(bits), jump);
        assert_eq!(Jump::new(0b1111_1111_1111_1000 | bits), jump);
        assert_eq!(jump.as_str(), name);
        assert_eq!(jump.is_none(), bits == 0);
        assert_eq!(jump.cmp(-5), holds[0]);
        assert_eq!(jump.cmp(i16::MIN), holds[0]);
        assert_eq!(jump.cmp(0), holds[1]);
        assert_eq!(jump.cmp(9), holds[2]);
        assert_eq!(jump.cmp(i16::MAX), holds[2]);
    }
}

#[test]
fn ram_reads_what_was_written() {
    let mut ram = Ram::new(8);
    assert_eq!(ram.len(), 8);
    for address in 0..8 {
        assert_eq!(ram.read(address), 0);
    }
    ram.write(3, -7);
    ram.write(7, i16::MAX);
    assert_eq!(ram.read(3), -7);
    assert_eq!(ram.read(7), i16::MAX);
    assert_eq!(ram.read(2), 0);
    assert_eq!(Ram::new(0).len(), 0);
}

#[test]
fn ram_copies_a_region() {
    let mut ram = Ram::new(6);
    for address in 0..6 {
        ram.write(address, 10 + address as i16);
    }
    let mut three = [0i16; 3];
    assert_eq!(ram.copy_slice(2, &mut three), Ok(3));
    assert_eq!(three, [12, 13, 14]);
    assert_eq!(ram.copy_slice(3, &mut three), Ok(3));
    assert_eq!(three, [13, 14, 15]);
    assert_eq!(ram.copy_slice(4, &mut three), Err("out of bounds read access"));
    assert_eq!(three, [13, 14, 15]);
    assert_eq!(
        ram.copy_slice(usize::MAX, &mut three),
        Err("out of bounds read access")
    );
    let mut none: [i16; 0] = [];
    assert_eq!(ram.copy_slice(6, &mut none), Ok(0));
    assert_eq!(ram.copy_slice(7, &mut none), Err("out of bounds read access"));
}

#[test]
fn bit_patterns_are_kept_between_signed_and_unsigned() {
    for (unsigned, signed) in [
        (0u16, 0i16),
        (1, 1),
        (32767, i16::MAX),
        (32768, i16::MIN),
        (65535, -1),
        (65534, -2),
    ] {
        assert_eq!(to_signed(unsigned), signed);
        assert_eq!(to_unsigned(signed), unsigned);
        assert_eq!(to_signed(unsigned), unsigned as i16);
        assert_eq!(to_unsigned(signed), signed as u16);
    }
    assert_eq!(to_index(65535), 65535usize);
}

#[test]
fn chipset_loads_an_address_in_one_step() {
    for k in [0u16, 1, 12345, 32767] {
        let mut chipset = Chipset::new(vec![k], Ram::new(4));
        assert!(chipset.is_runnable());
        chipset.run_next_instruction();
        assert_eq!(chipset.a_reg, k);
        assert_eq!(chipset.pc, 1);
        assert_eq!(chipset.d_reg, 0);
        assert!(!chipset.is_runnable());
    }
}

#[test]
fn chipset_starts_at_zero() {
    let chipset = Chipset::new(vec![1, 2, 3], Ram::new(2));
    assert_eq!(chipset.pc, 0);
    assert_eq!(chipset.a_reg, 0);
    assert_eq!(chipset.d_reg, 0);
    assert_eq!(chipset.alu, Alu::default());
    assert_eq!(chipset.rom, vec![1, 2, 3]);
    assert!(!Chipset::new(vec![], Ram::new(2)).is_runnable());
}

#[test]
fn chipset_adds_two_numbers() {
    // @2 D=A @3 D=D+A @0 M=D
    let rom = vec![
        0b0000000000000010,
        0b1110110000010000,
        0b0000000000000011,
        0b1110000010010000,
        0b0000000000000000,
        0b1110001100001000,
    ];
    let mut chipset = Chipset::new(rom, Ram::new(16));
    for _ in 0..6 {
        assert!(chipset.is_runnable());
        chipset.run_next_instruction();
    }
    assert_eq!(chipset.ram.read(0), 5);
    assert_eq!(chipset.d_reg, 5);
    assert_eq!(chipset.a_reg, 0);
    assert_eq!(chipset.pc, 6);
    assert_eq!(chipset.alu, Alu::new(false, false, true, true, false, false));
}

#[test]
fn chipset_writes_memory_at_the_old_address() {
    // @5 ; AM=A+1 writes 6 to RAM[5] and loads 6 into A
    let rom = vec![5, 0b111_0_110111_101_000];
    let mut chipset = Chipset::new(rom, Ram::new(16));
    chipset.run_next_instruction();
    chipset.run_next_instruction();
    assert_eq!(chipset.ram.read(5), 6);
    assert_eq!(chipset.ram.read(6), 0);
    assert_eq!(chipset.a_reg, 6);
}

#[test]
fn chipset_jumps_to_the_new_address() {
    // @3 ; A=A-1;JMP jumps to 2, the new A
    let rom = vec![3, 0b111_0_110010_100_111, 0, 0];
    let mut chipset = Chipset::new(rom, Ram::new(4));
    chipset.run_next_instruction();
    chipset.run_next_instruction();
    assert_eq!(chipset.a_reg, 2);
    assert_eq!(chipset.pc, 2);

    // @7 ; D=A ; @0 ; D;JLT does not jump on a positive D ; D;JGT does
    let rom = vec![7, 0b111_0_110000_010_000, 0, 0b111_0_001100_000_100, 0b111_0_001100_000_001];
    let mut chipset = Chipset::new(rom, Ram::new(4));
    for _ in 0..4 {
        chipset.run_next_instruction();
    }
    assert_eq!(chipset.pc, 4);
    chipset.run_next_instruction();
    assert_eq!(chipset.pc, 0);
}

#[test]
fn chipset_keeps_the_bit_pattern_of_a_negative_address() {
    // A=-1 loads 65535; reading M there cannot be done in a memory of 32768 cells
    let rom = vec![0b111_0_111010_100_000, 0b111_1_110000_010_000, 0b111_0_110000_010_000];
    let mut chipset = Chipset::new(rom, Ram::new(32768));
    chipset.run_next_instruction();
    assert_eq!(chipset.a_reg, 65535);
    assert!(!chipset.is_runnable());
    chipset.pc = 2;
    assert!(chipset.is_runnable());
    chipset.run_next_instruction();
    assert_eq!(chipset.d_reg, -1);
}

#[test]
fn cpu_steps_like_the_chipset() {
    let rom: Vec<u16> = vec![
        0b0000000000000010,
        0b1110110000010000,
        0b0000000000000011,
        0b1110000010010000,
        0b0000000000000000,
        0b1110001100001000,
        0b0000000000000110,
        0b1110101010000111,
    ];
    let mut ram = vec![0i16; 16];
    let mut cpu = Cpu::new();
    assert_eq!(cpu, Cpu { pc: 0, d_reg: 0, a_reg: 0 });
    let mut chipset = Chipset::new(rom.clone(), Ram::new(16));
    for _ in 0..20 {
        assert!(cpu.is_runnable(&rom, &ram));
        cpu.run_next_instruction(&rom, &mut ram);
        chipset.run_next_instruction();
        assert_eq!(cpu.pc, chipset.pc);
        assert_eq!(cpu.a_reg, chipset.a_reg);
        assert_eq!(cpu.d_reg, chipset.d_reg);
    }
    assert_eq!(ram[0], 5);
    assert_eq!(cpu.pc, 6);
    let mut small = vec![0i16; 2];
    let mut lost = Cpu { pc: 5, d_reg: 0, a_reg: 2 };
    assert!(!lost.is_runnable(&rom, &small));
    lost.pc = 8;
    assert!(!lost.is_runnable(&rom, &small));
    lost.pc = 0;
    assert!(lost.is_runnable(&rom, &small));
    lost.run_next_instruction(&rom, &mut small);
    assert_eq!(lost.a_reg, 2);
}

#[test]
fn loader_reads_words() {
    let text = "0000000000000010\n1110110000010000\n1111111111111111\n";
    assert_eq!(
        read_prog_as_u16(text),
        Some(vec![2, 0b1110110000010000, 65535])
    );
    assert_eq!(read_prog_as_u16(""), Some(vec![]));
    assert_eq!(read_prog_as_u16("0000000000000010"), None);
    assert_eq!(read_prog_as_u16("000000000000010\n"), None);
    assert_eq!(read_prog_as_u16("00000000000000100\n"), None);
    assert_eq!(read_prog_as_u16("0000000000000012\n"), None);
    assert_eq!(read_prog_as_u16("0000000000000010 "), None);
    assert_eq!(read_prog_as_u16("0000000000000010\n\n"), None);
    assert_eq!(read_prog_as_u16("0000000000000010\n000000000000001\n\n"), None);
}

#[test]
fn cpu_thread_waits_for_its_start() {
    assert_eq!(START_RETRIES, 2500);
    assert_eq!(
        on_start_poll(Some(MainThreadMessage::CpuStart), START_RETRIES),
        StartAction::Run
    );
    assert_eq!(on_start_poll(Some(MainThreadMessage::CpuStart), 1), StartAction::Run);
    assert_eq!(
        on_start_poll(Some(MainThreadMessage::Error), 17),
        StartAction::ReportError
    );
    assert_eq!(on_start_poll(None, 2500), StartAction::Retry(2499));
    assert_eq!(
        on_start_poll(Some(MainThreadMessage::Finished), 2),
        StartAction::Retry(1)
    );
    assert_eq!(on_start_poll(None, 1), StartAction::GiveUp);
    assert_eq!(on_start_poll(None, 0), StartAction::GiveUp);
    let mut retries = START_RETRIES;
    let mut polls = 0;
    loop {
        polls += 1;
        match on_start_poll(None, retries) {
            StartAction::Retry(left) => retries = left,
            other => {
                assert_eq!(other, StartAction::GiveUp);
                break;
            }
        }
    }
    assert_eq!(polls, 2500);
}

#[test]
fn cpu_thread_answers_at_each_heartbeat() {
    assert_eq!(on_heartbeat(true, None), (State::Running, None));
    assert_eq!(on_heartbeat(false, None), (State::Error, None));
    assert_eq!(
        on_heartbeat(true, Some(MainThreadMessage::CpuStart)),
        (State::Running, None)
    );
    assert_eq!(
        on_heartbeat(true, Some(MainThreadMessage::Finished)),
        (State::Finished, Some(CpuThreadMessage::Finished))
    );
    assert_eq!(
        on_heartbeat(false, Some(MainThreadMessage::Finished)),
        (State::Finished, Some(CpuThreadMessage::Finished))
    );
    assert_eq!(
        on_heartbeat(true, Some(MainThreadMessage::Error)),
        (State::Error, Some(CpuThreadMessage::Error))
    );
    assert_ne!(State::Pending, State::Running);
    assert_ne!(CpuThreadMessage::Heartbeat, CpuThreadMessage::Finished);
}

#[test]
fn keyboard_latches_the_arrow_keys() {
    let mut ram = Ram::new(32768);
    let mut keys = Keyboard::new(24576);
    assert_eq!(keys.get_key(), None);
    keys.handle_event(Key::Other, &mut ram);
    assert_eq!(keys.state, KeyboardState::Released);
    assert_eq!(ram.read(24576), 0);
    keys.handle_event(Key::ArrowLeft, &mut ram);
    assert_eq!(keys.get_key(), Some(Key::ArrowLeft));
    assert_eq!(ram.read(24576), 130);
    // another key does not let the held one go
    keys.handle_event(Key::ArrowRight, &mut ram);
    keys.handle_event(Key::Other, &mut ram);
    assert_eq!(keys.get_key(), Some(Key::ArrowLeft));
    assert_eq!(ram.read(24576), 130);
    keys.handle_event(Key::ArrowLeft, &mut ram);
    assert_eq!(keys.get_key(), None);
    assert_eq!(ram.read(24576), 0);
    keys.handle_event(Key::ArrowRight, &mut ram);
    assert_eq!(keys.state, KeyboardState::Pressed(Key::ArrowRight));
    assert_eq!(ram.read(24576), 132);
    keys.release();
    assert_eq!(keys.get_key(), None);
    keys.press(Key::Other);
    assert_eq!(keys.get_key(), Some(Key::Other));
    keys.handle_event(Key::Other, &mut ram);
    assert_eq!(keys.get_key(), None);
    assert_eq!(ram.read(24576), 0);
    for address in 0..32768 {
        assert_eq!(ram.read(address), 0);
    }
}

#[test]
fn the_computer_at_power_on() {
    let constants = ComputerConstants::default();
    assert_eq!(constants.screen_location, (16384, 24576));
    assert_eq!(constants.keyboard_location, 24576);
    assert_eq!(constants.ram_size, 32768);
    assert_eq!(constants.rom_size, 32768);
    let options = ComputerOptions::default();
    assert_eq!(options.max_cycles, None);
    assert_eq!(options.screen_dimensions.logical_width(), 512);
    assert_eq!(options.screen_dimensions.logical_height(), 256);
    assert_eq!(options.config.ram_size, 32768);

    assert_eq!(load_rom(4, &[7, 8]), Some(vec![7, 8, 0, 0]));
    assert_eq!(load_rom(2, &[7, 8]), Some(vec![7, 8]));
    assert_eq!(load_rom(1, &[7, 8]), None);
    assert_eq!(load_rom(0, &[]), Some(vec![]));

    let chipset = power_on(&constants, &[5, 6, 7]).unwrap();
    assert_eq!(chipset.rom.len(), 32768);
    assert_eq!(&chipset.rom[..4], &[5, 6, 7, 0]);
    assert!(chipset.rom[4..].iter().all(|word| *word == 0));
    assert_eq!(chipset.ram.len(), 32768);
    assert_eq!(chipset.ram.read(0), 0);
    assert_eq!(chipset.ram.read(32767), 0);
    assert_eq!((chipset.pc, chipset.a_reg, chipset.d_reg), (0, 0, 0));
    assert!(power_on(&constants, &vec![0u16; 32769]).is_none());
    assert!(power_on(&constants, &vec![0u16; 32768]).is_some());
}
