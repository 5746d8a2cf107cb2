use hack_toolchain::emulator::alu::Alu;

#[test]
fn test_alu_new() {
    let alu = Alu::new(true, false, true, false, true, false);
    assert_eq!(alu.zx, true);
    assert_eq!(alu.nx, false);
    assert_eq!(alu.zy, true);
    assert_eq!(alu.ny, false);
    assert_eq!(alu.f, true);
    assert_eq!(alu.no, false);
}

#[test]
fn test_alu_from_bits() {
    let mut alu = Alu::new(false, false, false, false, false, false);
    alu.load_bits(0b101010);
    assert_eq!(alu.zx, true);
    assert_eq!(alu.nx, false);
    assert_eq!(alu.zy, true);
    assert_eq!(alu.ny, false);
    assert_eq!(alu.f, true);
    assert_eq!(alu.no, false);
}

#[test]
fn test_alu_execute_zero() {
    let alu = Alu::new(true, false, true, false, false, false);
    assert_eq!(alu.execute(100, 100), 0)
}

#[test]
fn test_alu_execute_add() {
    let alu = Alu::new(false, false, false, false, true, false);
    assert_eq!(alu.execute(100, 100), 200)
}

#[test]
fn test_alu_execute_and() {
    let alu = Alu::new(false, false, false, false, false, false);
    assert_eq!(alu.execute(0b1010, 0b1100), 0b1000)
}

#[test]
fn test_alu_execute_not() {
    let alu = Alu::new(false, false, false, false, false, true);
    assert_eq!(alu.execute(0b1010, 0b1100), !0b1000)
}

#[test]
fn test_alu_execute_negate() {
    let alu = Alu::new(false, true, false, true, false, false);
    assert_eq!(alu.execute(100, 100), (!100) & (!100))
}

#[test]
fn test_alu_execute_all() {
    let alu = Alu::new(true, true, true, true, true, true);
    assert_eq!(alu.execute(100, 100), 1)
}

#[test]
fn test_alu_execute_overflow() {
    let alu = Alu::new(false, false, false, false, true, false);
    assert_eq!(alu.execute(i16::MAX, 1), i16::MIN)
}

#[test]
fn alu_zero_control_ignores_its_inputs() {
    let alu = Alu::new(true, false, true, false, false, false);
    for (x, y) in [(0, 0), (1, -1), (i16::MAX, i16::MIN), (-12345, 321)] {
        assert_eq!(alu.execute(x, y), 0);
    }
}

#[test]
fn alu_gives_the_same_output_for_the_same_inputs() {
    for bits in 0..64u16 {
        let mut first = Alu::default();
        first.load_bits(bits);
        let mut second = Alu::new(true, true, true, true, true, true);
        second.load_bits(bits);
        assert_eq!(first, second);
        for (x, y) in [(0, 0), (7, -3), (i16::MAX, 1), (i16::MIN, -1)] {
            assert_eq!(first.execute(x, y), second.execute(x, y));
            assert_eq!(first.execute(x, y), first.execute(x, y));
        }
    }
}

#[test]
fn alu_computes_the_canonical_functions() {
    let run = |bits: u16, x: i16, y: i16| {
        let mut alu = Alu::default();
        alu.load_bits(bits);
        alu.execute(x, y)
    };
    let (d, a) = (1234i16, -77i16);
    assert_eq!(run(0b101010, d, a), 0);
    assert_eq!(run(0b111111, d, a), 1);
    assert_eq!(run(0b111010, d, a), -1);
    assert_eq!(run(0b001100, d, a), d);
    assert_eq!(run(0b110000, d, a), a);
    assert_eq!(run(0b001101, d, a), !d);
    assert_eq!(run(0b110001, d, a), !a);
    assert_eq!(run(0b001111, d, a), -d);
    assert_eq!(run(0b110011, d, a), -a);
    assert_eq!(run(0b011111, d, a), d + 1);
    assert_eq!(run(0b110111, d, a), a + 1);
    assert_eq!(run(0b001110, d, a), d - 1);
    assert_eq!(run(0b110010, d, a), a - 1);
    assert_eq!(run(0b000010, d, a), d + a);
    assert_eq!(run(0b010011, d, a), d - a);
    assert_eq!(run(0b000111, d, a), a - d);
    assert_eq!(run(0b000000, d, a), d & a);
    assert_eq!(run(0b010101, d, a), d | a);
    assert_eq!(run(0b011111, i16::MAX, 0), i16::MIN);
    assert_eq!(run(0b001110, i16::MIN, 0), i16::MAX);
    assert_eq!(run(0b1_101010, d, a), 0);
}

#[test]
fn alu_default_has_no_control_bit_set() {
    assert_eq!(Alu::default(), Alu::new(false, false, false, false, false, false));
}
