use hack_toolchain::assembler::code::{CodeGenerator, SymbolTable, TranslationTable};
use hack_toolchain::emulator::instruction::{Instruction, Jump};
use hack_toolchain::emulator::loader::read_prog_as_u16;

fn assemble(src: &str) -> Result<String, String> {
    let mut code = CodeGenerator::new(src);
    code.generate()?;
    Ok(code.take_code())
}

#[test]
fn assembles_a_sum() {
    assert_eq!(
        assemble("@2\nD=A\n@3\nD=D+A\n@0\nM=D\n"),
        Ok("0000000000000010\n1110110000010000\n0000000000000011\n1110000010010000\n0000000000000000\n1110001100001000\n".to_string())
    );
}

#[test]
fn a_label_stands_for_the_next_instruction() {
    assert_eq!(
        assemble("@LOOP\n(LOOP)\n@LOOP\n"),
        Ok("0000000000000001\n0000000000000001\n".to_string())
    );
    assert_eq!(
        assemble("(START)\n@START\n@END\n(END)\n(ALSO)\n@ALSO\n"),
        Ok("0000000000000000\n0000000000000010\n0000000000000010\n".to_string())
    );
}

#[test]
fn variables_start_at_sixteen() {
    assert_eq!(
        assemble("@i\n@j\n@i\n"),
        Ok("0000000000010000\n0000000000010001\n0000000000010000\n".to_string())
    );
    assert_eq!(
        assemble("@a\n@R1\n@b\n@SCREEN\n@c\n@a\n@KEYBOARD\n"),
        Ok("0000000000010000\n0000000000000001\n0000000000010001\n0100000000000000\n0000000000010010\n0000000000010000\n0110000000000000\n".to_string())
    );
}

#[test]
fn numeric_constant_bounds() {
    assert_eq!(assemble("@0"), Ok("0000000000000000\n".to_string()));
    assert_eq!(assemble("@32767"), Ok("0111111111111111\n".to_string()));
    assert_eq!(
        assemble("@32768"),
        Err("numeric constant exceeds hack maximum numeric constant".to_string())
    );
}

#[test]
fn one_line_of_seventeen_bytes_for_each_instruction() {
    let src = "// count down\n@10\nD=A\n(LOOP)\n@i\nM=D\nD=D-1 // next\n@LOOP\nD;JGT\n(END)\n@END\n0;JMP\n";
    let text = assemble(src).unwrap();
    assert_eq!(text.len(), 17 * 9);
    for line in text.split_inclusive('\n') {
        assert_eq!(line.len(), 17);
        assert!(line[..16].bytes().all(|b| b == b'0' || b == b'1'));
        assert_eq!(&line[16..], "\n");
    }
    assert_eq!(assemble(""), Ok(String::new()));
    assert_eq!(assemble("(ONLY)\n// nothing\n"), Ok(String::new()));
}

#[test]
fn every_computation_destination_and_jump() {
    let table = TranslationTable::new();
    let comps = [
        ("0", 0b0101010), ("1", 0b0111111), ("-1", 0b0111010), ("D", 0b0001100),
        ("A", 0b0110000), ("M", 0b1110000), ("!D", 0b0001101), ("!A", 0b0110001),
        ("!M", 0b1110001), ("-D", 0b0001111), ("-A", 0b0110011), ("-M", 0b1110011),
        ("D+1", 0b0011111), ("A+1", 0b0110111), ("M+1", 0b1110111), ("D-1", 0b0001110),
        ("A-1", 0b0110010), ("M-1", 0b1110010), ("D+A", 0b0000010), ("D+M", 0b1000010),
        ("D-A", 0b0010011), ("D-M", 0b1010011), ("A-D", 0b0000111), ("M-D", 0b1000111),
        ("D&A", 0b0000000), ("D&M", 0b1000000), ("D|A", 0b0010101), ("D|M", 0b1010101),
    ];
    assert_eq!(comps.len(), 28);
    for (name, bits) in comps {
        assert_eq!(table.get_comp(name), Ok(&(bits << 6)));
    }
    let dests = [
        ("M", 0b001), ("D", 0b010), ("DM", 0b011), ("A", 0b100), ("AM", 0b101),
        ("AD", 0b110), ("ADM", 0b111),
    ];
    for (name, bits) in dests {
        assert_eq!(table.get_dest(name), Ok(&(bits << 3)));
    }
    let jumps = [
        ("JGT", 0b001), ("JEQ", 0b010), ("JGE", 0b011), ("JLT", 0b100), ("JNE", 0b101),
        ("JLE", 0b110), ("JMP", 0b111),
    ];
    for (name, bits) in jumps {
        assert_eq!(table.get_jump(name), Ok(&bits));
    }
    assert_eq!(
        table.get_comp("D+2"),
        Err("invalid comp translation \"D+2\"".to_string())
    );
    assert_eq!(
        table.get_comp("M+D"),
        Err("invalid comp translation \"M+D\"".to_string())
    );
    assert_eq!(
        table.get_dest("MD"),
        Err("invalid dest translation \"MD\"".to_string())
    );
    assert_eq!(
        table.get_jump("jmp"),
        Err("invalid jump translation \"jmp\"".to_string())
    );
    assert_eq!(table.get_jump(""), Err("invalid jump translation \"\"".to_string()));
}

#[test]
fn assignments_decode_to_what_was_assembled() {
    let table = TranslationTable::new();
    let comps = [
        "0", "1", "-1", "D", "A", "M", "!D", "!A", "!M", "-D", "-A", "-M", "D+1", "A+1", "M+1",
        "D-1", "A-1", "M-1", "D+A", "D+M", "D-A", "D-M", "A-D", "M-D", "D&A", "D&M", "D|A",
        "D|M",
    ];
    let dests = ["M", "D", "DM", "A", "AM", "AD", "ADM"];
    for comp in comps {
        for dest in dests {
            let text = assemble(&format!("{}={}\n", dest, comp)).unwrap();
            let words = read_prog_as_u16(&text).unwrap();
            assert_eq!(words.len(), 1);
            let word = Instruction::new(words[0]);
            assert!(word.is_computation());
            assert_eq!(words[0] >> 13, 0b111);
            let code = *table.get_comp(comp).unwrap();
            assert_eq!(word.comp_bits(), (code >> 6) & 0b111111);
            assert_eq!(word.a_bit_is_set(), comp.contains('M'));
            assert_eq!(word.a_bit_is_set(), code & 0x1000 != 0);
            assert_eq!(word.dest_addr(), dest.contains('A'));
            assert_eq!(word.dest_data(), dest.contains('D'));
            assert_eq!(word.dest_mem(), dest.contains('M'));
            assert_eq!(word.jump(), Jump::NoJump);
            // no other computation has these bits
            let same = comps
                .iter()
                .filter(|other| *table.get_comp(other).unwrap() == code)
                .count();
            assert_eq!(same, 1);
        }
    }
    assert_eq!(assemble("0;JMP\n"), Ok("1110101010000111\n".to_string()));
    assert_eq!(assemble("D;JGT\n"), Ok("1110001100000001\n".to_string()));
    assert_eq!(assemble("M=M+1\n"), Ok("1111110111001000\n".to_string()));
}

#[test]
fn assembler_errors() {
    assert_eq!(
        assemble("(LOOP)\n@1\n(LOOP)\n"),
        Err("attempt to add duplicate label: LOOP".to_string())
    );
    assert_eq!(
        assemble("(SCREEN)\n"),
        Err("attempt to add duplicate label: SCREEN".to_string())
    );
    assert_eq!(
        assemble("D=Q\n"),
        Err("invalid comp translation \"Q\"".to_string())
    );
    assert_eq!(
        assemble("X=Q\n"),
        Err("invalid dest translation \"X\"".to_string())
    );
    assert_eq!(
        assemble("D;JXX\n"),
        Err("invalid jump translation \"JXX\"".to_string())
    );
    assert_eq!(
        assemble("Q;JXX\n"),
        Err("invalid comp translation \"Q\"".to_string())
    );
    assert_eq!(assemble("@2\n=\n"), Err("Unexpected token".to_string()));
    assert_eq!(assemble("@x\ny"), Err("end of stream".to_string()));
    assert_eq!(
        assemble("@x y\n"),
        Err("ctype expected '=' || ';', got \"\\n\"".to_string())
    );
}

#[test]
fn build_symbol_table_then_generate() {
    let src = "@X\n(X)\n@X\n";
    let mut code = CodeGenerator::new(src);
    assert_eq!(code.build_symbol_table(), Ok(()));
    assert_eq!(code.symbol_table.get_symbol("X"), Some(1));
    assert_eq!(code.generate(), Ok(()));
    assert_eq!(
        code.take_code(),
        "0000000000000001\n0000000000000001\n".to_string()
    );
    let mut twice = CodeGenerator::new("@v\n");
    assert_eq!(twice.generate(), Ok(()));
    assert_eq!(twice.symbol_table.get_symbol("v"), Some(16));
    assert_eq!(twice.symbol_table.next_variable(), 17);
    assert_eq!(twice.generate(), Ok(()));
    assert_eq!(
        twice.take_code(),
        "0000000000010000\n0000000000010000\n".to_string()
    );
}

#[test]
fn symbol_table_starts_with_the_predefined_symbols() {
    let table = SymbolTable::new();
    for n in 0..16u16 {
        assert_eq!(table.get_symbol(&format!("R{}", n)), Some(n));
    }
    assert_eq!(table.get_symbol("SP"), Some(0));
    assert_eq!(table.get_symbol("LCL"), Some(1));
    assert_eq!(table.get_symbol("ARG"), Some(2));
    assert_eq!(table.get_symbol("THIS"), Some(3));
    assert_eq!(table.get_symbol("THAT"), Some(4));
    assert_eq!(table.get_symbol("SCREEN"), Some(16384));
    assert_eq!(table.get_symbol("KEYBOARD"), Some(24576));
    assert_eq!(table.get_symbol("R16"), None);
    assert_eq!(table.get_symbol("sp"), None);
    assert!(table.has("R15"));
    assert!(!table.has(""));
    assert_eq!(table.next_variable(), 16);
}

#[test]
fn symbol_table_never_changes_an_address() {
    let mut table = SymbolTable::new();
    assert_eq!(table.add_label("LOOP", 7), Ok(()));
    assert_eq!(table.get_symbol("LOOP"), Some(7));
    assert_eq!(
        table.add_label("LOOP", 9),
        Err("attempt to add duplicate label: LOOP".to_string())
    );
    assert_eq!(table.get_symbol("LOOP"), Some(7));
    assert_eq!(
        table.add_label("R3", 9),
        Err("attempt to add duplicate label: R3".to_string())
    );
    assert_eq!(table.add_variable("x"), 16);
    assert_eq!(table.add_variable("y"), 17);
    assert_eq!(table.add_variable("x"), 16);
    assert_eq!(table.add_variable("LOOP"), 7);
    assert_eq!(table.add_variable("SCREEN"), 16384);
    assert_eq!(table.add_variable("z"), 18);
    assert_eq!(table.next_variable(), 19);
    assert_eq!(
        table.add_label("x", 1),
        Err("attempt to add duplicate label: x".to_string())
    );
    assert!(table.has("z"));
}

#[test]
fn instructions_are_counted_in_sixteen_bits() {
    let full = "@0\n".repeat(65535);
    let text = assemble(&full).unwrap();
    assert_eq!(text.len(), 17 * 65535);
    let over = "@0\n".repeat(65536);
    assert_eq!(assemble(&over), Err("too many instructions".to_string()));
}
