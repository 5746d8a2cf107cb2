use hack_toolchain::vm_translator::parser::{VmCommand, VmParser};
use hack_toolchain::vm_translator::token::{Token, TokenType, Tokenizer};

#[test]
fn test_parser() {
    let source = "push constant 7\npush constant 8\nadd\n";
    let mut parser = VmParser::new(source);
    let command = parser.next_command().unwrap();
    assert_eq!(
        command,
        VmCommand::Push {
            segment: "constant",
            index: 7
        }
    );
    let command = parser.next_command().unwrap();
    assert_eq!(
        command,
        VmCommand::Push {
            segment: "constant",
            index: 8
        }
    );
    let command = parser.next_command().unwrap();
    assert_eq!(command, VmCommand::Add);
}

#[test]
fn test_parser_error() {
    let source = "push constant 7\npush constant 8\nadd\n";
    let mut parser = VmParser::new(source);
    let _ = parser.next_command().unwrap();
    let _ = parser.next_command().unwrap();
    let _ = parser.next_command().unwrap();
    let result = parser.next_command();
    assert_eq!(result, Err("Unexpected end of file".to_string()));
}

#[test]
fn test_parser_error_invalid_command() {
    let source = "push constant 7\nxor constant 8\nadd\n";
    let mut parser = VmParser::new(source);
    let _ = parser.next_command().unwrap();
    let result = parser.next_command();
    assert_eq!(result, Err("Invalid command: xor".to_string()));
}

fn command(source: &str) -> Result<VmCommand, String> {
    VmParser::new(source).next_command()
}

#[test]
fn vm_parser_reads_every_opcode() {
    assert_eq!(command("add"), Ok(VmCommand::Add));
    assert_eq!(command("sub"), Ok(VmCommand::Sub));
    assert_eq!(command("neg"), Ok(VmCommand::Neg));
    assert_eq!(command("eq"), Ok(VmCommand::Eq));
    assert_eq!(command("gt"), Ok(VmCommand::Gt));
    assert_eq!(command("lt"), Ok(VmCommand::Lt));
    assert_eq!(command("and"), Ok(VmCommand::And));
    assert_eq!(command("or"), Ok(VmCommand::Or));
    assert_eq!(command("not"), Ok(VmCommand::Not));
    for segment in ["argument", "local", "static", "constant", "this", "that", "pointer", "temp"] {
        let source = format!("// move\n\tpush   {}\t12 // twelve\n", segment);
        assert_eq!(command(&source), Ok(VmCommand::Push { segment, index: 12 }));
        let source = format!("pop {} 0", segment);
        assert_eq!(command(&source), Ok(VmCommand::Pop { segment, index: 0 }));
    }
}

#[test]
fn vm_parser_index_bounds() {
    assert_eq!(
        command("push constant 32767"),
        Ok(VmCommand::Push { segment: "constant", index: 32767 })
    );
    assert_eq!(
        command("push constant 32768"),
        Err("Index out of bounds: 32768".to_string())
    );
    assert_eq!(
        command("push constant 65535"),
        Err("Index out of bounds: 65535".to_string())
    );
    assert_eq!(
        command("push constant 65536"),
        Err("Invalid index: number too large to fit in target type".to_string())
    );
    assert_eq!(
        command("push constant 12x"),
        Err("Invalid index: invalid digit found in string".to_string())
    );
    assert_eq!(
        command("push constant -1"),
        Err("Invalid index: invalid digit found in string".to_string())
    );
    assert_eq!(
        command("push constant +"),
        Err("Invalid index: invalid digit found in string".to_string())
    );
    assert_eq!(
        command("push constant +5"),
        Ok(VmCommand::Push { segment: "constant", index: 5 })
    );
    assert_eq!(
        command("push constant 99999x"),
        Err("Invalid index: number too large to fit in target type".to_string())
    );
    assert_eq!(
        command("push constant \n"),
        Err("Invalid index: invalid digit found in string".to_string())
    );
}

#[test]
fn vm_parser_errors() {
    assert_eq!(command(""), Err("Unexpected end of file".to_string()));
    assert_eq!(command("push"), Err("Unexpected end of file".to_string()));
    assert_eq!(command("push local "), Err("Unexpected end of file".to_string()));
    assert_eq!(
        command("push heap 1"),
        Err("Invalid segment: \"heap\"".to_string())
    );
    assert_eq!(
        command("push\nlocal 1"),
        Err("Invalid segment: \"\\n\"".to_string())
    );
    assert_eq!(command("Add"), Err("Invalid command: Add".to_string()));
    assert_eq!(command("goto END"), Err("Invalid command: goto".to_string()));
}

#[test]
fn vm_parser_is_done_after_the_last_token() {
    let mut parser = VmParser::new("add\n");
    assert!(!parser.is_done());
    assert_eq!(parser.next_command(), Ok(VmCommand::Add));
    assert!(!parser.is_done());
    assert!(parser.next_command().is_err());
    assert!(parser.is_done());
    assert!(VmParser::new("").is_done());
}

#[test]
fn vm_parser_matches_a_command_by_its_first_token() {
    let source = "add";
    let first = Tokenizer::new(source).take_tokens()[0];
    assert_eq!(first, Token { token_type: TokenType::Text, start: 0, end: 3 });
    let mut parser = VmParser::new(source);
    assert_eq!(parser.match_command(first), Ok(VmCommand::Add));
    // the operands are read from the parser's own position
    let source = "local 3 pop";
    let last = Token { token_type: TokenType::Text, start: 8, end: 11 };
    let mut parser = VmParser::new(source);
    assert_eq!(
        parser.match_command(last),
        Ok(VmCommand::Pop { segment: "local", index: 3 })
    );
}
