use hack_toolchain::vm_translator::ir::{AsmIr, Comp, Dest, IrParser, Jump};
use hack_toolchain::vm_translator::parser::VmCommand;

#[test]
fn test_push() {
    let name = "test.vm".to_string();
    let mut translator = IrParser::new(&name);
    let command = VmCommand::Gt;
    let result = translator.parse(command);
    assert!(result.is_ok());

    let as_string = translator
        .commands
        .into_iter()
        .map(|x| x.to_string())
        .collect::<Vec<String>>()
        .join("");

    println!("{}", as_string);
}

fn lowered(command: VmCommand) -> Vec<AsmIr> {
    let mut translator = IrParser::new("Test.vm");
    translator.parse(command).unwrap();
    translator.commands
}

fn comment(text: &str) -> AsmIr {
    AsmIr::Comment(format!("// {}\n", text))
}

#[test]
fn ir_lowers_arithmetic() {
    assert_eq!(
        lowered(VmCommand::Add),
        vec![comment("Add"), AsmIr::Pop, AsmIr::DecAssign(Dest::Mem, Comp::DataPlusMem)]
    );
    assert_eq!(
        lowered(VmCommand::Sub),
        vec![comment("Sub"), AsmIr::Pop, AsmIr::DecAssign(Dest::Mem, Comp::MemMinusData)]
    );
    assert_eq!(
        lowered(VmCommand::And),
        vec![comment("And"), AsmIr::Pop, AsmIr::DecAssign(Dest::Mem, Comp::DataAndMem)]
    );
    assert_eq!(
        lowered(VmCommand::Or),
        vec![comment("Or"), AsmIr::Pop, AsmIr::DecAssign(Dest::Mem, Comp::DataOrMem)]
    );
    assert_eq!(
        lowered(VmCommand::Neg),
        vec![comment("Neg"), AsmIr::TopAssign(Dest::Mem, Comp::NegMem)]
    );
    assert_eq!(
        lowered(VmCommand::Not),
        vec![comment("Not"), AsmIr::TopAssign(Dest::Mem, Comp::NotMem)]
    );
}

#[test]
fn ir_comparisons_take_fresh_labels() {
    let mut translator = IrParser::new("Test.vm");
    translator.parse(VmCommand::Gt).unwrap();
    translator.parse(VmCommand::Eq).unwrap();
    translator.parse(VmCommand::Lt).unwrap();
    assert_eq!(translator.conditional_counter, 3);
    let expected_first = vec![
        comment("Comparison JGT"),
        AsmIr::Pop,
        AsmIr::DecAssign(Dest::Data, Comp::MemMinusData),
        AsmIr::Jump("JGT_TRUE_Test.vm.0".to_string(), Jump::Jgt),
        AsmIr::TopAssign(Dest::Mem, Comp::Zero),
        AsmIr::Jump("JGT_END_Test.vm.0".to_string(), Jump::Jmp),
        AsmIr::Label("JGT_TRUE_Test.vm.0".to_string()),
        AsmIr::TopAssign(Dest::Mem, Comp::NegOne),
        AsmIr::Label("JGT_END_Test.vm.0".to_string()),
    ];
    assert_eq!(&translator.commands[..9], &expected_first[..]);
    assert_eq!(
        translator.commands[12],
        AsmIr::Jump("JEQ_TRUE_Test.vm.1".to_string(), Jump::Jeq)
    );
    assert_eq!(
        translator.commands[26],
        AsmIr::Label("JLT_END_Test.vm.2".to_string())
    );
    assert_eq!(translator.commands.len(), 27);
}

#[test]
fn ir_lowers_pushes() {
    let push = |segment: &'static str, index: u16| lowered(VmCommand::Push { segment, index });
    assert_eq!(
        push("constant", 7),
        vec![comment("Push constant 7"), AsmIr::LoadConstant(7), AsmIr::Push]
    );
    assert_eq!(
        push("static", 3),
        vec![
            comment("Push static 3"),
            AsmIr::LoadAddress("Test.vm.3".to_string()),
            AsmIr::Push
        ]
    );
    assert_eq!(
        push("pointer", 0),
        vec![comment("Push pointer 0"), AsmIr::LoadAddress("THIS".to_string()), AsmIr::Push]
    );
    assert_eq!(
        push("pointer", 1),
        vec![comment("Push pointer 1"), AsmIr::LoadAddress("THAT".to_string()), AsmIr::Push]
    );
    assert_eq!(
        push("temp", 0),
        vec![comment("Push temp 0"), AsmIr::LoadAddress("R5".to_string()), AsmIr::Push]
    );
    assert_eq!(
        push("temp", 7),
        vec![comment("Push temp 7"), AsmIr::LoadAddress("R12".to_string()), AsmIr::Push]
    );
    for (segment, base) in [("local", "LCL"), ("argument", "ARG"), ("this", "THIS"), ("that", "THAT")] {
        assert_eq!(
            push(segment, 32767),
            vec![
                comment(&format!("Push {} 32767", segment)),
                AsmIr::LoadOffset(base.to_string(), 32767),
                AsmIr::Push
            ]
        );
    }
}

#[test]
fn ir_lowers_pops() {
    let pop = |segment: &'static str, index: u16| lowered(VmCommand::Pop { segment, index });
    assert_eq!(
        pop("static", 8),
        vec![
            comment("Pop static 8"),
            AsmIr::Pop,
            AsmIr::WriteToAddress("Test.vm.8".to_string())
        ]
    );
    assert_eq!(
        pop("pointer", 0),
        vec![comment("Pop pointer 0"), AsmIr::Pop, AsmIr::WriteToAddress("THIS".to_string())]
    );
    assert_eq!(
        pop("pointer", 1),
        vec![comment("Pop pointer 1"), AsmIr::Pop, AsmIr::WriteToAddress("THAT".to_string())]
    );
    assert_eq!(
        pop("temp", 7),
        vec![comment("Pop temp 7"), AsmIr::Pop, AsmIr::WriteToAddress("R12".to_string())]
    );
    for (segment, base) in [("local", "LCL"), ("argument", "ARG"), ("this", "THIS"), ("that", "THAT")] {
        assert_eq!(
            pop(segment, 2),
            vec![
                comment(&format!("Pop {} 2", segment)),
                AsmIr::StoreOffset(base.to_string(), 2),
                AsmIr::Pop,
                AsmIr::DerefWrite("R13".to_string())
            ]
        );
    }
}

#[test]
fn ir_refuses_what_cannot_be_lowered() {
    let mut translator = IrParser::new("Test.vm");
    assert!(translator.parse(VmCommand::Push { segment: "temp", index: 7 }).is_ok());
    assert_eq!(
        translator.parse(VmCommand::Push { segment: "temp", index: 8 }),
        Err("Invalid index for push temp, received 8".to_string())
    );
    assert_eq!(
        translator.parse(VmCommand::Pop { segment: "temp", index: 300 }),
        Err("Invalid index for pop temp, received 300".to_string())
    );
    assert_eq!(
        translator.parse(VmCommand::Pop { segment: "constant", index: 1 }),
        Err("Invalid segment".to_string())
    );
    assert_eq!(
        translator.parse(VmCommand::Push { segment: "pointer", index: 2 }),
        Err("Invalid segment".to_string())
    );
    assert_eq!(
        translator.parse(VmCommand::Push { segment: "heap", index: 0 }),
        Err("Invalid segment".to_string())
    );
    // a refused memory command leaves its comment behind
    assert_eq!(
        &translator.commands[3..],
        &[
            comment("Push temp 8"),
            comment("Pop temp 300"),
            comment("Pop constant 1"),
            comment("Push pointer 2"),
            comment("Push heap 0"),
        ][..]
    );
}

#[test]
fn ir_renders_every_node() {
    let render = |node: AsmIr| node.to_string();
    assert_eq!(render(AsmIr::Push), "@SP\nA=M\nM=D\n@SP\nM=M+1\n");
    assert_eq!(render(AsmIr::Pop), "@SP\nAM=M-1\nD=M\n");
    assert_eq!(
        render(AsmIr::DecAssign(Dest::Mem, Comp::DataPlusMem)),
        "A=A-1\nM=D+M\n"
    );
    assert_eq!(
        render(AsmIr::TopAssign(Dest::Mem, Comp::NegMem)),
        "@SP\nA=M-1\nM=-M\n"
    );
    assert_eq!(
        render(AsmIr::LoadOffset("LCL".to_string(), 12)),
        "@12\nD=A\n@LCL\nA=D+M\nD=M\n"
    );
    assert_eq!(render(AsmIr::LoadConstant(32767)), "@32767\nD=A\n");
    assert_eq!(render(AsmIr::LoadConstant(0)), "@0\nD=A\n");
    assert_eq!(render(AsmIr::LoadAddress("R5".to_string())), "@R5\nD=M\n");
    assert_eq!(
        render(AsmIr::WriteToAddress("THAT".to_string())),
        "@THAT\nM=D\n"
    );
    assert_eq!(
        render(AsmIr::StoreOffset("ARG".to_string(), 10305)),
        "@10305\nD=A\n@ARG\nD=D+M\n@R13\nM=D\n"
    );
    assert_eq!(render(AsmIr::DerefWrite("R13".to_string())), "@R13\nA=M\nM=D\n");
    assert_eq!(AsmIr::deref_write("R14".to_string()), "@R14\nA=M\nM=D\n");
    assert_eq!(
        render(AsmIr::Jump("END".to_string(), Jump::Jle)),
        "@END\nD;JLE\n"
    );
    assert_eq!(render(AsmIr::Label("END".to_string())), "(END)\n");
    assert_eq!(render(AsmIr::Assign(Dest::Addr, Comp::Mem)), "A=M\n");
    assert_eq!(render(AsmIr::Address("SP".to_string())), "@SP\n");
    assert_eq!(render(AsmIr::Comment("// hi\n".to_string())), "// hi\n");
}

#[test]
fn ir_mnemonics() {
    let comps = [
        (Comp::Zero, "0"), (Comp::NegOne, "-1"), (Comp::One, "1"), (Comp::Data, "D"),
        (Comp::Mem, "M"), (Comp::Addr, "A"), (Comp::NotData, "!D"), (Comp::NotMem, "!M"),
        (Comp::NotAddr, "!A"), (Comp::NegData, "-D"), (Comp::NegMem, "-M"),
        (Comp::NegAddr, "-A"), (Comp::DataPlusOne, "D+1"), (Comp::MemPlusOne, "M+1"),
        (Comp::AddrPlusOne, "A+1"), (Comp::DataMinusOne, "D-1"), (Comp::MemMinusOne, "M-1"),
        (Comp::AddrMinusOne, "A-1"), (Comp::DataPlusAddr, "D+A"), (Comp::DataPlusMem, "D+M"),
        (Comp::DataMinusAddr, "D-A"), (Comp::AddrMinusData, "A-D"),
        (Comp::MemMinusData, "M-D"), (Comp::DataAndAddr, "D&A"), (Comp::DataAndMem, "D&M"),
        (Comp::DataOrAddr, "D|A"), (Comp::DataOrMem, "D|M"),
    ];
    for (comp, text) in comps {
        assert_eq!(comp.as_str(), text);
    }
    let dests = [
        (Dest::Mem, "M"), (Dest::Data, "D"), (Dest::DataMem, "DM"), (Dest::Addr, "A"),
        (Dest::AddrMem, "AM"), (Dest::AddrData, "AD"), (Dest::All, "ADM"),
    ];
    for (dest, text) in dests {
        assert_eq!(dest.as_str(), text);
    }
    let jumps = [
        (Jump::Jgt, "JGT"), (Jump::Jeq, "JEQ"), (Jump::Jge, "JGE"), (Jump::Jlt, "JLT"),
        (Jump::Jne, "JNE"), (Jump::Jle, "JLE"), (Jump::Jmp, "JMP"),
    ];
    for (jump, text) in jumps {
        assert_eq!(jump.as_str(), text);
    }
}

fn optimized(nodes: Vec<AsmIr>) -> Vec<AsmIr> {
    let mut translator = IrParser::new("Test.vm");
    translator.commands = nodes;
    translator.optimize();
    translator.commands
}

fn collapsed() -> Vec<AsmIr> {
    vec![AsmIr::Address("SP".to_string()), AsmIr::Assign(Dest::Addr, Comp::Mem)]
}

#[test]
fn peephole_collapses_a_push_before_a_pop() {
    assert_eq!(optimized(vec![AsmIr::Push, AsmIr::Pop]), collapsed());
    let mut with_comment = collapsed();
    with_comment.push(comment("Add"));
    with_comment.push(AsmIr::DecAssign(Dest::Mem, Comp::DataPlusMem));
    assert_eq!(
        optimized(vec![
            AsmIr::Push,
            comment("Add"),
            AsmIr::Pop,
            AsmIr::DecAssign(Dest::Mem, Comp::DataPlusMem)
        ]),
        with_comment
    );
}

#[test]
fn peephole_keeps_everything_else_in_order() {
    let untouched = vec![
        comment("Push constant 7"),
        AsmIr::LoadConstant(7),
        AsmIr::Push,
        comment("Neg"),
        AsmIr::TopAssign(Dest::Mem, Comp::NegMem),
        AsmIr::Pop,
        AsmIr::Push,
    ];
    assert_eq!(optimized(untouched.clone()), untouched);
    assert_eq!(optimized(vec![]), vec![]);
    assert_eq!(optimized(vec![AsmIr::Push]), vec![AsmIr::Push]);
    assert_eq!(optimized(vec![comment("x")]), vec![comment("x")]);
    // a comment at the very end stays where it is
    assert_eq!(
        optimized(vec![AsmIr::Push, comment("x")]),
        vec![AsmIr::Push, comment("x")]
    );
    // only one comment is looked past
    let two_comments = vec![AsmIr::Push, comment("x"), comment("y"), AsmIr::Pop];
    assert_eq!(optimized(two_comments.clone()), two_comments);
    // pairs are taken from the left
    let mut expected = collapsed();
    expected.push(AsmIr::Pop);
    assert_eq!(optimized(vec![AsmIr::Push, AsmIr::Pop, AsmIr::Pop]), expected);
    let mut expected = vec![AsmIr::Push];
    expected.extend(collapsed());
    assert_eq!(optimized(vec![AsmIr::Push, AsmIr::Push, AsmIr::Pop]), expected);
}

#[test]
fn peephole_on_a_lowered_program() {
    let mut translator = IrParser::new("Test.vm");
    translator.parse(VmCommand::Push { segment: "constant", index: 7 }).unwrap();
    translator.parse(VmCommand::Push { segment: "constant", index: 8 }).unwrap();
    translator.parse(VmCommand::Add).unwrap();
    translator.optimize();
    assert_eq!(
        translator.commands,
        vec![
            comment("Push constant 7"),
            AsmIr::LoadConstant(7),
            AsmIr::Push,
            comment("Push constant 8"),
            AsmIr::LoadConstant(8),
            AsmIr::Address("SP".to_string()),
            AsmIr::Assign(Dest::Addr, Comp::Mem),
            comment("Add"),
            AsmIr::DecAssign(Dest::Mem, Comp::DataPlusMem),
        ]
    );
}
