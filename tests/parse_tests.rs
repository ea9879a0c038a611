use pipeline_cpu::instr::Instr;
use pipeline_cpu::parse::{mnemonic, parse_operand, parse_string, split_line, to_instr, Mnemonic, ParseError};

#[test]
fn parse_mov() {
    let mut instr = vec!["mov", "r0", "#1"];
    let r = to_instr(&mut instr);
    match r {
        Ok(Instr::Mov(0, 1)) => (),
        _ => panic!("Failed to parse MOV instruction = {:?}", instr),
    }
}

#[test]
fn parse_movi() {
    let mut instr = vec!["movi", "r0", "#1"];
    let r = to_instr(&mut instr);
    match r {
        Ok(Instr::Movi(0, 1)) => (),
        _ => panic!("Failed to parse MOVI instruction = {:?}", instr),
    }
}

#[test]
fn parse_addi() {
    let mut instr = vec!["addi", "r0", "#1"];
    let r = to_instr(&mut instr);
    match r {
        Ok(Instr::Addi(0, 1)) => (),
        _ => panic!("Failed to parse ADDi instruction = {:?}", instr),
    }
}

#[test]
fn parse_subi() {
    let mut instr = vec!["subi", "r0", "#1"];
    let r = to_instr(&mut instr);
    match r {
        Ok(Instr::Subi(0, 1)) => (),
        _ => panic!("Failed to parse SUBI instruction = {:?}", instr),
    }
}

#[test]
fn parse_add() {
    let mut instr = vec!["add", "r0", "#1", "#2"];
    let r = to_instr(&mut instr);
    match r {
        Ok(Instr::Add(0, 1, 2)) => (),
        _ => panic!("Failed to parse ADD instruction = {:?}", instr),
    }
}

#[test]
fn parse_addr() {
    let mut instr = vec!["addr", "r0", "r1", "r2"];
    let r = to_instr(&mut instr);
    match r {
        Ok(Instr::Addr(0, 1, 2)) => (),
        _ => panic!("Failed to parse ADDR instruction = {:?}", instr),
    }
}

#[test]
fn parse_sub() {
    let mut instr = vec!["sub", "r0", "#1", "#2"];
    let r = to_instr(&mut instr);
    match r {
        Ok(Instr::Sub(0, 1, 2)) => (),
        _ => panic!("Failed to parse SUB instruction = {:?}", instr),
    }
}

#[test]
fn parse_subr() {
    let mut instr = vec!["subr", "r0", "r1", "r2"];
    let r = to_instr(&mut instr);
    match r {
        Ok(Instr::Subr(0, 1, 2)) => (),
        _ => panic!("Failed to parse SUBR instruction = {:?}", instr),
    }
}

#[test]
fn every_text_form_round_trips() {
    let cases = vec![
        ("mov r3 r12", Instr::Mov(3, 12)),
        ("movi r0 #42", Instr::Movi(0, 42)),
        ("addi r1 #32", Instr::Addi(1, 32)),
        ("subi r1 #10", Instr::Subi(1, 10)),
        ("add r1 r0 r0", Instr::Add(1, 0, 0)),
        ("addr r4 r5 r6", Instr::Addr(4, 5, 6)),
        ("sub r2 r1 r0", Instr::Sub(2, 1, 0)),
        ("subr r7 r8 r9", Instr::Subr(7, 8, 9)),
        ("movi r255 #4294967295", Instr::Movi(255, u32::MAX)),
    ];
    for (text, expected) in cases {
        assert_eq!(parse_string(&String::from(text)), Ok(expected), "{}", text);
    }
}

#[test]
fn unknown_mnemonic_is_rejected() {
    assert_eq!(parse_string(&String::from("mul r0 r1 r2")), Err(ParseError::UnknownInstruction));
    assert_eq!(parse_string(&String::from("MOV r0 r1")), Err(ParseError::UnknownInstruction));
    assert_eq!(parse_string(&String::from("")), Err(ParseError::UnknownInstruction));
    assert_eq!(to_instr(&Vec::new()), Err(ParseError::UnknownInstruction));
}

#[test]
fn wrong_operand_count_is_rejected() {
    assert_eq!(parse_string(&String::from("mov r0")), Err(ParseError::OperandCount));
    assert_eq!(parse_string(&String::from("add r0 r1")), Err(ParseError::OperandCount));
    assert_eq!(parse_string(&String::from("movi r0 #1 #2")), Err(ParseError::OperandCount));
    assert_eq!(parse_string(&String::from("movi  r0 #1")), Err(ParseError::OperandCount));
}

#[test]
fn bad_operand_is_rejected() {
    assert_eq!(parse_string(&String::from("movi r0 #x")), Err(ParseError::BadOperand));
    assert_eq!(parse_string(&String::from("movi r0 #")), Err(ParseError::BadOperand));
    assert_eq!(parse_string(&String::from("movi r0 #4294967296")), Err(ParseError::BadOperand));
    assert_eq!(parse_string(&String::from("add r0 r1 2")), Err(ParseError::BadOperand));
}

#[test]
fn operands_and_words() {
    assert_eq!(parse_operand("r12"), Some(12));
    assert_eq!(parse_operand("#0"), Some(0));
    assert_eq!(parse_operand("#007"), Some(7));
    assert_eq!(parse_operand("#99999999999"), None);
    assert_eq!(parse_operand("7"), None);
    assert_eq!(split_line("a  b"), vec!["a", "", "b"]);
    assert_eq!(split_line(""), vec![""]);
    assert_eq!(mnemonic("subr"), Some(Mnemonic::Subr));
    assert_eq!(mnemonic("subx"), None);
    assert_eq!(Mnemonic::Addi.string_to_instr(1, 2), Instr::Addi(1, 2));
    assert_eq!(Mnemonic::Addr.string_to_3arginstr(1, 2, 3), Instr::Addr(1, 2, 3));
}
