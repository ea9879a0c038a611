use pipeline_cpu::debugger::{parse_command, AddError, Command, Debugger};
use pipeline_cpu::instr::Instr;
use pipeline_cpu::parse::ParseError;

#[test]
fn commands_are_single_letters() {
    assert_eq!(parse_command("q"), Command::Quit);
    assert_eq!(parse_command("h"), Command::Help);
    assert_eq!(parse_command("r"), Command::Registers);
    assert_eq!(parse_command("i"), Command::InstructionMem);
    assert_eq!(parse_command("n"), Command::Step);
    assert_eq!(parse_command("c"), Command::CpuState);
    assert_eq!(parse_command("a"), Command::AddInstruction);
    assert_eq!(parse_command("l"), Command::LoadFile);
    assert_eq!(parse_command("x"), Command::Unknown);
    assert_eq!(parse_command("qq"), Command::Unknown);
    assert_eq!(parse_command(""), Command::Unknown);
}

#[test]
fn shell_adds_and_steps() {
    let mut d = Debugger::new();
    assert_eq!(d.add_instruction(&String::from("movi r3 #9")), Ok(Instr::Movi(3, 9)));
    assert_eq!(
        d.add_instruction(&String::from("movi r3 9")),
        Err(AddError::Parse(ParseError::BadOperand))
    );
    assert_eq!(d.add_instruction(&String::from("movi r256 #1")), Err(AddError::RegisterOutOfRange));
    assert_eq!(d.cpu().instruction_mem.len(), 1);
    d.clock_tick();
    assert_eq!(d.cpu().registers[3], 9);
}

#[test]
fn shell_load_checks_registers() {
    let mut d = Debugger::new();
    let bad = vec![Ok(Instr::Movi(0, 1)), Ok(Instr::Mov(1, 900))];
    assert_eq!(d.load(&bad), Err(1));
    assert_eq!(d.cpu().instruction_mem.len(), 0);
    let good = vec![Ok(Instr::Movi(0, 1)), Err(ParseError::OperandCount), Ok(Instr::Mov(1, 0))];
    assert_eq!(d.load(&good), Ok(vec![1]));
    assert_eq!(d.cpu().instruction_mem.len(), 2);
}
