use pipeline_cpu::cpu::CPU;
use pipeline_cpu::instr::{Instr, Stage};
use pipeline_cpu::parse::ParseError;
use pipeline_cpu::units::{Op, Unit, ALU};
use std::collections::VecDeque;

#[test]
fn mov_tests() {
    let mut cpu = CPU::new();
    let mut instructions = VecDeque::new();
    instructions.push_back(Instr::Movi(2, 42));
    instructions.push_back(Instr::Mov(0, 2));
    cpu.load_instr_vec(&instructions);
    cpu.clock_tick();
    assert_eq!(cpu.ticks, 1);
    assert_eq!(cpu.registers[2], 42);
    assert_eq!(cpu.next_stage, Stage::Fetch);
    cpu.clock_tick();
    assert_eq!(cpu.ticks, 2);
    assert_eq!(cpu.registers[0], 42);
    assert_eq!(cpu.next_stage, Stage::Fetch);
}

#[test]
fn add_sub_tests() {
    let mut cpu = CPU::new();
    let mut instrs = VecDeque::new();
    instrs.push_back(Instr::Movi(0, 42));
    instrs.push_back(Instr::Add(1, 0, 0));
    instrs.push_back(Instr::Sub(2, 1, 0));
    cpu.load_instr_vec(&instrs);
    cpu.run_to_end();
    assert_eq!(cpu.registers[1], 84);
    assert_eq!(cpu.registers[2], 42);
}

#[test]
fn addi_subi_tests() {
    let mut cpu = CPU::new();
    let mut instrs = VecDeque::new();
    instrs.push_back(Instr::Addi(0, 42));
    instrs.push_back(Instr::Addi(1, 32));
    instrs.push_back(Instr::Subi(1, 10));
    cpu.load_instr_vec(&instrs);
    cpu.run_to_end();
    assert_eq!(cpu.registers[0], 42);
    assert_eq!(cpu.registers[1], 22);
}

#[test]
fn new_cpu_is_zeroed_and_idle() {
    let cpu = CPU::new();
    assert!(cpu.registers().iter().all(|r| *r == 0));
    assert_eq!(cpu.registers().len(), 256);
    assert_eq!(cpu.current_instruction, Instr::Nop);
    assert_eq!(cpu.next_stage, Stage::Fetch);
    assert!(cpu.finished());
}

#[test]
fn movi_completes_in_one_tick() {
    let mut cpu = CPU::new();
    let mut instrs = VecDeque::new();
    instrs.push_back(Instr::Movi(7, 99));
    cpu.load_instr_vec(&instrs);
    cpu.clock_tick();
    assert_eq!(cpu.registers[7], 99);
    assert_eq!(cpu.next_stage, Stage::Fetch);
    assert_eq!(cpu.ticks, 1);
    assert!(cpu.finished() == false);
    cpu.clock_tick();
    assert!(cpu.finished());
}

#[test]
fn arithmetic_walks_all_four_stages() {
    let mut cpu = CPU::new();
    let mut instrs = VecDeque::new();
    instrs.push_back(Instr::Addi(3, 5));
    cpu.load_instr_vec(&instrs);
    cpu.clock_tick();
    assert_eq!(cpu.next_stage, Stage::Decode);
    assert_eq!(cpu.registers[3], 0);
    cpu.clock_tick();
    assert_eq!(cpu.next_stage, Stage::Execute);
    cpu.clock_tick();
    assert_eq!(cpu.next_stage, Stage::WriteBack);
    assert_eq!(cpu.registers[3], 0);
    cpu.clock_tick();
    assert_eq!(cpu.next_stage, Stage::Fetch);
    assert_eq!(cpu.registers[3], 5);
    assert_eq!(cpu.ticks, 4);
}

#[test]
fn fetch_tracks_previous_and_next() {
    let mut cpu = CPU::new();
    let mut instrs = VecDeque::new();
    instrs.push_back(Instr::Movi(0, 1));
    instrs.push_back(Instr::Movi(1, 2));
    instrs.push_back(Instr::Add(2, 0, 1));
    cpu.load_instr_vec(&instrs);
    cpu.clock_tick();
    assert_eq!(cpu.current_instruction, Instr::Movi(0, 1));
    assert_eq!(cpu.prev_instruction, Instr::Nop);
    assert_eq!(cpu.next_instruction, Instr::Movi(1, 2));
    cpu.clock_tick();
    assert_eq!(cpu.prev_instruction, Instr::Movi(0, 1));
    assert_eq!(cpu.next_instruction, Instr::Add(2, 0, 1));
    cpu.clock_tick();
    assert_eq!(cpu.next_instruction, Instr::Nop);
    cpu.run_to_end();
    assert_eq!(cpu.registers[2], 3);
}

#[test]
fn operands_are_read_at_decode() {
    // add 1 0 0 reads register 0 before the later movi changes it.
    let mut cpu = CPU::new();
    let mut instrs = VecDeque::new();
    instrs.push_back(Instr::Movi(0, 10));
    instrs.push_back(Instr::Add(1, 0, 0));
    instrs.push_back(Instr::Movi(0, 1));
    cpu.load_instr_vec(&instrs);
    cpu.run_to_end();
    assert_eq!(cpu.registers[1], 20);
    assert_eq!(cpu.registers[0], 1);
}

#[test]
fn arithmetic_wraps_around() {
    let mut cpu = CPU::new();
    let mut instrs = VecDeque::new();
    instrs.push_back(Instr::Subi(0, 1));
    instrs.push_back(Instr::Movi(1, u32::MAX));
    instrs.push_back(Instr::Addi(1, 2));
    instrs.push_back(Instr::Sub(2, 3, 1));
    cpu.load_instr_vec(&instrs);
    cpu.run_to_end();
    assert_eq!(cpu.registers[0], u32::MAX);
    assert_eq!(cpu.registers[1], 1);
    assert_eq!(cpu.registers[2], u32::MAX);
}

#[test]
fn register_forms_without_a_task_change_nothing() {
    let mut cpu = CPU::new();
    let mut instrs = VecDeque::new();
    instrs.push_back(Instr::Movi(0, 4));
    instrs.push_back(Instr::Addr(1, 0, 0));
    instrs.push_back(Instr::Subr(2, 0, 0));
    cpu.load_instr_vec(&instrs);
    cpu.run_to_end();
    assert_eq!(cpu.registers[1], 0);
    assert_eq!(cpu.registers[2], 0);
    assert_eq!(cpu.ticks, 10);
}

#[test]
fn finished_cpu_runs_zero_ticks() {
    let mut cpu = CPU::new();
    assert!(cpu.finished());
    cpu.run_to_end();
    assert_eq!(cpu.ticks, 0);
    assert_eq!(cpu.current_instruction, Instr::Nop);
}

#[test]
fn same_program_same_registers() {
    let mut instrs = VecDeque::new();
    instrs.push_back(Instr::Movi(0, 42));
    instrs.push_back(Instr::Add(1, 0, 0));
    instrs.push_back(Instr::Subi(1, 2));
    instrs.push_back(Instr::Mov(3, 1));
    let mut a = CPU::new();
    let mut b = CPU::new();
    a.load_instr_vec(&instrs);
    b.load_instr_vec(&instrs);
    for _ in 0..5 {
        a.clock_tick();
        b.clock_tick();
    }
    assert_eq!(a.registers(), b.registers());
    a.run_to_end();
    b.run_to_end();
    assert_eq!(a.registers(), b.registers());
    assert_eq!(a.registers[3], 82);
}

#[test]
fn load_skips_one_failure_and_keeps_order() {
    let mut cpu = CPU::new();
    let results: Vec<Result<Instr, ParseError>> = vec![
        Ok(Instr::Movi(0, 1)),
        Ok(Instr::Addi(0, 2)),
        Err(ParseError::BadOperand),
        Ok(Instr::Mov(1, 0)),
    ];
    let failed = cpu.load_instructions(&results);
    assert_eq!(failed, vec![2]);
    let queued: Vec<Instr> = cpu.instruction_mem.iter().cloned().collect();
    assert_eq!(queued, vec![Instr::Movi(0, 1), Instr::Addi(0, 2), Instr::Mov(1, 0)]);
    cpu.run_to_end();
    assert_eq!(cpu.registers[1], 3);
}

#[test]
fn loads_are_additive() {
    let mut cpu = CPU::new();
    let first: Vec<Result<Instr, String>> = vec![Ok(Instr::Movi(0, 5))];
    let second: Vec<Result<Instr, String>> = vec![Err(String::from("bad")), Ok(Instr::Addi(0, 1))];
    assert!(cpu.load_instructions(&first).is_empty());
    assert_eq!(cpu.load_instructions(&second), vec![0]);
    assert_eq!(cpu.instruction_mem.len(), 2);
    cpu.run_to_end();
    assert_eq!(cpu.registers[0], 6);
}

#[test]
fn alu_computes_after_execute() {
    let mut alu = ALU::new();
    assert!(alu.avail());
    alu.issue(Instr::Sub(0, 1, 2), 3, 5, Op::Sub);
    alu.execute();
    assert_eq!(alu.result(), 3u32.wrapping_sub(5));
    assert_eq!(alu.instr(), Instr::Sub(0, 1, 2));
    alu.issue(Instr::Addi(4, 7), 7, 8, Op::Add);
    alu.execute();
    assert_eq!(alu.result(), 15);
    assert_eq!(alu.instr(), Instr::Addi(4, 7));
}

#[test]
fn register_range_check() {
    assert!(Instr::Movi(255, 1).registers_in_range());
    assert!(!Instr::Movi(256, 1).registers_in_range());
    assert!(!Instr::Add(0, 1, 300).registers_in_range());
    assert!(Instr::Nop.registers_in_range());
}
