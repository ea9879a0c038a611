use vstd::prelude::*;
use crate::cpu::{err_positions, ok_values, CpuState, CPU};
use crate::instr::Instr;
use crate::parse::{parse_line, parse_string, ParseError};

verus! {

/// A command of the inspection shell, one letter per line.
#[derive(Clone, Copy, Debug, PartialEq, Eq, Structural)]
pub enum Command {
    Quit,
    Help,
    Registers,
    InstructionMem,
    Step,
    CpuState,
    AddInstruction,
    LoadFile,
    Unknown,
}

/// The command that a line names.
pub open spec fn command_of(line: Seq<char>) -> Command {
    if line.len() != 1 {
        Command::Unknown
    } else {
        let c = line[0];
        if c == 'q' {
            Command::Quit
        } else if c == 'h' {
            Command::Help
        } else if c == 'r' {
            Command::Registers
        } else if c == 'i' {
            Command::InstructionMem
        } else if c == 'n' {
            Command::Step
        } else if c == 'c' {
            Command::CpuState
        } else if c == 'a' {
            Command::AddInstruction
        } else if c == 'l' {
            Command::LoadFile
        } else {
            Command::Unknown
        }
    }
}

/// Reads a shell command.
pub fn parse_command(line: &str) -> (r: Command)
    ensures
        r == command_of(line@),
{
    if line.unicode_len() != 1 {
        return Command::Unknown;
    }
    let c = line.get_char(0);
    if c == 'q' {
        Command::Quit
    } else if c == 'h' {
        Command::Help
    } else if c == 'r' {
        Command::Registers
    } else if c == 'i' {
        Command::InstructionMem
    } else if c == 'n' {
        Command::Step
    } else if c == 'c' {
        Command::CpuState
    } else if c == 'a' {
        Command::AddInstruction
    } else if c == 'l' {
        Command::LoadFile
    } else {
        Command::Unknown
    }
}

/// Why the shell did not queue an instruction.
#[derive(Clone, Copy, Debug, PartialEq, Eq, Structural)]
pub enum AddError {
    /// The line is not an instruction.
    Parse(ParseError),
    /// The instruction names a register outside the register file.
    RegisterOutOfRange,
}

/// Whether some successful result names a register outside the register file.
pub open spec fn some_out_of_range<E>(rs: Seq<Result<Instr, E>>) -> bool {
    exists|i: int| 0 <= i < rs.len() && (#[trigger] rs[i]) is Ok && !rs[i]->Ok_0.regs_valid()
}

/// The inspection shell's state: the controller it drives.
pub struct Debugger {
    cpu: CPU,
}

impl Debugger {
    pub closed spec fn state(&self) -> CpuState {
        self.cpu@
    }

    pub open spec fn wf(&self) -> bool {
        self.state().wf()
    }

    /// A shell over a fresh controller.
    pub fn new() -> (d: Debugger)
        ensures
            d.state() == CpuState::initial(),
            d.wf(),
    {
        Debugger { cpu: CPU::new() }
    }

    /// The controller, for inspection.
    pub fn cpu(&self) -> (c: &CPU)
        ensures
            c@ == self.state(),
    {
        &self.cpu
    }

    /// Runs one tick.
    pub fn clock_tick(&mut self)
        requires
            old(self).wf(),
        ensures
            final(self).state() == old(self).state().tick(),
            final(self).wf(),
    {
        self.cpu.clock_tick();
    }

    /// Parses a line and queues the instruction it writes.
    pub fn add_instruction(&mut self, line: &String) -> (r: Result<Instr, AddError>)
        requires
            old(self).wf(),
        ensures
            final(self).wf(),
            match parse_line(line@) {
                Err(e) => r == Err::<Instr, AddError>(AddError::Parse(e)) && final(self).state()
                    == old(self).state(),
                Ok(i) => if i.regs_valid() {
                    r == Ok::<Instr, AddError>(i) && final(self).state() == (CpuState {
                        queue: old(self).state().queue.push(i),
                        ..old(self).state()
                    })
                } else {
                    r == Err::<Instr, AddError>(AddError::RegisterOutOfRange) && final(self).state()
                        == old(self).state()
                },
            },
    {
        match parse_string(line) {
            Err(e) => Err(AddError::Parse(e)),
            Ok(i) => {
                if !i.registers_in_range() {
                    return Err(AddError::RegisterOutOfRange);
                }
                let v: Vec<Result<Instr, ParseError>> = vec![Ok(i)];
                let _ = self.cpu.load_instructions(&v);
                proof {
                    let rs = v@;
                    assert(rs.len() == 1 && rs[0] == Ok::<Instr, ParseError>(i));
                    assert(rs.drop_last() =~= Seq::<Result<Instr, ParseError>>::empty());
                    assert(ok_values(rs.drop_last()) =~= Seq::<Instr>::empty());
                    assert(ok_values(rs) =~= seq![i]);
                    assert(old(self).state().queue + seq![i] =~= old(self).state().queue.push(i));
                }
                Ok(i)
            },
        }
    }

    /// Loads parsed lines: queues the successful ones in order and returns the
    /// positions of the failed ones. If a successful one names a register outside the
    /// register file, nothing is loaded and its position is the error.
    pub fn load(&mut self, results: &Vec<Result<Instr, ParseError>>) -> (r: Result<Vec<usize>, usize>)
        requires
            old(self).wf(),
        ensures
            final(self).wf(),
            some_out_of_range(results@) <==> r is Err,
            match r {
                Ok(failed) => failed@ == err_positions(results@) && final(self).state()
                    == (CpuState {
                    queue: old(self).state().queue + ok_values(results@),
                    ..old(self).state()
                }),
                Err(k) => 0 <= k < results@.len() && results@[k as int] is Ok
                    && !results@[k as int]->Ok_0.regs_valid() && final(self).state()
                    == old(self).state(),
            },
    {
        let n = results.len();
        let mut i: usize = 0;
        while i < n
            invariant
                n == results@.len(),
                i <= n,
                self.wf(),
                self.state() == old(self).state(),
                forall|j: int|
                    0 <= j < i && (#[trigger] results@[j]) is Ok ==> results@[j]->Ok_0.regs_valid(),
            decreases n - i,
        {
            match &results[i] {
                Ok(ins) => {
                    if !ins.registers_in_range() {
                        return Err(i);
                    }
                },
                Err(_) => {},
            }
            i = i + 1;
        }
        let failed = self.cpu.load_instructions(results);
        Ok(failed)
    }
}

} // verus!
