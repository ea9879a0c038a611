use vstd::prelude::*;
use crate::instr::Instr;

verus! {

/// The operation an arithmetic unit performs.
#[derive(Clone, Copy, Debug, PartialEq, Eq, Structural)]
pub enum Op {
    Add,
    Sub,
}

/// `x op y` over `u32`, wrapping modulo 2^32.
pub open spec fn apply_op(op: Op, x: u32, y: u32) -> u32 {
    match op {
        Op::Add => ((x as int + y as int) % 0x1_0000_0000) as u32,
        Op::Sub => ((x as int - y as int) % 0x1_0000_0000) as u32,
    }
}

/// A functional unit: computes a deferred result on behalf of one instruction.
pub trait Unit {
    /// `execute` has run since the operands were bound.
    spec fn executed(&self) -> bool;

    /// The value that `execute` computes from the bound operands.
    spec fn outcome(&self) -> u32;

    /// The instruction whose result the unit computes.
    spec fn owner(&self) -> Instr;

    /// Computes and stores the result.
    fn execute(&mut self)
        ensures
            final(self).executed(),
            final(self).outcome() == old(self).outcome(),
            final(self).owner() == old(self).owner(),
    ;

    /// The computed result; only available after `execute`.
    fn result(&self) -> (r: u32)
        requires
            self.executed(),
        ensures
            r == self.outcome(),
    ;

    /// The instruction whose result the unit computes.
    fn instr(&self) -> (r: Instr)
        ensures
            r == self.owner(),
    ;

    /// Whether the unit can take work; units never stall in this model.
    fn avail(&self) -> (r: bool)
        ensures
            r,
    ;
}

/// Arithmetic unit: addition and subtraction with wraparound.
pub struct ALU {
    x: u32,
    y: u32,
    r: u32,
    op: Op,
    done: bool,
    instr: Instr,
}

impl ALU {
    pub closed spec fn operands(&self) -> (u32, u32) {
        (self.x, self.y)
    }

    pub closed spec fn operation(&self) -> Op {
        self.op
    }

    /// An idle unit bound to no instruction.
    pub fn new() -> (a: Self)
        ensures
            !a.executed(),
            a.owner() == Instr::Nop,
            a.outcome() == 0,
    {
        ALU { x: 0, y: 0, r: 0, op: Op::Add, done: false, instr: Instr::Nop }
    }

    /// Binds the operands and operation, and remembers the requesting instruction.
    pub fn issue(&mut self, instr: Instr, x: u32, y: u32, op: Op)
        ensures
            !final(self).executed(),
            final(self).owner() == instr,
            final(self).operands() == (x, y),
            final(self).operation() == op,
            final(self).outcome() == apply_op(op, x, y),
    {
        self.x = x;
        self.y = y;
        self.op = op;
        self.done = false;
        self.instr = instr;
    }
}

impl Unit for ALU {
    closed spec fn executed(&self) -> bool {
        self.done && self.r == apply_op(self.op, self.x, self.y)
    }

    closed spec fn outcome(&self) -> u32 {
        apply_op(self.op, self.x, self.y)
    }

    closed spec fn owner(&self) -> Instr {
        self.instr
    }

    fn execute(&mut self) {
        self.r = match self.op {
            Op::Add => self.x.wrapping_add(self.y),
            Op::Sub => self.x.wrapping_sub(self.y),
        };
        self.done = true;
    }

    fn result(&self) -> u32 {
        self.r
    }

    fn instr(&self) -> Instr {
        self.instr
    }

    fn avail(&self) -> bool {
        true
    }
}

} // verus!
