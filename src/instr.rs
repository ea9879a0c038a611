use vstd::prelude::*;

verus! {

/// Number of slots in the register file.
pub const NUM_REGISTERS: usize = 256;

/// One machine instruction. Register indices and immediates are `u32`.
#[derive(Clone, Copy, Debug, PartialEq, Eq, Structural)]
pub enum Instr {
    /// `movi dest val`: `reg[dest] <- val`.
    Movi(u32, u32),
    /// `mov dest src`: `reg[dest] <- reg[src]`.
    Mov(u32, u32),
    /// `addi dest val`: `reg[dest] <- reg[dest] + val`.
    Addi(u32, u32),
    /// `subi dest val`: `reg[dest] <- reg[dest] - val`.
    Subi(u32, u32),
    /// `addr dest src1 src2`: passes through the pipeline without issuing a task.
    Addr(u32, u32, u32),
    /// `add dest src1 src2`: `reg[dest] <- reg[src1] + reg[src2]`.
    Add(u32, u32, u32),
    /// `subr dest src1 src2`: passes through the pipeline without issuing a task.
    Subr(u32, u32, u32),
    /// `sub dest src1 src2`: `reg[dest] <- reg[src1] - reg[src2]`.
    Sub(u32, u32, u32),
    /// No operation; also what an empty queue yields.
    Nop,
}

/// The pipeline stage that the next tick runs.
#[derive(Clone, Copy, Debug, PartialEq, Eq, Structural)]
pub enum Stage {
    Fetch,
    Decode,
    Execute,
    WriteBack,
}

/// Whether `r` names a slot of the register file.
pub open spec fn reg_ok(r: u32) -> bool {
    (r as int) < NUM_REGISTERS as int
}

impl Instr {
    /// Every register index that the instruction names is in range.
    pub open spec fn regs_valid(self) -> bool {
        match self {
            Instr::Movi(d, _) => reg_ok(d),
            Instr::Mov(d, s) => reg_ok(d) && reg_ok(s),
            Instr::Addi(d, _) => reg_ok(d),
            Instr::Subi(d, _) => reg_ok(d),
            Instr::Addr(d, a, b) => reg_ok(d) && reg_ok(a) && reg_ok(b),
            Instr::Add(d, a, b) => reg_ok(d) && reg_ok(a) && reg_ok(b),
            Instr::Subr(d, a, b) => reg_ok(d) && reg_ok(a) && reg_ok(b),
            Instr::Sub(d, a, b) => reg_ok(d) && reg_ok(a) && reg_ok(b),
            Instr::Nop => true,
        }
    }

    /// Completed entirely during Fetch.
    pub open spec fn is_single_cycle(self) -> bool {
        self is Movi || self is Mov
    }

    /// Handed to a functional unit at Decode.
    pub open spec fn is_arith(self) -> bool {
        self is Add || self is Sub || self is Addi || self is Subi
    }

    /// Checks `regs_valid` at run time.
    pub fn registers_in_range(&self) -> (r: bool)
        ensures
            r == self.regs_valid(),
    {
        let n = NUM_REGISTERS as u32;
        match *self {
            Instr::Movi(d, _) => d < n,
            Instr::Mov(d, s) => d < n && s < n,
            Instr::Addi(d, _) => d < n,
            Instr::Subi(d, _) => d < n,
            Instr::Addr(d, a, b) => d < n && a < n && b < n,
            Instr::Add(d, a, b) => d < n && a < n && b < n,
            Instr::Subr(d, a, b) => d < n && a < n && b < n,
            Instr::Sub(d, a, b) => d < n && a < n && b < n,
            Instr::Nop => true,
        }
    }
}

} // verus!
