use std::collections::VecDeque;
use vstd::prelude::*;
use crate::instr::{Instr, Stage, NUM_REGISTERS};
use crate::units::{apply_op, Op, Unit, ALU};

verus! {

/// What the controller knows of one in-flight functional-unit task.
pub struct TaskState {
    pub owner: Instr,
    pub outcome: u32,
    pub executed: bool,
}

/// The pipeline controller as a mathematical value.
pub struct CpuState {
    /// Pending instructions, front first.
    pub queue: Seq<Instr>,
    pub regs: Seq<u32>,
    pub current: Instr,
    pub prev: Instr,
    pub next: Instr,
    pub stage: Stage,
    pub ticks: u32,
    pub tasks: Seq<TaskState>,
}

pub open spec fn task_of(a: ALU) -> TaskState {
    TaskState { owner: a.owner(), outcome: a.outcome(), executed: a.executed() }
}

/// The register file after Writeback commits the results of `tasks`, in order.
pub open spec fn commit(regs: Seq<u32>, tasks: Seq<TaskState>) -> Seq<u32>
    decreases tasks.len(),
{
    if tasks.len() == 0 {
        regs
    } else {
        let before = commit(regs, tasks.drop_last());
        let t = tasks.last();
        match t.owner {
            Instr::Add(d, _, _) => before.update(d as int, t.outcome),
            Instr::Sub(d, _, _) => before.update(d as int, t.outcome),
            Instr::Addi(d, _) => before.update(d as int, t.outcome),
            Instr::Subi(d, _) => before.update(d as int, t.outcome),
            _ => before,
        }
    }
}

pub open spec fn stage_rank(st: Stage) -> nat {
    match st {
        Stage::Fetch => 0,
        Stage::Decode => 3,
        Stage::Execute => 2,
        Stage::WriteBack => 1,
    }
}

impl CpuState {
    /// The state of a freshly built controller.
    pub open spec fn initial() -> CpuState {
        CpuState {
            queue: Seq::empty(),
            regs: Seq::new(NUM_REGISTERS as nat, |i: int| 0u32),
            current: Instr::Nop,
            prev: Instr::Nop,
            next: Instr::Nop,
            stage: Stage::Fetch,
            ticks: 0,
            tasks: Seq::empty(),
        }
    }

    pub open spec fn wf(self) -> bool {
        &&& self.regs.len() == NUM_REGISTERS
        &&& forall|i: int| 0 <= i < self.queue.len() ==> (#[trigger] self.queue[i]).regs_valid()
        &&& self.current.regs_valid()
        &&& forall|i: int|
            0 <= i < self.tasks.len() ==> (#[trigger] self.tasks[i]).owner.regs_valid()
        &&& (self.stage == Stage::Fetch || self.stage == Stage::Decode) ==> self.tasks.len() == 0
        &&& self.tasks.len() <= 1
        &&& self.stage == Stage::WriteBack ==> forall|i: int|
            0 <= i < self.tasks.len() ==> (#[trigger] self.tasks[i]).executed
        &&& self.stage != Stage::Fetch ==> self.current != Instr::Nop
    }

    /// The run-to-completion condition: nothing queued and nothing current.
    pub open spec fn done(self) -> bool {
        self.queue.len() == 0 && self.current == Instr::Nop
    }

    /// Bounds the number of ticks left before `done`.
    pub open spec fn measure(self) -> nat {
        5 * self.queue.len() + stage_rank(self.stage) + if self.current == Instr::Nop {
            0nat
        } else {
            1nat
        }
    }

    /// Fetch: take the queue front (or `Nop`) as current, peek at the new front,
    /// and complete `movi` / `mov` at once.
    pub open spec fn fetched(self) -> CpuState {
        let cur = if self.queue.len() > 0 { self.queue[0] } else { Instr::Nop };
        let rest = if self.queue.len() > 0 { self.queue.drop_first() } else { self.queue };
        let regs = match cur {
            Instr::Movi(d, v) => self.regs.update(d as int, v),
            Instr::Mov(d, s) => self.regs.update(d as int, self.regs[s as int]),
            _ => self.regs,
        };
        CpuState {
            queue: rest,
            regs,
            current: cur,
            prev: self.current,
            next: if rest.len() > 0 { rest[0] } else { Instr::Nop },
            stage: if cur.is_single_cycle() || cur == Instr::Nop {
                Stage::Fetch
            } else {
                Stage::Decode
            },
            ..self
        }
    }

    /// Decode: read the operands now and issue one arithmetic task.
    pub open spec fn decoded(self) -> CpuState {
        let tasks = match self.current {
            Instr::Add(_, a, b) => self.tasks.push(
                TaskState {
                    owner: self.current,
                    outcome: apply_op(Op::Add, self.regs[a as int], self.regs[b as int]),
                    executed: false,
                },
            ),
            Instr::Sub(_, a, b) => self.tasks.push(
                TaskState {
                    owner: self.current,
                    outcome: apply_op(Op::Sub, self.regs[a as int], self.regs[b as int]),
                    executed: false,
                },
            ),
            Instr::Addi(d, v) => self.tasks.push(
                TaskState {
                    owner: self.current,
                    outcome: apply_op(Op::Add, self.regs[d as int], v),
                    executed: false,
                },
            ),
            Instr::Subi(d, v) => self.tasks.push(
                TaskState {
                    owner: self.current,
                    outcome: apply_op(Op::Sub, self.regs[d as int], v),
                    executed: false,
                },
            ),
            _ => self.tasks,
        };
        CpuState { tasks, stage: Stage::Execute, ..self }
    }

    /// Execute: every in-flight task computes its result.
    pub open spec fn executed(self) -> CpuState {
        CpuState {
            tasks: self.tasks.map_values(
                |t: TaskState| TaskState { owner: t.owner, outcome: t.outcome, executed: true },
            ),
            stage: Stage::WriteBack,
            ..self
        }
    }

    /// Writeback: commit every task's result to its destination and retire the tasks.
    pub open spec fn written_back(self) -> CpuState {
        CpuState {
            regs: commit(self.regs, self.tasks),
            tasks: Seq::empty(),
            stage: Stage::Fetch,
            ..self
        }
    }

    /// One tick: run the active stage and count the tick (wrapping).
    pub open spec fn tick(self) -> CpuState {
        let s = match self.stage {
            Stage::Fetch => self.fetched(),
            Stage::Decode => self.decoded(),
            Stage::Execute => self.executed(),
            Stage::WriteBack => self.written_back(),
        };
        CpuState { ticks: ((self.ticks as int + 1) % 0x1_0000_0000) as u32, ..s }
    }

    /// The state after `n` ticks.
    pub open spec fn ticked(self, n: nat) -> CpuState
        decreases n,
    {
        if n == 0 {
            self
        } else {
            self.tick().ticked((n - 1) as nat)
        }
    }

    /// Ticks until `done`, at most `fuel` times.
    pub open spec fn run(self, fuel: nat) -> CpuState
        decreases fuel,
    {
        if self.done() || fuel == 0 {
            self
        } else {
            self.tick().run((fuel - 1) as nat)
        }
    }

    /// The state that running to completion reaches.
    pub open spec fn completed(self) -> CpuState {
        self.run(self.measure())
    }
}


/// Writeback keeps the size of the register file.
pub proof fn lemma_commit_len(regs: Seq<u32>, tasks: Seq<TaskState>)
    requires
        regs.len() == NUM_REGISTERS,
        forall|i: int| 0 <= i < tasks.len() ==> (#[trigger] tasks[i]).owner.regs_valid(),
    ensures
        commit(regs, tasks).len() == regs.len(),
    decreases tasks.len(),
{
    if tasks.len() > 0 {
        lemma_commit_len(regs, tasks.drop_last());
    }
}

/// The instructions of the successful results, in order.
pub open spec fn ok_values<E>(rs: Seq<Result<Instr, E>>) -> Seq<Instr>
    decreases rs.len(),
{
    if rs.len() == 0 {
        Seq::empty()
    } else {
        let before = ok_values(rs.drop_last());
        match rs.last() {
            Ok(i) => before.push(i),
            Err(_) => before,
        }
    }
}

/// The positions of the failed results, ascending.
pub open spec fn err_positions<E>(rs: Seq<Result<Instr, E>>) -> Seq<usize>
    decreases rs.len(),
{
    if rs.len() == 0 {
        Seq::empty()
    } else {
        let before = err_positions(rs.drop_last());
        match rs.last() {
            Ok(_) => before,
            Err(_) => before.push((rs.len() - 1) as usize),
        }
    }
}

proof fn lemma_ok_values_valid<E>(rs: Seq<Result<Instr, E>>, k: int)
    requires
        forall|i: int| 0 <= i < rs.len() && (#[trigger] rs[i]) is Ok ==> rs[i]->Ok_0.regs_valid(),
        0 <= k < ok_values(rs).len(),
    ensures
        ok_values(rs)[k].regs_valid(),
    decreases rs.len(),
{
    if rs.len() > 0 {
        let pre = rs.drop_last();
        assert forall|i: int| 0 <= i < pre.len() && (#[trigger] pre[i]) is Ok implies pre[i]->Ok_0.regs_valid() by {
            assert(pre[i] == rs[i]);
        }
        if k < ok_values(pre).len() {
            lemma_ok_values_valid(pre, k);
        } else {
            assert(rs[rs.len() - 1] == rs.last());
        }
    }
}

/// A tick keeps the controller well formed.
pub proof fn lemma_tick_wf(s: CpuState)
    requires
        s.wf(),
    ensures
        s.tick().wf(),
{
    let t = s.tick();
    if s.stage == Stage::Fetch {
        if s.queue.len() > 0 {
            assert(s.queue[0].regs_valid());
            assert forall|i: int| 0 <= i < t.queue.len() implies (#[trigger] t.queue[i]).regs_valid() by {
                assert(t.queue[i] == s.queue[i + 1]);
            }
        }
    } else if s.stage == Stage::Execute {
        assert forall|i: int| 0 <= i < t.tasks.len() implies (#[trigger] t.tasks[i]).owner.regs_valid() by {
            assert(s.tasks[i].owner.regs_valid());
        }
    } else if s.stage == Stage::WriteBack {
        lemma_commit_len(s.regs, s.tasks);
    } else if s.stage == Stage::Decode {
        assert forall|i: int| 0 <= i < t.tasks.len() implies (#[trigger] t.tasks[i]).owner.regs_valid() by {
        }
    }
}

/// Before completion, each tick lowers the measure.
pub proof fn lemma_tick_measure(s: CpuState)
    requires
        s.wf(),
        !s.done(),
    ensures
        s.tick().measure() < s.measure(),
{
}

/// Any fuel of at least the measure runs to the same end.
pub proof fn lemma_run_fuel(s: CpuState, f: nat)
    requires
        s.wf(),
        f >= s.measure(),
    ensures
        s.run(f) == s.completed(),
    decreases f,
{
    if !s.done() && f > 0 {
        lemma_tick_wf(s);
        lemma_tick_measure(s);
        let m = s.measure();
        lemma_run_fuel(s.tick(), (f - 1) as nat);
        lemma_run_fuel(s.tick(), (m - 1) as nat);
    }
}

/// The pipeline controller: instruction queue, register file, instruction slots,
/// active stage and in-flight functional-unit tasks.
pub struct CPU {
    pub instruction_mem: VecDeque<Instr>,
    pub registers: [u32; 256],
    pub current_instruction: Instr,
    pub prev_instruction: Instr,
    pub next_instruction: Instr,
    pub next_stage: Stage,
    pub ticks: u32,
    task_units: Vec<ALU>,
}

impl View for CPU {
    type V = CpuState;

    closed spec fn view(&self) -> CpuState {
        CpuState {
            queue: self.instruction_mem@,
            regs: self.registers@,
            current: self.current_instruction,
            prev: self.prev_instruction,
            next: self.next_instruction,
            stage: self.next_stage,
            ticks: self.ticks,
            tasks: self.task_units@.map_values(|a: ALU| task_of(a)),
        }
    }
}

impl CPU {
    pub open spec fn wf(&self) -> bool {
        self@.wf()
    }

    /// A controller with an empty queue, zeroed registers, `Nop` in every slot and
    /// Fetch active.
    pub fn new() -> (c: CPU)
        ensures
            c@ == CpuState::initial(),
            c.wf(),
    {
        let c = CPU {
            instruction_mem: VecDeque::new(),
            registers: [0u32; 256],
            current_instruction: Instr::Nop,
            prev_instruction: Instr::Nop,
            next_instruction: Instr::Nop,
            next_stage: Stage::Fetch,
            ticks: 0,
            task_units: Vec::new(),
        };
        assert(c@.regs =~= CpuState::initial().regs);
        assert(c@.tasks =~= Seq::<TaskState>::empty());
        c
    }

    /// Replaces the instruction queue with a copy of `instrs`.
    pub fn load_instr_vec(&mut self, instrs: &VecDeque<Instr>)
        requires
            old(self).wf(),
            forall|i: int| 0 <= i < instrs@.len() ==> (#[trigger] instrs@[i]).regs_valid(),
        ensures
            final(self)@ == (CpuState { queue: instrs@, ..old(self)@ }),
            final(self).wf(),
    {
        let mut q: VecDeque<Instr> = VecDeque::new();
        let n = instrs.len();
        let mut i: usize = 0;
        while i < n
            invariant
                n == instrs@.len(),
                i <= n,
                q@ == instrs@.subrange(0, i as int),
            decreases n - i,
        {
            q.push_back(instrs[i]);
            i = i + 1;
            assert(q@ =~= instrs@.subrange(0, i as int));
        }
        assert(q@ =~= instrs@);
        self.instruction_mem = q;
    }

    /// The register file.
    pub fn registers(&self) -> (r: &[u32; 256])
        ensures
            r@ == self@.regs,
    {
        &self.registers
    }

    /// Whether the run-to-completion condition holds.
    pub fn finished(&self) -> (r: bool)
        ensures
            r == self@.done(),
    {
        self.instruction_mem.len() == 0 && self.current_instruction == Instr::Nop
    }

    /// Advances the active stage by one tick.
    pub fn clock_tick(&mut self)
        requires
            old(self).wf(),
        ensures
            final(self)@ == old(self)@.tick(),
            final(self).wf(),
    {
        let next = match self.next_stage {
            Stage::Fetch => self.fetch(),
            Stage::Decode => self.decode(),
            Stage::Execute => self.execute(),
            Stage::WriteBack => self.writeback(),
        };
        self.next_stage = next;
        self.ticks = self.ticks.wrapping_add(1);
        proof {
            lemma_tick_wf(old(self)@);
        }
    }

    /// Ticks until the queue is empty and the current instruction is `Nop`.
    pub fn run_to_end(&mut self)
        requires
            old(self).wf(),
        ensures
            final(self)@ == old(self)@.completed(),
            final(self)@.done(),
            final(self).wf(),
            old(self)@.done() ==> final(self)@ == old(self)@,
    {
        let ghost start = self@;
        while !self.finished()
            invariant
                self.wf(),
                self@.completed() == start.completed(),
            decreases self@.measure(),
        {
            proof {
                lemma_tick_measure(self@);
                lemma_tick_wf(self@);
                lemma_run_fuel(self@.tick(), (self@.measure() - 1) as nat);
            }
            self.clock_tick();
        }
    }

    /// Appends the instructions of the successful results, in order, and returns the
    /// positions of the failed ones.
    pub fn load_instructions<E>(&mut self, instructions: &Vec<Result<Instr, E>>) -> (failed: Vec<usize>)
        requires
            old(self).wf(),
            forall|i: int|
                0 <= i < instructions@.len() && (#[trigger] instructions@[i]) is Ok
                    ==> instructions@[i]->Ok_0.regs_valid(),
        ensures
            final(self)@ == (CpuState { queue: old(self)@.queue + ok_values(instructions@), ..old(self)@ }),
            failed@ == err_positions(instructions@),
            final(self).wf(),
    {
        let mut failed: Vec<usize> = Vec::new();
        let n = instructions.len();
        let mut i: usize = 0;
        while i < n
            invariant
                n == instructions@.len(),
                i <= n,
                old(self).wf(),
                self.wf(),
                self@ == (CpuState {
                    queue: old(self)@.queue + ok_values(instructions@.subrange(0, i as int)),
                    ..old(self)@
                }),
                failed@ == err_positions(instructions@.subrange(0, i as int)),
                forall|k: int|
                    0 <= k < instructions@.len() && (#[trigger] instructions@[k]) is Ok
                        ==> instructions@[k]->Ok_0.regs_valid(),
            decreases n - i,
        {
            let ghost pre = instructions@.subrange(0, i as int);
            let ghost post = instructions@.subrange(0, i + 1);
            assert(post.drop_last() =~= pre);
            assert(post.last() == instructions@[i as int]);
            match &instructions[i] {
                Ok(ins) => {
                    self.instruction_mem.push_back(*ins);
                    assert(ok_values(post) == ok_values(pre).push(*ins));
                    assert(self@.queue =~= old(self)@.queue + ok_values(post));
                },
                Err(_) => {
                    failed.push(i);
                    assert(ok_values(post) == ok_values(pre));
                    assert(failed@ =~= err_positions(post));
                },
            }
            proof {
                let q = self@.queue;
                let m = old(self)@.queue.len();
                assert(q == old(self)@.queue + ok_values(post));
                assert forall|j: int| 0 <= j < post.len() && (#[trigger] post[j]) is Ok implies post[j]->Ok_0.regs_valid() by {
                    assert(post[j] == instructions@[j]);
                }
                assert forall|k: int| 0 <= k < q.len() implies (#[trigger] q[k]).regs_valid() by {
                    if k >= m {
                        assert(q[k] == ok_values(post)[k - m]);
                        lemma_ok_values_valid(post, k - m);
                    } else {
                        assert(q[k] == old(self)@.queue[k]);
                    }
                }
            }
            i = i + 1;
        }
        assert(instructions@.subrange(0, n as int) =~= instructions@);
        failed
    }

    fn set_next_instruction(&mut self)
        requires
            old(self).wf(),
        ensures
            final(self)@ == (CpuState {
                regs: old(self)@.regs,
                stage: old(self)@.stage,
                ..old(self)@.fetched()
            }),
    {
        let instr = self.instruction_mem.pop_front();
        self.prev_instruction = self.current_instruction;
        self.current_instruction = match instr {
            Some(i) => i,
            None => Instr::Nop,
        };
        if self.instruction_mem.len() > 0 {
            self.next_instruction = self.instruction_mem[0];
        } else {
            self.next_instruction = Instr::Nop;
        }
    }

    fn fetch(&mut self) -> (st: Stage)
        requires
            old(self).wf(),
        ensures
            final(self)@ == (CpuState { stage: old(self)@.stage, ..old(self)@.fetched() }),
            st == old(self)@.fetched().stage,
    {
        proof {
            if old(self)@.queue.len() > 0 {
                assert(old(self)@.queue[0].regs_valid());
            }
        }
        self.set_next_instruction();
        match self.current_instruction {
            Instr::Movi(dest, val) => {
                self.registers[dest as usize] = val;
                Stage::Fetch
            },
            Instr::Mov(dest, src) => {
                self.registers[dest as usize] = self.registers[src as usize];
                Stage::Fetch
            },
            Instr::Nop => Stage::Fetch,
            _ => Stage::Decode,
        }
    }

    fn issue_alutask(&mut self, instr: Instr, x: u32, y: u32, op: Op)
        ensures
            final(self)@ == (CpuState {
                tasks: old(self)@.tasks.push(
                    TaskState { owner: instr, outcome: apply_op(op, x, y), executed: false },
                ),
                ..old(self)@
            }),
    {
        let mut alu = ALU::new();
        alu.issue(instr, x, y, op);
        self.task_units.push(alu);
        assert(self@.tasks =~= old(self)@.tasks.push(
            TaskState { owner: instr, outcome: apply_op(op, x, y), executed: false },
        ));
    }

    fn decode(&mut self) -> (st: Stage)
        requires
            old(self).wf(),
        ensures
            final(self)@ == (CpuState { stage: old(self)@.stage, ..old(self)@.decoded() }),
            st == Stage::Execute,
    {
        let current = self.current_instruction;
        match current {
            Instr::Add(_, src1, src2) => {
                let x = self.registers[src1 as usize];
                let y = self.registers[src2 as usize];
                self.issue_alutask(current, x, y, Op::Add);
            },
            Instr::Sub(_, src1, src2) => {
                let x = self.registers[src1 as usize];
                let y = self.registers[src2 as usize];
                self.issue_alutask(current, x, y, Op::Sub);
            },
            Instr::Addi(dest, data) => {
                let x = self.registers[dest as usize];
                self.issue_alutask(current, x, data, Op::Add);
            },
            Instr::Subi(dest, data) => {
                let x = self.registers[dest as usize];
                self.issue_alutask(current, x, data, Op::Sub);
            },
            _ => {},
        }
        Stage::Execute
    }

    fn execute(&mut self) -> (st: Stage)
        requires
            old(self).wf(),
        ensures
            final(self)@ == (CpuState { stage: old(self)@.stage, ..old(self)@.executed() }),
            st == Stage::WriteBack,
    {
        let n = self.task_units.len();
        let mut i: usize = 0;
        while i < n
            invariant
                n == self.task_units@.len(),
                n == old(self).task_units@.len(),
                i <= n,
                self@ == (CpuState { tasks: self@.tasks, ..old(self)@ }),
                forall|j: int| 0 <= j < i ==> (#[trigger] self@.tasks[j]) == (TaskState {
                    executed: true,
                    ..old(self)@.tasks[j]
                }),
                forall|j: int| i <= j < n ==> (#[trigger] self@.tasks[j]) == old(self)@.tasks[j],
            decreases n - i,
        {
            let ghost before = self.task_units@;
            let ghost before_tasks = self@.tasks;
            self.task_units[i].execute();
            proof {
                assert(before_tasks[i as int] == task_of(before[i as int]));
                assert(self@.tasks[i as int] == task_of(self.task_units@[i as int]));
                assert forall|j: int| 0 <= j < n && j != i implies self@.tasks[j] == before_tasks[j] by {
                    assert(self@.tasks[j] == task_of(self.task_units@[j]));
                    assert(before_tasks[j] == task_of(before[j]));
                }
            }
            i = i + 1;
            proof {
                assert forall|j: int| 0 <= j < i implies (#[trigger] self@.tasks[j]) == (TaskState {
                    executed: true,
                    ..old(self)@.tasks[j]
                }) by {
                    if j < i - 1 {
                        assert(self@.tasks[j] == before_tasks[j]);
                    }
                }
                assert forall|j: int| i <= j < n implies (#[trigger] self@.tasks[j]) == old(self)@.tasks[j] by {
                    assert(self@.tasks[j] == before_tasks[j]);
                }
            }
        }
        assert(self@.tasks =~= old(self)@.executed().tasks);
        Stage::WriteBack
    }

    fn writeback(&mut self) -> (st: Stage)
        requires
            old(self).wf(),
            old(self)@.stage == Stage::WriteBack,
        ensures
            final(self)@ == (CpuState { stage: old(self)@.stage, ..old(self)@.written_back() }),
            st == Stage::Fetch,
    {
        let n = self.task_units.len();
        let mut i: usize = 0;
        while i < n
            invariant
                old(self).wf(),
                n == self.task_units@.len(),
                old(self)@.stage == Stage::WriteBack,
                i <= n,
                self@ == (CpuState {
                    regs: commit(old(self)@.regs, old(self)@.tasks.subrange(0, i as int)),
                    ..old(self)@
                }),
            decreases n - i,
        {
            proof {
                assert(self@.tasks[i as int] == task_of(self.task_units@[i as int]));
                assert(old(self)@.tasks[i as int].executed);
            }
            let result = self.task_units[i].result();
            let owner = self.task_units[i].instr();
            proof {
                lemma_commit_len(old(self)@.regs, old(self)@.tasks.subrange(0, i as int));
                assert(old(self)@.tasks[i as int].owner.regs_valid());
                assert(old(self)@.tasks.subrange(0, i + 1).drop_last()
                    =~= old(self)@.tasks.subrange(0, i as int));
            }
            match owner {
                Instr::Add(dest, _, _) => self.registers[dest as usize] = result,
                Instr::Sub(dest, _, _) => self.registers[dest as usize] = result,
                Instr::Addi(dest, _) => self.registers[dest as usize] = result,
                Instr::Subi(dest, _) => self.registers[dest as usize] = result,
                _ => {},
            }
            i = i + 1;
        }
        assert(old(self)@.tasks.subrange(0, n as int) =~= old(self)@.tasks);
        self.task_units.clear();
        assert(self@.tasks =~= Seq::<TaskState>::empty());
        Stage::Fetch
    }
}

} // verus!
