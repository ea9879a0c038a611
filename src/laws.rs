use vstd::prelude::*;
use crate::cpu::{err_positions, ok_values, CpuState};
use crate::instr::{Instr, Stage};

verus! {

/// The parts of the state that decide every later register file: the queue,
/// the registers, the current instruction, the active stage and the tasks.
pub open spec fn same_program(a: CpuState, b: CpuState) -> bool {
    &&& a.queue == b.queue
    &&& a.regs == b.regs
    &&& a.current == b.current
    &&& a.stage == b.stage
    &&& a.tasks == b.tasks
}

proof fn lemma_tick_same_program(a: CpuState, b: CpuState)
    requires
        same_program(a, b),
    ensures
        same_program(a.tick(), b.tick()),
{
}

/// Determinism: two controllers holding the same program, registers, current
/// instruction, stage and tasks reach identical register files after any number of
/// ticks, and when run to completion.
pub proof fn lemma_deterministic(a: CpuState, b: CpuState, n: nat)
    requires
        same_program(a, b),
    ensures
        a.ticked(n).regs == b.ticked(n).regs,
        a.completed().regs == b.completed().regs,
{
    lemma_ticked_same_program(a, b, n);
    assert(a.measure() == b.measure());
    lemma_run_same_program(a, b, a.measure());
}

proof fn lemma_ticked_same_program(a: CpuState, b: CpuState, n: nat)
    requires
        same_program(a, b),
    ensures
        same_program(a.ticked(n), b.ticked(n)),
    decreases n,
{
    if n > 0 {
        lemma_tick_same_program(a, b);
        lemma_ticked_same_program(a.tick(), b.tick(), (n - 1) as nat);
    }
}

proof fn lemma_run_same_program(a: CpuState, b: CpuState, f: nat)
    requires
        same_program(a, b),
    ensures
        same_program(a.run(f), b.run(f)),
    decreases f,
{
    if f > 0 && !a.done() {
        lemma_tick_same_program(a, b);
        lemma_run_same_program(a.tick(), b.tick(), (f - 1) as nat);
    }
}

/// Single cycle: a `movi d v` at the queue front sets register `d` to `v`, leaves
/// the other registers alone and keeps Fetch active, all in one tick.
pub proof fn lemma_movi_single_cycle(s: CpuState, d: u32, v: u32)
    requires
        s.wf(),
        s.stage == Stage::Fetch,
        s.queue.len() > 0,
        s.queue[0] == Instr::Movi(d, v),
    ensures
        s.tick().regs[d as int] == v,
        forall|r: int| 0 <= r < s.regs.len() && r != d ==> s.tick().regs[r] == s.regs[r],
        s.tick().stage == Stage::Fetch,
        s.tick().current == Instr::Movi(d, v),
{
    assert(s.queue[0].regs_valid());
}

/// Single cycle: a `mov d src` at the queue front copies register `src` into `d` and
/// keeps Fetch active, in one tick.
pub proof fn lemma_mov_single_cycle(s: CpuState, d: u32, src: u32, v: u32)
    requires
        s.wf(),
        s.stage == Stage::Fetch,
        s.queue.len() > 0,
        s.queue[0] == Instr::Mov(d, src),
        s.regs[src as int] == v,
    ensures
        s.tick().regs[d as int] == v,
        forall|r: int| 0 <= r < s.regs.len() && r != d ==> s.tick().regs[r] == s.regs[r],
        s.tick().stage == Stage::Fetch,
{
    assert(s.queue[0].regs_valid());
}

/// A finished controller stays as it is when run to completion: zero ticks.
pub proof fn lemma_done_runs_no_ticks(s: CpuState)
    requires
        s.done(),
    ensures
        s.completed() == s,
{
}

proof fn lemma_all_ok<E>(rs: Seq<Result<Instr, E>>)
    requires
        forall|j: int| 0 <= j < rs.len() ==> (#[trigger] rs[j]) is Ok,
    ensures
        ok_values(rs) == rs.map_values(|r: Result<Instr, E>| r->Ok_0),
        err_positions(rs) == Seq::<usize>::empty(),
    decreases rs.len(),
{
    if rs.len() > 0 {
        let pre = rs.drop_last();
        assert forall|j: int| 0 <= j < pre.len() implies (#[trigger] pre[j]) is Ok by {
            assert(pre[j] == rs[j]);
        }
        lemma_all_ok(pre);
        assert(rs[rs.len() - 1] is Ok);
        assert(ok_values(rs) =~= rs.map_values(|r: Result<Instr, E>| r->Ok_0));
    }
}

/// Loading results with exactly one failure among `N` successes queues exactly the
/// `N` instructions, in their relative order, and reports exactly that one failure.
pub proof fn lemma_load_one_failure<E>(rs: Seq<Result<Instr, E>>, k: int)
    requires
        rs.len() <= usize::MAX,
        0 <= k < rs.len(),
        rs[k] is Err,
        forall|j: int| 0 <= j < rs.len() && j != k ==> (#[trigger] rs[j]) is Ok,
    ensures
        ok_values(rs).len() == rs.len() - 1,
        ok_values(rs) == rs.remove(k).map_values(|r: Result<Instr, E>| r->Ok_0),
        err_positions(rs) == seq![k as usize],
    decreases rs.len(),
{
    let pre = rs.drop_last();
    if k == rs.len() - 1 {
        assert forall|j: int| 0 <= j < pre.len() implies (#[trigger] pre[j]) is Ok by {
            assert(pre[j] == rs[j]);
        }
        lemma_all_ok(pre);
        assert(rs.remove(k) =~= pre);
        assert(err_positions(rs) =~= seq![k as usize]);
    } else {
        assert forall|j: int| 0 <= j < pre.len() && j != k implies (#[trigger] pre[j]) is Ok by {
            assert(pre[j] == rs[j]);
        }
        assert(pre[k] == rs[k]);
        lemma_load_one_failure(pre, k);
        assert(rs[rs.len() - 1] is Ok);
        assert(rs.remove(k) =~= pre.remove(k).push(rs.last()));
        assert(ok_values(rs) =~= rs.remove(k).map_values(|r: Result<Instr, E>| r->Ok_0));
    }
}

} // verus!
