//! Cyclic schedules of operations, and why working through them terminates.
//!
//! A schedule is a nonempty cyclic list of operations, some of which are idle:
//! they make no progress by themselves. As long as the schedule holds at least
//! one operation that is not idle, the number of steps to the next working
//! operation strictly decreases with every idle step.
use vstd::prelude::*;

verus! {

/// The index after `i` in a cyclic schedule of length `len`.
pub open spec fn next_index(i: int, len: int) -> int {
    if i + 1 == len {
        0
    } else {
        i + 1
    }
}

/// The number of consecutive idle operations starting at `i`, not wrapping
/// around the end.
pub open spec fn idle_run(idle: Seq<bool>, i: int) -> nat
    decreases idle.len() - i,
{
    if 0 <= i < idle.len() && idle[i] {
        1 + idle_run(idle, i + 1)
    } else {
        0
    }
}

/// The number of idle steps from `i` to the next working operation,
/// wrapping around the end.
pub open spec fn steps_to_work(idle: Seq<bool>, i: int) -> nat {
    if i + idle_run(idle, i) < idle.len() {
        idle_run(idle, i)
    } else {
        ((idle.len() - i) + idle_run(idle, 0)) as nat
    }
}

/// The schedule holds at least one working operation.
pub open spec fn has_work(idle: Seq<bool>) -> bool {
    exists|j: int| 0 <= j < idle.len() && !idle[j]
}

proof fn lemma_idle_run_is_idle(idle: Seq<bool>, i: int)
    requires
        0 <= i <= idle.len(),
    ensures
        i + idle_run(idle, i) <= idle.len(),
        forall|k: int| i <= k < i + idle_run(idle, i) ==> idle[k],
    decreases idle.len() - i,
{
    if i < idle.len() && idle[i] {
        lemma_idle_run_is_idle(idle, i + 1);
    }
}

/// In a schedule with a working operation, an idle step at `i` brings the
/// next working operation one step closer.
pub proof fn lemma_idle_step_progresses(idle: Seq<bool>, i: int)
    requires
        0 <= i < idle.len(),
        idle[i],
        has_work(idle),
    ensures
        steps_to_work(idle, next_index(i, idle.len() as int)) < steps_to_work(idle, i),
{
    lemma_idle_run_is_idle(idle, 0);
    lemma_idle_run_is_idle(idle, i);
    if idle_run(idle, 0) == idle.len() {
        let j = choose|j: int| 0 <= j < idle.len() && !idle[j];
        assert(idle[j]);
    }
    assert(idle_run(idle, i) == 1 + idle_run(idle, i + 1));
}

/// In a schedule with a working operation, the next working operation is
/// fewer steps away than the schedule is long.
pub proof fn lemma_steps_below_len(idle: Seq<bool>, i: int)
    requires
        0 <= i < idle.len(),
        has_work(idle),
    ensures
        steps_to_work(idle, i) < idle.len(),
{
    lemma_idle_run_is_idle(idle, 0);
    lemma_idle_run_is_idle(idle, i);
    let j = choose|j: int| 0 <= j < idle.len() && !idle[j];
    if i + idle_run(idle, i) >= idle.len() {
        if j >= i {
            assert(idle[j]);
        }
        if idle_run(idle, 0) > j {
            assert(idle[j]);
        }
    }
}

/// How many operations of a schedule of `len` operations it takes at most to
/// make `work` working operations and then one more: fewer than `len`
/// operations come before each working one.
pub open spec fn schedule_bound(work: nat, len: nat) -> nat {
    (work + 1) * len
}

} // verus!
