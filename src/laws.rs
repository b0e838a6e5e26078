use vstd::prelude::*;
use crate::event::transitions_of;
use crate::model::{
    arrived, chosen, dispatched, is_done, lemma_chosen_schedulable, lemma_done_within,
    lemma_next_wf, next, pending, run_from, tick_event, wf, work_left, SimState,
};
use crate::policy::{best, is_best, Policy};
use crate::process::{ids_unique, Process};
use crate::processor::{configured, lemma_configured_wf};

verus! {

/// What a run keeps: the invariant, the process set's size, each process's
/// id and total execution time, and the records of terminated processes.
pub proof fn lemma_run_keeps(s: SimState, max_ticks: int)
    requires
        wf(s),
        max_ticks <= u64::MAX,
    ensures
        wf(run_from(s, max_ticks).1),
        run_from(s, max_ticks).1.processes.len() == s.processes.len(),
        forall|i: int|
            0 <= i < s.processes.len() ==> {
                &&& #[trigger] run_from(s, max_ticks).1.processes[i].id == s.processes[i].id
                &&& run_from(s, max_ticks).1.processes[i].total_time()
                    == s.processes[i].total_time()
            },
    decreases max_ticks - s.system_time,
{
    if !(is_done(s) || s.system_time >= max_ticks) {
        lemma_next_wf(s);
        lemma_run_keeps(next(s), max_ticks);
        let f = run_from(s, max_ticks).1;
        assert forall|i: int| 0 <= i < s.processes.len() implies {
            &&& #[trigger] f.processes[i].id == s.processes[i].id
            &&& f.processes[i].total_time() == s.processes[i].total_time()
        } by {
            assert(next(s).processes[i].id == s.processes[i].id);
        }
    }
}

/// A run that completes leaves every process terminated, and the time
/// serviced of each equals its total execution time.
pub proof fn lemma_completed_run_services_all_work(s: SimState, max_ticks: int)
    requires
        wf(s),
        max_ticks <= u64::MAX,
        is_done(run_from(s, max_ticks).1),
    ensures
        run_from(s, max_ticks).1.processes.len() == s.processes.len(),
        forall|i: int|
            0 <= i < s.processes.len() ==> {
                &&& (#[trigger] run_from(s, max_ticks).1.processes[i]).state is Terminated
                &&& run_from(s, max_ticks).1.processes[i].serviced_time
                    == s.processes[i].total_time()
            },
{
    lemma_run_keeps(s, max_ticks);
    let f = run_from(s, max_ticks).1;
    assert forall|i: int| 0 <= i < s.processes.len() implies {
        &&& (#[trigger] f.processes[i]).state is Terminated
        &&& f.processes[i].serviced_time == s.processes[i].total_time()
    } by {
        assert(f.processes[i].id == s.processes[i].id);
    }
}

/// A simulation set up from `ps`, given a tick limit that leaves room for
/// all the work and the wait for the latest arrival, ends with every process terminated, and each process's
/// serviced time equal to its total execution time.
pub proof fn lemma_every_run_completes(ps: Seq<Process>, policy: Policy, max_ticks: int)
    requires
        configured(ps, policy) is Ok,
        max_ticks <= u64::MAX,
        max_ticks >= work_left(ps) + pending(ps, 0),
    ensures
        is_done(run_from(configured(ps, policy)->Ok_0, max_ticks).1),
        run_from(configured(ps, policy)->Ok_0, max_ticks).1.system_time <= work_left(ps)
            + pending(ps, 0),
        run_from(configured(ps, policy)->Ok_0, max_ticks).1.processes.len() == ps.len(),
        forall|i: int|
            0 <= i < ps.len() ==> {
                &&& (#[trigger] run_from(configured(ps, policy)->Ok_0, max_ticks).1.processes[i]).state is Terminated
                &&& run_from(configured(ps, policy)->Ok_0, max_ticks).1.processes[i].serviced_time
                    == ps[i].total_time()
            },
{
    let s = configured(ps, policy)->Ok_0;
    lemma_configured_wf(ps, policy);
    lemma_done_within(s, max_ticks);
    lemma_completed_run_services_all_work(s, max_ticks);
}

/// In every well-formed state at most one process is `Running`.
pub proof fn lemma_at_most_one_running(s: SimState, i: int, j: int)
    requires
        wf(s),
        0 <= i < s.processes.len(),
        0 <= j < s.processes.len(),
        s.processes[i].state is Running,
        s.processes[j].state is Running,
    ensures
        i == j,
{
}

/// Over a tick, the occupant's waiting time becomes 0; a process left
/// `Ready` or `Suspended` waits one tick longer; any other process keeps
/// its waiting time.
pub proof fn lemma_waiting_time(s: SimState, i: int)
    requires
        wf(s),
        s.system_time < u64::MAX,
        0 <= i < s.processes.len(),
    ensures
        next(s).current == Some(i) ==> next(s).processes[i].waiting_time == 0,
        next(s).current != Some(i) && next(s).processes[i].state.is_waiting_spec()
            ==> next(s).processes[i].waiting_time == s.processes[i].waiting_time + 1,
        next(s).current != Some(i) && !next(s).processes[i].state.is_waiting_spec()
            ==> next(s).processes[i].waiting_time == s.processes[i].waiting_time,
{
    assert(arrived(s)[i].waiting_time == s.processes[i].waiting_time);
    assert(dispatched(s)[i].waiting_time == s.processes[i].waiting_time);
}

/// Two simulations set up from the same process set under the same policy
/// reach the same state and produce the same log.
pub proof fn lemma_runs_deterministic(
    a: Seq<Process>,
    b: Seq<Process>,
    policy: Policy,
    max_ticks: int,
)
    requires
        a == b,
        configured(a, policy) is Ok,
    ensures
        configured(b, policy) is Ok,
        run_from(configured(a, policy)->Ok_0, max_ticks) == run_from(
            configured(b, policy)->Ok_0,
            max_ticks,
        ),
{
}

/// The record of a tick under a non-preemptive policy names no interruption
/// and no resumption.
pub proof fn lemma_tick_not_interrupted(s: SimState)
    requires
        wf(s),
        !s.policy.is_preemptive(),
    ensures
        forall|m: int|
            0 <= m < transitions_of(tick_event(s)).len() ==> !(transitions_of(
                tick_event(s),
            )[m] is Interrupted) && !(transitions_of(tick_event(s))[m] is Resumed),
{
    lemma_chosen_schedulable(s);
    let e = tick_event(s);
    if let (Some(x), Some(y)) = (e.start_of_tick, e.end_of_tick) {
        let c = s.current->Some_0;
        let k = chosen(s)->Some_0;
        if c == k {
            assert(x.id == s.processes[c].id);
            assert(y.id == s.processes[c].id);
        } else {
            assert(arrived(s)[c].state is Terminated);
            assert(x == arrived(s)[c]);
            assert(x.remaining_time == 0);
        }
    }
}

/// Under a non-preemptive policy no record of a run names an interruption
/// or a resumption.
pub proof fn lemma_non_preemptive_never_interrupts(s: SimState, max_ticks: int)
    requires
        wf(s),
        max_ticks <= u64::MAX,
        !s.policy.is_preemptive(),
    ensures
        forall|k: int, m: int|
            0 <= k < run_from(s, max_ticks).0.len() && 0 <= m < transitions_of(
                #[trigger] run_from(s, max_ticks).0[k],
            ).len() ==> !(#[trigger] transitions_of(run_from(s, max_ticks).0[k])[m] is Interrupted)
                && !(transitions_of(run_from(s, max_ticks).0[k])[m] is Resumed),
    decreases max_ticks - s.system_time,
{
    if !(is_done(s) || s.system_time >= max_ticks) {
        lemma_next_wf(s);
        lemma_tick_not_interrupted(s);
        lemma_non_preemptive_never_interrupts(next(s), max_ticks);
        let log = run_from(s, max_ticks).0;
        let rest = run_from(next(s), max_ticks).0;
        assert forall|k: int, m: int|
            0 <= k < log.len() && 0 <= m < transitions_of(#[trigger] log[k]).len() implies !(
            #[trigger] transitions_of(log[k])[m] is Interrupted) && !(transitions_of(
            log[k],
        )[m] is Resumed) by {
            if k > 0 {
                assert(log[k] == rest[k - 1]);
            }
        }
    }
}

/// Of two schedulable processes with equal selection keys, the one with the
/// larger id is never selected.
pub proof fn lemma_tie_break_by_id(policy: Policy, ps: Seq<Process>, i: int, j: int)
    requires
        ids_unique(ps),
        0 <= i < ps.len(),
        0 <= j < ps.len(),
        ps[i].state.is_schedulable_spec(),
        ps[j].state.is_schedulable_spec(),
        policy.key_spec(ps[i]) == policy.key_spec(ps[j]),
        ps[i].id < ps[j].id,
    ensures
        best(policy, ps) != Some(j),
{
    if best(policy, ps) == Some(j) {
        assert(is_best(policy, ps, j));
        assert(policy.precedes(ps[j], ps[i]));
    }
}

} // verus!
