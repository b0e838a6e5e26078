use vstd::prelude::*;
use crate::event::SchedulingEvent;
use crate::policy::{best, is_best, lemma_best_none, Policy};
use crate::process::{ids_unique, Process, ProcessState};

verus! {

/// The abstract state of a simulation: the process set, the occupant of the
/// processor (a position in `processes`), the occupant of the previous tick,
/// and the clock.
pub struct SimState {
    pub processes: Seq<Process>,
    pub current: Option<int>,
    pub previous: Option<int>,
    pub system_time: int,
    pub policy: Policy,
    pub time_quantum: int,
}

/// The state invariant of a simulation.
pub open spec fn wf(s: SimState) -> bool {
    let ps = s.processes;
    &&& s.policy.is_supported()
    &&& ids_unique(ps)
    &&& 0 <= s.system_time <= u64::MAX
    &&& s.current matches Some(c) ==> 0 <= c < ps.len() && (ps[c].state is Running
        || ps[c].state is Terminated)
    &&& s.previous matches Some(c) ==> 0 <= c < ps.len()
    &&& forall|i: int| 0 <= i < ps.len() && ps[i].state is Running ==> s.current == Some(i)
    &&& forall|i: int|
        0 <= i < ps.len() ==> ((ps[i].state is NonExistent) == (ps[i].start_time
            >= s.system_time))
    &&& forall|i: int|
        0 <= i < ps.len() ==> ((ps[i].state is Terminated) == (ps[i].remaining_time == 0))
    &&& forall|i: int|
        0 <= i < ps.len() ==> ps[i].serviced_time <= s.system_time && ps[i].waiting_time
            <= s.system_time
}

/// Processes whose start time is `t` arrive: `NonExistent` becomes `Ready`.
pub open spec fn arrive(ps: Seq<Process>, t: int) -> Seq<Process> {
    Seq::new(
        ps.len(),
        |i: int|
            if ps[i].state is NonExistent && ps[i].start_time == t {
                Process { state: ProcessState::Ready, ..ps[i] }
            } else {
                ps[i]
            },
    )
}

/// The position that occupies the processor after the policy has decided.
/// A non-preemptive policy keeps an occupant that has not terminated.
pub open spec fn decide(policy: Policy, ps: Seq<Process>, current: Option<int>) -> Option<int> {
    match current {
        Some(c) => if !policy.is_preemptive() && !(ps[c].state is Terminated) {
            Some(c)
        } else {
            best(policy, ps)
        },
        None => best(policy, ps),
    }
}

/// States after the decision: the chosen process runs, a displaced running
/// occupant is suspended.
pub open spec fn dispatch(ps: Seq<Process>, current: Option<int>, chosen: Option<int>) -> Seq<
    Process,
> {
    Seq::new(
        ps.len(),
        |i: int|
            if chosen == Some(i) {
                Process { state: ProcessState::Running, ..ps[i] }
            } else if current == Some(i) && ps[i].state is Running {
                Process { state: ProcessState::Suspended, ..ps[i] }
            } else {
                ps[i]
            },
    )
}

/// One tick of service for `p`: one unit of work moves from remaining to
/// serviced, its waiting time resets, and it terminates when no work is left.
pub open spec fn run_one(p: Process) -> Process {
    let r = (p.remaining_time - 1) as u64;
    Process {
        remaining_time: r,
        serviced_time: (p.serviced_time + 1) as u64,
        waiting_time: 0,
        state: if r == 0 {
            ProcessState::Terminated
        } else {
            ProcessState::Running
        },
        ..p
    }
}

/// Bookkeeping of a tick: the chosen process is served, every waiting
/// process waits one tick longer.
pub open spec fn serve(ps: Seq<Process>, chosen: Option<int>) -> Seq<Process> {
    Seq::new(
        ps.len(),
        |i: int|
            if chosen == Some(i) {
                run_one(ps[i])
            } else if ps[i].state.is_waiting_spec() {
                Process { waiting_time: (ps[i].waiting_time + 1) as u64, ..ps[i] }
            } else {
                ps[i]
            },
    )
}

pub open spec fn arrived(s: SimState) -> Seq<Process> {
    arrive(s.processes, s.system_time)
}

pub open spec fn chosen(s: SimState) -> Option<int> {
    decide(s.policy, arrived(s), s.current)
}

pub open spec fn dispatched(s: SimState) -> Seq<Process> {
    dispatch(arrived(s), s.current, chosen(s))
}

/// The state after one tick.
pub open spec fn next(s: SimState) -> SimState {
    SimState {
        processes: serve(dispatched(s), chosen(s)),
        current: chosen(s),
        previous: s.current,
        system_time: s.system_time + 1,
        ..s
    }
}

/// The record of one tick: the occupant once the policy has decided, and
/// the occupant once it has been served.
pub open spec fn tick_event(s: SimState) -> SchedulingEvent {
    SchedulingEvent {
        system_time: s.system_time as u64,
        start_of_tick: match s.current {
            Some(c) => Some(dispatched(s)[c]),
            None => None,
        },
        end_of_tick: match chosen(s) {
            Some(c) => Some(next(s).processes[c]),
            None => None,
        },
    }
}

/// Every process has terminated: nothing is left to run.
pub open spec fn is_done(s: SimState) -> bool {
    forall|i: int| 0 <= i < s.processes.len() ==> s.processes[i].state is Terminated
}

/// Ticks from `s` until the simulation is done or the clock reaches
/// `max_ticks`: the log of the ticks taken and the state reached.
pub open spec fn run_from(s: SimState, max_ticks: int) -> (Seq<SchedulingEvent>, SimState)
    decreases max_ticks - s.system_time,
{
    if is_done(s) || s.system_time >= max_ticks {
        (seq![], s)
    } else {
        let rest = run_from(next(s), max_ticks);
        (seq![tick_event(s)] + rest.0, rest.1)
    }
}

/// The chosen position holds a schedulable process that arrived.
pub proof fn lemma_chosen_schedulable(s: SimState)
    requires
        wf(s),
    ensures
        chosen(s) matches Some(c) ==> 0 <= c < s.processes.len()
            && arrived(s)[c].state.is_schedulable_spec() && arrived(s)[c].remaining_time > 0,
        chosen(s) is None ==> forall|i: int|
            0 <= i < s.processes.len() ==> !arrived(s)[i].state.is_schedulable_spec(),
{
    let ps1 = arrived(s);
    lemma_best_none(s.policy, ps1);
    if let Some(b) = best(s.policy, ps1) {
        assert(is_best(s.policy, ps1, b));
    }
    if let Some(c) = chosen(s) {
        assert(ps1[c].state.is_schedulable_spec());
    }
}

/// A tick keeps the state invariant.
pub proof fn lemma_next_wf(s: SimState)
    requires
        wf(s),
        s.system_time < u64::MAX,
    ensures
        wf(next(s)),
        next(s).processes.len() == s.processes.len(),
        forall|i: int|
            0 <= i < s.processes.len() ==> {
                &&& #[trigger] next(s).processes[i].id == s.processes[i].id
                &&& next(s).processes[i].start_time == s.processes[i].start_time
                &&& next(s).processes[i].priority == s.processes[i].priority
                &&& next(s).processes[i].total_time() == s.processes[i].total_time()
                &&& s.processes[i].state is Terminated ==> next(s).processes[i]
                    == s.processes[i]
            },
{
    lemma_chosen_schedulable(s);
    let ps = s.processes;
    let ps1 = arrived(s);
    let ps2 = dispatched(s);
    let n = next(s);
    let ps3 = n.processes;
    assert forall|i: int| 0 <= i < ps.len() implies {
        &&& #[trigger] ps3[i].id == ps[i].id
        &&& ps3[i].start_time == ps[i].start_time
        &&& ps3[i].priority == ps[i].priority
        &&& ps3[i].total_time() == ps[i].total_time()
        &&& ps[i].state is Terminated ==> ps3[i] == ps[i]
        &&& (ps3[i].state is Running ==> n.current == Some(i))
        &&& ((ps3[i].state is NonExistent) == (ps3[i].start_time >= n.system_time))
        &&& ((ps3[i].state is Terminated) == (ps3[i].remaining_time == 0))
        &&& ps3[i].serviced_time <= n.system_time
        &&& ps3[i].waiting_time <= n.system_time
    } by {
        assert(ps1[i].remaining_time == ps[i].remaining_time);
        if ps1[i].state is Running {
            assert(ps[i].state is Running);
        }
    }
    assert(ids_unique(ps3));
}

/// The occupant slots name positions of the process set.
pub open spec fn slots_valid(s: SimState) -> bool {
    &&& s.current matches Some(c) ==> 0 <= c < s.processes.len()
    &&& s.previous matches Some(c) ==> 0 <= c < s.processes.len()
}

/// `ps` with the state of position `c` set to `st`.
pub open spec fn with_state(ps: Seq<Process>, c: int, st: ProcessState) -> Seq<Process> {
    ps.update(c, Process { state: st, ..ps[c] })
}

/// The processes of `ps` that have not terminated, in order.
pub open spec fn unfinished_of(ps: Seq<Process>) -> Seq<Process>
    decreases ps.len(),
{
    if ps.len() == 0 {
        seq![]
    } else if ps.last().state is Terminated {
        unfinished_of(ps.drop_last())
    } else {
        unfinished_of(ps.drop_last()).push(ps.last())
    }
}

/// The ids of the processes of `ps` that have not terminated, in order.
pub open spec fn unfinished_ids(ps: Seq<Process>) -> Seq<usize>
    decreases ps.len(),
{
    if ps.len() == 0 {
        seq![]
    } else if ps.last().state is Terminated {
        unfinished_ids(ps.drop_last())
    } else {
        unfinished_ids(ps.drop_last()).push(ps.last().id)
    }
}

/// The schedulable processes of `ps`, in order.
pub open spec fn schedulable_of(ps: Seq<Process>) -> Seq<Process>
    decreases ps.len(),
{
    if ps.len() == 0 {
        seq![]
    } else if ps.last().state.is_schedulable_spec() {
        schedulable_of(ps.drop_last()).push(ps.last())
    } else {
        schedulable_of(ps.drop_last())
    }
}

/// The work left in `ps`: the sum of the remaining times.
pub open spec fn work_left(ps: Seq<Process>) -> int
    decreases ps.len(),
{
    if ps.len() == 0 {
        0
    } else {
        work_left(ps.drop_last()) + ps.last().remaining_time
    }
}

/// Ticks from `t` until the latest start time in `ps`, or 0 if every
/// process starts before `t`.
pub open spec fn pending(ps: Seq<Process>, t: int) -> int
    decreases ps.len(),
{
    if ps.len() == 0 {
        0
    } else {
        let r = pending(ps.drop_last(), t);
        let d = ps.last().start_time - t;
        if d > r {
            d
        } else {
            r
        }
    }
}

proof fn lemma_work_left_bounds(ps: Seq<Process>, i: int)
    requires
        0 <= i < ps.len(),
    ensures
        work_left(ps) >= ps[i].remaining_time,
    decreases ps.len(),
{
    if i < ps.len() - 1 {
        lemma_work_left_bounds(ps.drop_last(), i);
    }
    lemma_work_left_nonneg(ps.drop_last());
}

proof fn lemma_work_left_nonneg(ps: Seq<Process>)
    ensures
        work_left(ps) >= 0,
    decreases ps.len(),
{
    if ps.len() > 0 {
        lemma_work_left_nonneg(ps.drop_last());
    }
}

/// Remaining times that agree everywhere but at `c`, one less there, give
/// one unit less of work.
proof fn lemma_work_left_step(a: Seq<Process>, b: Seq<Process>, c: Option<int>)
    requires
        a.len() == b.len(),
        c matches Some(k) ==> 0 <= k < a.len() && b[k].remaining_time == a[k].remaining_time
            - 1,
        forall|j: int|
            0 <= j < a.len() && c != Some(j) ==> a[j].remaining_time == b[j].remaining_time,
    ensures
        work_left(b) == work_left(a) - if c is Some {
            1int
        } else {
            0int
        },
    decreases a.len(),
{
    if a.len() > 0 {
        let n = a.len() - 1;
        let c2 = if c == Some(n) {
            None
        } else {
            c
        };
        assert forall|j: int|
            0 <= j < a.drop_last().len() && c2 != Some(j) implies a.drop_last()[j].remaining_time
            == b.drop_last()[j].remaining_time by {
            assert(a.drop_last()[j] == a[j]);
            assert(b.drop_last()[j] == b[j]);
        }
        if let Some(k) = c2 {
            assert(a.drop_last()[k] == a[k]);
            assert(b.drop_last()[k] == b[k]);
        }
        lemma_work_left_step(a.drop_last(), b.drop_last(), c2);
    }
}

/// A tick later, the latest start time is one tick nearer, down to 0.
proof fn lemma_pending_step(a: Seq<Process>, b: Seq<Process>, t: int)
    requires
        a.len() == b.len(),
        forall|j: int| 0 <= j < a.len() ==> a[j].start_time == b[j].start_time,
    ensures
        pending(a, t) >= 0,
        pending(b, t + 1) == if pending(a, t) > 0 {
            pending(a, t) - 1
        } else {
            0
        },
    decreases a.len(),
{
    if a.len() > 0 {
        assert forall|j: int| 0 <= j < a.drop_last().len() implies a.drop_last()[j].start_time
            == b.drop_last()[j].start_time by {
            assert(a.drop_last()[j] == a[j]);
            assert(b.drop_last()[j] == b[j]);
        }
        lemma_pending_step(a.drop_last(), b.drop_last(), t);
    }
}

proof fn lemma_pending_bounds(ps: Seq<Process>, t: int, i: int)
    requires
        0 <= i < ps.len(),
    ensures
        pending(ps, t) >= ps[i].start_time - t,
        pending(ps, t) >= 0,
    decreases ps.len(),
{
    if i < ps.len() - 1 {
        lemma_pending_bounds(ps.drop_last(), t, i);
    } else if ps.len() > 1 {
        lemma_pending_bounds(ps.drop_last(), t, 0);
    }
}

/// A run finishes when the tick limit leaves room for the work left and
/// the wait for the latest arrival: the processor idles only on ticks when
/// no process is schedulable.
pub proof fn lemma_done_within(s: SimState, max_ticks: int)
    requires
        wf(s),
        max_ticks <= u64::MAX,
        max_ticks >= s.system_time + work_left(s.processes) + pending(
            s.processes,
            s.system_time,
        ),
    ensures
        is_done(run_from(s, max_ticks).1),
        run_from(s, max_ticks).1.system_time <= s.system_time + work_left(s.processes) + pending(
            s.processes,
            s.system_time,
        ),
    decreases max_ticks - s.system_time,
{
    lemma_work_left_nonneg(s.processes);
    lemma_pending_step(s.processes, s.processes, s.system_time);
    if !is_done(s) {
        let ps = s.processes;
        let t = s.system_time;
        let n = next(s);
        lemma_work_left_nonneg(ps);
        lemma_pending_step(ps, n.processes, t);
        let u = choose|i: int| 0 <= i < ps.len() && !(ps[i].state is Terminated);
        lemma_work_left_bounds(ps, u);
        assert(t < max_ticks);
        lemma_next_wf(s);
        lemma_chosen_schedulable(s);
        assert forall|j: int| 0 <= j < ps.len() && chosen(s) != Some(j) implies ps[j].remaining_time
            == n.processes[j].remaining_time by {
            assert(arrived(s)[j].remaining_time == ps[j].remaining_time);
        }
        if let Some(k) = chosen(s) {
            assert(arrived(s)[k].remaining_time == ps[k].remaining_time);
        }
        lemma_work_left_step(ps, n.processes, chosen(s));
        assert(run_from(s, max_ticks).1 == run_from(n, max_ticks).1);
        if chosen(s) is Some {
            assert(work_left(n.processes) == work_left(ps) - 1);
            assert(pending(n.processes, t + 1) <= pending(ps, t));
            lemma_done_within(n, max_ticks);
            assert(is_done(run_from(n, max_ticks).1));
        } else {
            assert(!arrived(s)[u].state.is_schedulable_spec());
            lemma_pending_bounds(ps, t, u);
            assert(work_left(n.processes) == work_left(ps));
            assert(pending(n.processes, t + 1) == pending(ps, t) - 1);
            lemma_done_within(n, max_ticks);
            assert(is_done(run_from(n, max_ticks).1));
        }
    }
}

} // verus!
