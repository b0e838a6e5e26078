use vstd::prelude::*;
use crate::process::{ids_unique, Process};

verus! {

/// A scheduling policy: how the next occupant of the processor is chosen.
#[derive(Clone, Copy, Debug, PartialEq, Eq, Structural)]
pub enum Policy {
    /// Non-preemptive; earliest `start_time` first.
    FirstComeFirstServed,
    /// Non-preemptive; smallest `remaining_time` first.
    ShortestJobFirst,
    /// Non-preemptive; smallest `priority` value first.
    HighestPriorityFirst,
    /// Preemptive; smallest `priority` value first.
    HighestPriorityFirstPreemptive,
    /// Preemptive; smallest `remaining_time` first.
    ShortestRemainingTime,
    /// Time-sliced; not supported by the simulator.
    RoundRobin,
    /// Multiple feedback queues; not supported by the simulator.
    MultiLevelFeedbackQueue,
}

impl Policy {
    pub open spec fn is_supported(self) -> bool {
        !(self is RoundRobin) && !(self is MultiLevelFeedbackQueue)
    }

    pub open spec fn is_preemptive(self) -> bool {
        !(self is FirstComeFirstServed) && !(self is ShortestJobFirst)
            && !(self is HighestPriorityFirst)
    }

    /// The selection key of `p`: smaller keys are chosen first.
    pub open spec fn key_spec(self, p: Process) -> u64 {
        match self {
            Policy::FirstComeFirstServed => p.start_time,
            Policy::ShortestJobFirst | Policy::ShortestRemainingTime => p.remaining_time,
            Policy::HighestPriorityFirst | Policy::HighestPriorityFirstPreemptive => p.priority,
            _ => 0,
        }
    }

    /// `a` comes no later than `b`: by key, then by ascending id.
    pub open spec fn precedes(self, a: Process, b: Process) -> bool {
        self.key_spec(a) < self.key_spec(b) || (self.key_spec(a) == self.key_spec(b) && a.id
            <= b.id)
    }

    pub fn is_supported_exec(&self) -> (r: bool)
        ensures
            r == self.is_supported(),
    {
        match self {
            Policy::RoundRobin | Policy::MultiLevelFeedbackQueue => false,
            _ => true,
        }
    }

    pub fn preemptive(&self) -> (r: bool)
        ensures
            r == self.is_preemptive(),
    {
        match self {
            Policy::FirstComeFirstServed | Policy::ShortestJobFirst
            | Policy::HighestPriorityFirst => false,
            _ => true,
        }
    }

    pub fn key(&self, p: &Process) -> (r: u64)
        ensures
            r == self.key_spec(*p),
    {
        match self {
            Policy::FirstComeFirstServed => p.start_time,
            Policy::ShortestJobFirst | Policy::ShortestRemainingTime => p.remaining_time,
            Policy::HighestPriorityFirst | Policy::HighestPriorityFirstPreemptive => p.priority,
            _ => 0,
        }
    }

    /// The position of the schedulable process that this policy runs next
    /// among `processes`, or `None` when no process is schedulable.
    pub fn select(&self, processes: &Vec<Process>) -> (r: Option<usize>)
        requires
            ids_unique(processes@),
        ensures
            r matches Some(i) ==> best(*self, processes@) == Some(i as int) && is_best(
                *self,
                processes@,
                i as int,
            ),
            r is None ==> best(*self, processes@) is None,
    {
        let mut found: Option<usize> = None;
        let mut i: usize = 0;
        while i < processes.len()
            invariant
                i <= processes.len(),
                found matches Some(f) ==> {
                    &&& f < i
                    &&& processes@[f as int].state.is_schedulable_spec()
                    &&& forall|j: int|
                        0 <= j < i && processes@[j].state.is_schedulable_spec() ==> self.precedes(
                            processes@[f as int],
                            processes@[j],
                        )
                },
                found is None ==> forall|j: int|
                    0 <= j < i ==> !processes@[j].state.is_schedulable_spec(),
            decreases processes.len() - i,
        {
            let p = &processes[i];
            if p.state.is_schedulable() {
                match found {
                    None => {
                        found = Some(i);
                    },
                    Some(f) => {
                        let q = &processes[f];
                        let kp = self.key(p);
                        let kq = self.key(q);
                        if kp < kq || (kp == kq && p.id < q.id) {
                            found = Some(i);
                        }
                    },
                }
            }
            i = i + 1;
        }
        proof {
            match found {
                Some(f) => {
                    assert(is_best(*self, processes@, f as int));
                    lemma_best_is(*self, processes@, f as int);
                },
                None => {},
            }
        }
        found
    }
}

/// Position `i` of `ps` holds a schedulable process that precedes every
/// other schedulable process under `policy`.
pub open spec fn is_best(policy: Policy, ps: Seq<Process>, i: int) -> bool {
    &&& 0 <= i < ps.len()
    &&& ps[i].state.is_schedulable_spec()
    &&& forall|j: int|
        0 <= j < ps.len() && ps[j].state.is_schedulable_spec() ==> policy.precedes(ps[i], ps[j])
}

/// The position that `policy` selects among `ps`, if any process is schedulable.
pub open spec fn best(policy: Policy, ps: Seq<Process>) -> Option<int> {
    if exists|i: int| is_best(policy, ps, i) {
        Some(choose|i: int| is_best(policy, ps, i))
    } else {
        None
    }
}

/// With unique ids at most one position is best.
pub proof fn lemma_best_unique(policy: Policy, ps: Seq<Process>, i: int, j: int)
    requires
        ids_unique(ps),
        is_best(policy, ps, i),
        is_best(policy, ps, j),
    ensures
        i == j,
{
    assert(policy.precedes(ps[i], ps[j]));
    assert(policy.precedes(ps[j], ps[i]));
}

/// A best position is the one that `best` names.
pub proof fn lemma_best_is(policy: Policy, ps: Seq<Process>, i: int)
    requires
        ids_unique(ps),
        is_best(policy, ps, i),
    ensures
        best(policy, ps) == Some(i),
{
    let c = choose|k: int| is_best(policy, ps, k);
    lemma_best_unique(policy, ps, i, c);
}

/// `best` is `None` exactly when no process is schedulable.
pub proof fn lemma_best_none(policy: Policy, ps: Seq<Process>)
    ensures
        best(policy, ps) is None <==> forall|j: int|
            0 <= j < ps.len() ==> !ps[j].state.is_schedulable_spec(),
{
    if best(policy, ps) is None {
        assert forall|j: int| 0 <= j < ps.len() implies !ps[j].state.is_schedulable_spec() by {
            if ps[j].state.is_schedulable_spec() {
                lemma_some_schedulable_has_best(policy, ps, j);
            }
        }
    } else {
        let c = choose|k: int| is_best(policy, ps, k);
        assert(ps[c].state.is_schedulable_spec());
    }
}

/// When some process is schedulable, some position is best.
proof fn lemma_some_schedulable_has_best(policy: Policy, ps: Seq<Process>, j: int)
    requires
        0 <= j < ps.len(),
        ps[j].state.is_schedulable_spec(),
    ensures
        exists|i: int| is_best(policy, ps, i),
    decreases ps.len(),
{
    let n = ps.len() - 1;
    if j == n {
        if exists|k: int| 0 <= k < n && ps[k].state.is_schedulable_spec() {
            let k = choose|k: int| 0 <= k < n && ps[k].state.is_schedulable_spec();
            lemma_some_schedulable_has_best(policy, ps.drop_last(), k);
            let b = choose|i: int| is_best(policy, ps.drop_last(), i);
            lemma_extend_best(policy, ps, b);
        } else {
            assert(is_best(policy, ps, n));
        }
    } else {
        lemma_some_schedulable_has_best(policy, ps.drop_last(), j);
        let b = choose|i: int| is_best(policy, ps.drop_last(), i);
        lemma_extend_best(policy, ps, b);
    }
}

/// The best of a prefix, or the last process, is best of the whole.
proof fn lemma_extend_best(policy: Policy, ps: Seq<Process>, b: int)
    requires
        ps.len() > 0,
        is_best(policy, ps.drop_last(), b),
    ensures
        exists|i: int| is_best(policy, ps, i),
{
    let n = ps.len() - 1;
    let pre = ps.drop_last();
    assert(pre[b] == ps[b]);
    if !ps[n].state.is_schedulable_spec() || policy.precedes(ps[b], ps[n]) {
        assert forall|j: int|
            0 <= j < ps.len() && ps[j].state.is_schedulable_spec() implies policy.precedes(
            ps[b],
            ps[j],
        ) by {
            if j < n {
                assert(pre[j] == ps[j]);
            }
        }
        assert(is_best(policy, ps, b));
    } else {
        assert forall|j: int|
            0 <= j < ps.len() && ps[j].state.is_schedulable_spec() implies policy.precedes(
            ps[n],
            ps[j],
        ) by {
            if j < n {
                assert(pre[j] == ps[j]);
                assert(policy.precedes(ps[b], ps[j]));
            }
        }
        assert(is_best(policy, ps, n));
    }
}

/// Changing states within the schedulable ones, and nothing else that the
/// selection reads, leaves the selection unchanged.
pub proof fn lemma_best_congruent(policy: Policy, a: Seq<Process>, b: Seq<Process>)
    requires
        ids_unique(a),
        a.len() == b.len(),
        forall|i: int|
            #![trigger a[i]]
            #![trigger b[i]]
            0 <= i < a.len() ==> {
                &&& a[i].id == b[i].id
                &&& a[i].start_time == b[i].start_time
                &&& a[i].remaining_time == b[i].remaining_time
                &&& a[i].priority == b[i].priority
                &&& a[i].state.is_schedulable_spec() == b[i].state.is_schedulable_spec()
            },
    ensures
        best(policy, a) == best(policy, b),
{
    assert forall|i: int| #[trigger] is_best(policy, a, i) == is_best(policy, b, i) by {
        if 0 <= i < a.len() {
            assert forall|j: int| 0 <= j < a.len() implies policy.precedes(a[i], a[j])
                == policy.precedes(b[i], b[j]) by {
                assert(a[j].id == b[j].id);
            }
        }
    }
    assert(ids_unique(b));
    if exists|i: int| is_best(policy, a, i) {
        let i = choose|i: int| is_best(policy, a, i);
        lemma_best_is(policy, a, i);
        lemma_best_is(policy, b, i);
    } else if exists|i: int| is_best(policy, b, i) {
        let i = choose|i: int| is_best(policy, b, i);
        assert(is_best(policy, a, i));
    }
}

} // verus!
