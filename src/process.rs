use vstd::prelude::*;

verus! {

/// Lifecycle state of a process.
#[derive(Clone, Copy, Debug, PartialEq, Eq, Structural)]
pub enum ProcessState {
    /// Not yet arrived.
    NonExistent,
    /// Arrived and eligible, not executing.
    Ready,
    /// Currently assigned the processor.
    Running,
    /// Preempted: eligible, not executing.
    Suspended,
    /// Finished its work; no transition leaves this state.
    Terminated,
}

impl ProcessState {
    /// A schedulable process has arrived and has not terminated.
    pub open spec fn is_schedulable_spec(self) -> bool {
        self is Ready || self is Running || self is Suspended
    }

    /// A waiting process is eligible to run but does not hold the processor.
    pub open spec fn is_waiting_spec(self) -> bool {
        self is Ready || self is Suspended
    }

    pub fn is_schedulable(&self) -> (r: bool)
        ensures
            r == self.is_schedulable_spec(),
    {
        match self {
            ProcessState::Ready | ProcessState::Running | ProcessState::Suspended => true,
            _ => false,
        }
    }

    pub fn is_terminated(&self) -> (r: bool)
        ensures
            r == (*self is Terminated),
    {
        match self {
            ProcessState::Terminated => true,
            _ => false,
        }
    }
}

/// A unit of work with its timing, priority and lifecycle state.
///
/// `remaining_time + serviced_time` is the process's fixed total execution
/// time; a lower `priority` value means a more urgent process.
/// Two processes are equal when they have the same id: a process keeps its
/// id for its whole life, while its timing fields and state change.
#[derive(Clone, Copy, Debug, Eq)]
pub struct Process {
    pub id: usize,
    pub start_time: u64,
    pub remaining_time: u64,
    pub serviced_time: u64,
    pub waiting_time: u64,
    pub priority: u64,
    pub state: ProcessState,
}

impl PartialEq for Process {
    fn eq(&self, other: &Process) -> (r: bool) {
        self.id == other.id
    }
}

impl vstd::std_specs::cmp::PartialEqSpecImpl for Process {
    open spec fn obeys_eq_spec() -> bool {
        true
    }

    open spec fn eq_spec(&self, other: &Process) -> bool {
        self.id == other.id
    }
}

impl Process {
    /// A process that has not run yet: all of its work is still to do.
    pub open spec fn is_fresh(self) -> bool {
        &&& self.state is NonExistent
        &&& self.serviced_time == 0
        &&& self.waiting_time == 0
    }

    /// Total execution time: work done plus work left.
    pub open spec fn total_time(self) -> int {
        self.remaining_time + self.serviced_time
    }

    pub fn new(id: usize, start_time: u64, execution_time: u64, priority: u64) -> (r: Process)
        ensures
            r.id == id,
            r.start_time == start_time,
            r.remaining_time == execution_time,
            r.priority == priority,
            r.serviced_time == 0,
            r.waiting_time == 0,
            r.state is NonExistent,
    {
        Process {
            id,
            start_time,
            remaining_time: execution_time,
            serviced_time: 0,
            waiting_time: 0,
            priority,
            state: ProcessState::NonExistent,
        }
    }
}

/// No two processes of `ps` share an id.
pub open spec fn ids_unique(ps: Seq<Process>) -> bool {
    forall|i: int, j: int|
        0 <= i < ps.len() && 0 <= j < ps.len() && i != j ==> ps[i].id != ps[j].id
}

} // verus!
