use vstd::prelude::*;
use crate::event::{transitions_of, SchedulingEvent};
use crate::laws::{lemma_tick_not_interrupted, lemma_waiting_time};
use crate::model::{
    arrive, chosen, decide, dispatch, dispatched, is_done, lemma_chosen_schedulable,
    lemma_done_within, lemma_next_wf, next, pending, run_from, schedulable_of, serve,
    slots_valid, tick_event, unfinished_ids, unfinished_of, wf, with_state, work_left, SimState,
};
use crate::policy::{lemma_best_congruent, Policy};
use crate::process::{ids_unique, Process, ProcessState};

verus! {

/// The run length that a time-sliced policy would grant a process.
pub const DEFAULT_TIME_QUANTUM: u64 = 3;

/// Why a simulation cannot be set up.
#[derive(Clone, Copy, Debug, PartialEq, Eq, Structural)]
pub enum ConfigError {
    /// The policy is not implemented by the simulator.
    UnsupportedPolicy,
    /// Two processes share an id.
    DuplicateId,
    /// A process has no work to do.
    ZeroExecutionTime,
    /// A process is not in the state that `Process::new` gives.
    AlreadyStarted,
}

/// Why a simulation stopped before every process terminated.
#[derive(Debug, PartialEq, Eq)]
pub enum RunError {
    /// The clock reached the tick limit; `stalled` holds the ids of the
    /// processes that had not terminated, in order.
    TickLimitExceeded { stalled: Vec<usize> },
}

/// Why a process cannot be made the occupant.
#[derive(Clone, Copy, Debug, PartialEq, Eq, Structural)]
pub enum SelectionError {
    /// No process has the id.
    UnknownId,
    /// The process has not arrived or has terminated.
    NotSchedulable,
}

/// The simulation driver: owns the processes and the clock, and applies its
/// policy every tick.
pub struct Processor {
    previous: Option<usize>,
    current: Option<usize>,
    processes: Vec<Process>,
    policy: Policy,
    system_time: u64,
    time_quantum: u64,
}

impl View for Processor {
    type V = SimState;

    closed spec fn view(&self) -> SimState {
        SimState {
            processes: self.processes@,
            current: match self.current {
                Some(c) => Some(c as int),
                None => None,
            },
            previous: match self.previous {
                Some(c) => Some(c as int),
                None => None,
            },
            system_time: self.system_time as int,
            policy: self.policy,
            time_quantum: self.time_quantum as int,
        }
    }
}

/// What setting up a simulation of `ps` under `policy` gives: the first
/// failed check, in the order listed, or the initial state.
pub open spec fn configured(ps: Seq<Process>, policy: Policy) -> Result<SimState, ConfigError> {
    if !policy.is_supported() {
        Err(ConfigError::UnsupportedPolicy)
    } else if !ids_unique(ps) {
        Err(ConfigError::DuplicateId)
    } else if exists|i: int| 0 <= i < ps.len() && ps[i].remaining_time == 0 {
        Err(ConfigError::ZeroExecutionTime)
    } else if exists|i: int| 0 <= i < ps.len() && !ps[i].is_fresh() {
        Err(ConfigError::AlreadyStarted)
    } else {
        Ok(
            SimState {
                processes: ps,
                current: None,
                previous: None,
                system_time: 0,
                policy,
                time_quantum: DEFAULT_TIME_QUANTUM as int,
            },
        )
    }
}

/// `r` is what setting up a simulation of `ps` under `policy` gives.
pub open spec fn is_setup_of(r: Result<Processor, ConfigError>, ps: Seq<Process>, policy: Policy) -> bool {
    match r {
        Ok(p) => configured(ps, policy) == Ok::<SimState, ConfigError>(p@) && wf(p@),
        Err(e) => configured(ps, policy) == Err::<SimState, ConfigError>(e),
    }
}

/// A simulation that is set up starts in a well-formed state.
pub proof fn lemma_configured_wf(ps: Seq<Process>, policy: Policy)
    requires
        configured(ps, policy) is Ok,
    ensures
        wf(configured(ps, policy)->Ok_0),
{
    assert forall|i: int| 0 <= i < ps.len() implies ps[i].remaining_time != 0 && ps[i].is_fresh() by {
        if ps[i].remaining_time == 0 {
            assert(exists|j: int| 0 <= j < ps.len() && ps[j].remaining_time == 0);
        }
        if !ps[i].is_fresh() {
            assert(exists|j: int| 0 <= j < ps.len() && !ps[j].is_fresh());
        }
    }
}

impl Processor {
    /// Sets up a simulation of `processes` under `policy`.
    pub fn new(processes: Vec<Process>, policy: Policy) -> (r: Result<Processor, ConfigError>)
        ensures
            is_setup_of(r, processes@, policy),
    {
        if !policy.is_supported_exec() {
            return Err(ConfigError::UnsupportedPolicy);
        }
        let n = processes.len();
        let mut i: usize = 0;
        while i < n
            invariant
                n == processes.len(),
                policy.is_supported(),
                i <= n,
                forall|a: int, b: int|
                    0 <= a < i && 0 <= b < n && a != b ==> processes@[a].id != processes@[b].id,
            decreases n - i,
        {
            let mut j: usize = 0;
            while j < n
                invariant
                    n == processes.len(),
                policy.is_supported(),
                    i < n,
                    j <= n,
                    forall|a: int, b: int|
                        0 <= a < i && 0 <= b < n && a != b ==> processes@[a].id
                            != processes@[b].id,
                    forall|b: int| 0 <= b < j && i != b ==> processes@[i as int].id != processes@[b].id,
                decreases n - j,
            {
                if j != i && processes[i].id == processes[j].id {
                    assert(!ids_unique(processes@));
                    return Err(ConfigError::DuplicateId);
                }
                j = j + 1;
            }
            i = i + 1;
        }
        assert(ids_unique(processes@));
        let mut i: usize = 0;
        while i < n
            invariant
                n == processes.len(),
                policy.is_supported(),
                i <= n,
                ids_unique(processes@),
                forall|a: int| 0 <= a < i ==> processes@[a].remaining_time != 0,
            decreases n - i,
        {
            if processes[i].remaining_time == 0 {
                assert(processes@[i as int].remaining_time == 0);
                return Err(ConfigError::ZeroExecutionTime);
            }
            i = i + 1;
        }
        let mut i: usize = 0;
        while i < n
            invariant
                n == processes.len(),
                policy.is_supported(),
                i <= n,
                ids_unique(processes@),
                forall|a: int| 0 <= a < n ==> processes@[a].remaining_time != 0,
                forall|a: int| 0 <= a < i ==> processes@[a].is_fresh(),
            decreases n - i,
        {
            let p = &processes[i];
            let fresh = match p.state {
                ProcessState::NonExistent => p.serviced_time == 0 && p.waiting_time == 0,
                _ => false,
            };
            if !fresh {
                assert(!processes@[i as int].is_fresh());
                return Err(ConfigError::AlreadyStarted);
            }
            i = i + 1;
        }
        Ok(
            Processor {
                previous: None,
                current: None,
                processes,
                policy,
                system_time: 0,
                time_quantum: DEFAULT_TIME_QUANTUM,
            },
        )
    }

    /// Sets up a first-come-first-served simulation of `processes`.
    pub fn first_come_first_serve(processes: Vec<Process>) -> (r: Result<Processor, ConfigError>)
        ensures
            is_setup_of(r, processes@, Policy::FirstComeFirstServed),
    {
        Processor::new(processes, Policy::FirstComeFirstServed)
    }

    /// Sets up a shortest-job-first simulation of `processes`.
    pub fn shortest_job_first(processes: Vec<Process>) -> (r: Result<Processor, ConfigError>)
        ensures
            is_setup_of(r, processes@, Policy::ShortestJobFirst),
    {
        Processor::new(processes, Policy::ShortestJobFirst)
    }

    /// Sets up a non-preemptive highest-priority-first simulation of `processes`.
    pub fn highest_priority_first(processes: Vec<Process>) -> (r: Result<Processor, ConfigError>)
        ensures
            is_setup_of(r, processes@, Policy::HighestPriorityFirst),
    {
        Processor::new(processes, Policy::HighestPriorityFirst)
    }

    /// Sets up a preemptive highest-priority-first simulation of `processes`.
    pub fn highest_priority_first_preemptive(processes: Vec<Process>) -> (r: Result<Processor, ConfigError>)
        ensures
            is_setup_of(r, processes@, Policy::HighestPriorityFirstPreemptive),
    {
        Processor::new(processes, Policy::HighestPriorityFirstPreemptive)
    }

    /// Sets up a shortest-remaining-time simulation of `processes`.
    pub fn shortest_remaining_time(processes: Vec<Process>) -> (r: Result<Processor, ConfigError>)
        ensures
            is_setup_of(r, processes@, Policy::ShortestRemainingTime),
    {
        Processor::new(processes, Policy::ShortestRemainingTime)
    }

    /// A round-robin simulation is not supported: always refused.
    pub fn round_robin(processes: Vec<Process>) -> (r: Result<Processor, ConfigError>)
        ensures
            r matches Err(ConfigError::UnsupportedPolicy),
    {
        Processor::new(processes, Policy::RoundRobin)
    }

    /// A multi-level-feedback-queue simulation is not supported: always refused.
    pub fn multi_level_feedback_queue(processes: Vec<Process>) -> (r: Result<Processor, ConfigError>)
        ensures
            r matches Err(ConfigError::UnsupportedPolicy),
    {
        Processor::new(processes, Policy::MultiLevelFeedbackQueue)
    }

    /// Processes whose start time is the current tick arrive.
    fn admit_arrivals(&mut self)
        ensures
            final(self)@ == (SimState { processes: arrive(old(self)@.processes, old(self)@.system_time), ..old(self)@ }),
    {
        let ghost ps0 = self.processes@;
        let n = self.processes.len();
        let mut i: usize = 0;
        while i < n
            invariant
                n == self.processes.len(),
                n == ps0.len(),
                i <= n,
                self.current == old(self).current,
                self.previous == old(self).previous,
                self.policy == old(self).policy,
                self.system_time == old(self).system_time,
                self.time_quantum == old(self).time_quantum,
                ps0 == old(self).processes@,
                forall|j: int| 0 <= j < i ==> self.processes@[j] == arrive(ps0, self.system_time as int)[j],
                forall|j: int| i <= j < n ==> self.processes@[j] == ps0[j],
            decreases n - i,
        {
            let mut p = self.processes[i];
            if p.start_time == self.system_time {
                if let ProcessState::NonExistent = p.state {
                    p.state = ProcessState::Ready;
                }
            }
            self.processes.set(i, p);
            i = i + 1;
        }
        assert(self.processes@ =~= arrive(ps0, self.system_time as int));
    }

    /// Position of the process with id `id`.
    fn position_of(&self, id: usize) -> (r: Option<usize>)
        ensures
            r matches Some(i) ==> i < self@.processes.len() && self@.processes[i as int].id == id,
            r is None ==> forall|i: int|
                0 <= i < self@.processes.len() ==> self@.processes[i].id != id,
    {
        let mut i: usize = 0;
        while i < self.processes.len()
            invariant
                i <= self.processes.len(),
                forall|j: int| 0 <= j < i ==> self.processes@[j].id != id,
            decreases self.processes.len() - i,
        {
            if self.processes[i].id == id {
                return Some(i);
            }
            i = i + 1;
        }
        None
    }

    /// Sets the state of the occupant, if there is one.
    pub fn set_current_process_state(&mut self, state: ProcessState)
        requires
            slots_valid(old(self)@),
        ensures
            final(self)@ == (SimState {
                processes: match old(self)@.current {
                    Some(c) => with_state(old(self)@.processes, c, state),
                    None => old(self)@.processes,
                },
                ..old(self)@
            }),
    {
        if let Some(c) = self.current {
            let mut p = self.processes[c];
            p.state = state;
            self.processes.set(c, p);
        }
    }

    /// Demotes a running occupant to `Suspended`; a terminated or ready
    /// occupant keeps its state.
    pub fn suspend_current(&mut self)
        requires
            slots_valid(old(self)@),
        ensures
            final(self)@ == (SimState {
                processes: match old(self)@.current {
                    Some(c) => if !(old(self)@.processes[c].state is Terminated) && !(old(
                        self,
                    )@.processes[c].state is Ready) {
                        with_state(old(self)@.processes, c, ProcessState::Suspended)
                    } else {
                        old(self)@.processes
                    },
                    None => old(self)@.processes,
                },
                ..old(self)@
            }),
    {
        if let Some(c) = self.current {
            let st = self.processes[c].state;
            match st {
                ProcessState::Terminated | ProcessState::Ready => {},
                _ => {
                    let mut p = self.processes[c];
                    p.state = ProcessState::Suspended;
                    self.processes.set(c, p);
                },
            }
        }
    }

    /// Makes position `slot` the occupant and marks it `Running`.
    fn set_current_slot(&mut self, slot: Option<usize>)
        requires
            slot matches Some(c) ==> c < old(self)@.processes.len(),
            slots_valid(old(self)@),
        ensures
            final(self)@ == (SimState {
                current: match slot {
                    Some(c) => Some(c as int),
                    None => None,
                },
                processes: match slot {
                    Some(c) => with_state(old(self)@.processes, c as int, ProcessState::Running),
                    None => old(self)@.processes,
                },
                ..old(self)@
            }),
    {
        self.current = slot;
        self.set_current_process_state(ProcessState::Running);
    }

    /// Makes the process with id `id` the occupant and marks it `Running`;
    /// `None` vacates the processor. An id that no process has, or a process
    /// that is not schedulable, is refused and nothing changes.
    pub fn set_current(&mut self, id: Option<usize>) -> (r: Result<(), SelectionError>)
        requires
            slots_valid(old(self)@),
            ids_unique(old(self)@.processes),
        ensures
            id is None ==> r is Ok && final(self)@ == (SimState { current: None, ..old(self)@ }),
            id matches Some(x) && (forall|i: int|
                0 <= i < old(self)@.processes.len() ==> old(self)@.processes[i].id != x) ==> {
                &&& r == Err::<(), SelectionError>(SelectionError::UnknownId)
                &&& final(self)@ == old(self)@
            },
            forall|c: int|
                0 <= c < old(self)@.processes.len() && id == Some(
                    #[trigger] old(self)@.processes[c].id,
                ) ==> if old(self)@.processes[c].state.is_schedulable_spec() {
                    &&& r is Ok
                    &&& final(self)@ == (SimState {
                        current: Some(c),
                        processes: with_state(old(self)@.processes, c, ProcessState::Running),
                        ..old(self)@
                    })
                } else {
                    &&& r == Err::<(), SelectionError>(SelectionError::NotSchedulable)
                    &&& final(self)@ == old(self)@
                },
    {
        match id {
            None => {
                self.set_current_slot(None);
                Ok(())
            },
            Some(x) => match self.position_of(x) {
                None => Err(SelectionError::UnknownId),
                Some(c) => {
                    if self.processes[c].state.is_schedulable() {
                        self.set_current_slot(Some(c));
                        Ok(())
                    } else {
                        Err(SelectionError::NotSchedulable)
                    }
                },
            },
        }
    }

    /// The occupant is missing or has terminated: a non-preemptive policy
    /// decides anew.
    fn needs_schedule(&self) -> (r: bool)
        requires
            slots_valid(self@),
        ensures
            r == match self@.current {
                Some(c) => self@.processes[c].state is Terminated,
                None => true,
            },
    {
        match self.current {
            Some(c) => self.processes[c].state.is_terminated(),
            None => true,
        }
    }

    /// Applies the policy to the arrived processes: decides the occupant and
    /// updates the states. A non-preemptive policy keeps an occupant that
    /// has not terminated; otherwise the least schedulable process by
    /// (selection key, id) is chosen and a displaced running occupant is
    /// suspended. Only the occupant and the states change.
    pub fn schedule(&mut self)
        requires
            slots_valid(old(self)@),
            ids_unique(old(self)@.processes),
            old(self)@.current matches Some(c) ==> (old(self)@.processes[c].state is Running
                || old(self)@.processes[c].state is Terminated),
        ensures
            final(self)@ == (SimState {
                processes: dispatch(
                    old(self)@.processes,
                    old(self)@.current,
                    decide(old(self)@.policy, old(self)@.processes, old(self)@.current),
                ),
                current: decide(old(self)@.policy, old(self)@.processes, old(self)@.current),
                ..old(self)@
            }),
    {
        let ghost ps = self@.processes;
        let ghost cur = self@.current;
        let ghost d = decide(self@.policy, ps, cur);
        if self.policy.preemptive() {
            self.suspend_current();
            let ghost ps1 = self@.processes;
            proof {
                lemma_best_congruent(self@.policy, ps, ps1);
            }
            let slot = self.policy.select(&self.processes);
            self.set_current_slot(slot);
            assert(self@.processes =~= dispatch(ps, cur, d));
        } else if self.needs_schedule() {
            let slot = self.policy.select(&self.processes);
            self.set_current_slot(slot);
            assert(self@.processes =~= dispatch(ps, cur, d));
        } else {
            assert(self@.processes =~= dispatch(ps, cur, d));
        }
    }

    /// Serves the occupant for one tick; every waiting process waits longer.
    fn serve_current(&mut self)
        requires
            slots_valid(old(self)@),
            old(self)@.current matches Some(c) ==> old(self)@.processes[c].remaining_time > 0
                && old(self)@.processes[c].serviced_time < u64::MAX,
            forall|i: int|
                0 <= i < old(self)@.processes.len() ==> old(self)@.processes[i].waiting_time
                    < u64::MAX,
        ensures
            final(self)@ == (SimState {
                processes: serve(old(self)@.processes, old(self)@.current),
                ..old(self)@
            }),
    {
        let ghost ps0 = self@.processes;
        let ghost cur = self@.current;
        let n = self.processes.len();
        let mut i: usize = 0;
        while i < n
            invariant
                n == self.processes.len(),
                n == ps0.len(),
                i <= n,
                self.current == old(self).current,
                self.previous == old(self).previous,
                self.policy == old(self).policy,
                self.system_time == old(self).system_time,
                self.time_quantum == old(self).time_quantum,
                ps0 == old(self)@.processes,
                cur == old(self)@.current,
                cur == self@.current,
                slots_valid(old(self)@),
                cur matches Some(c) ==> ps0[c].remaining_time > 0 && ps0[c].serviced_time
                    < u64::MAX,
                forall|j: int| 0 <= j < n ==> ps0[j].waiting_time < u64::MAX,
                forall|j: int| 0 <= j < i ==> self.processes@[j] == serve(ps0, cur)[j],
                forall|j: int| i <= j < n ==> self.processes@[j] == ps0[j],
            decreases n - i,
        {
            let mut p = self.processes[i];
            assert(p == ps0[i as int]);
            assert(p.waiting_time < u64::MAX);
            if self.current == Some(i) {
                p.remaining_time = p.remaining_time - 1;
                p.serviced_time = p.serviced_time + 1;
                p.waiting_time = 0;
                if p.remaining_time == 0 {
                    p.state = ProcessState::Terminated;
                } else {
                    p.state = ProcessState::Running;
                }
            } else {
                match p.state {
                    ProcessState::Ready | ProcessState::Suspended => {
                        p.waiting_time = p.waiting_time + 1;
                    },
                    _ => {},
                }
            }
            self.processes.set(i, p);
            i = i + 1;
        }
        assert(self.processes@ =~= serve(ps0, cur));
    }

    /// Advances the simulation by one tick and returns its record.
    pub fn tick(&mut self) -> (e: SchedulingEvent)
        requires
            wf(old(self)@),
            old(self)@.system_time < u64::MAX,
        ensures
            final(self)@ == next(old(self)@),
            e == tick_event(old(self)@),
            wf(final(self)@),
            forall|i: int, j: int|
                0 <= i < final(self)@.processes.len() && 0 <= j < final(self)@.processes.len()
                    && (#[trigger] final(self)@.processes[i]).state is Running && (
                #[trigger] final(self)@.processes[j]).state is Running ==> i == j,
            forall|i: int|
                0 <= i < final(self)@.processes.len() ==> {
                    &&& final(self)@.current == Some(i)
                        ==> (#[trigger] final(self)@.processes[i]).waiting_time == 0
                    &&& final(self)@.current != Some(i) && final(self)@.processes[i].state.is_waiting_spec()
                        ==> final(self)@.processes[i].waiting_time == old(self)@.processes[i].waiting_time + 1
                },
            !old(self)@.policy.is_preemptive() ==> {
                &&& forall|c: int|
                    old(self)@.current == Some(c) && !(#[trigger] old(self)@.processes[c].state is Terminated)
                        ==> final(self)@.current == old(self)@.current
                &&& forall|m: int|
                    0 <= m < transitions_of(e).len() ==> !(#[trigger] transitions_of(e)[m] is Interrupted)
                        && !(transitions_of(e)[m] is Resumed)
            },
    {
        let ghost s = self@;
        proof {
            lemma_next_wf(s);
            lemma_chosen_schedulable(s);
            assert forall|i: int| 0 <= i < s.processes.len() implies {
                &&& next(s).current == Some(i) ==> (#[trigger] next(s).processes[i]).waiting_time == 0
                &&& next(s).current != Some(i) && next(s).processes[i].state.is_waiting_spec()
                    ==> next(s).processes[i].waiting_time == s.processes[i].waiting_time + 1
            } by {
                lemma_waiting_time(s, i);
            }
            if !s.policy.is_preemptive() {
                lemma_tick_not_interrupted(s);
                if let Some(c) = s.current {
                    assert(arrive(s.processes, s.system_time)[c].state == s.processes[c].state);
                }
            }
        }
        let t = self.system_time;
        let before = self.current;
        self.admit_arrivals();
        self.schedule();
        assert(self@.processes == dispatched(s));
        assert(self@.current == chosen(s));
        let start = match before {
            Some(c) => Some(self.processes[c]),
            None => None,
        };
        self.serve_current();
        let end = match self.current {
            Some(c) => Some(self.processes[c]),
            None => None,
        };
        self.previous = before;
        self.system_time = t + 1;
        SchedulingEvent::new(t, start, end)
    }

    /// Ticks until every process has terminated, or until the clock reaches
    /// `max_ticks`. Returns the log of
    /// every tick taken, or the ids of the processes left unfinished.
    pub fn run(&mut self, max_ticks: u64) -> (r: Result<Vec<SchedulingEvent>, RunError>)
        requires
            wf(old(self)@),
        ensures
            wf(final(self)@),
            final(self)@ == run_from(old(self)@, max_ticks as int).1,
            max_ticks >= old(self)@.system_time + work_left(old(self)@.processes) + pending(
                old(self)@.processes,
                old(self)@.system_time,
            ) ==> r is Ok && final(self)@.system_time <= old(self)@.system_time + work_left(
                old(self)@.processes,
            ) + pending(old(self)@.processes, old(self)@.system_time),
            match r {
                Ok(log) => is_done(final(self)@) && log@ == run_from(old(self)@, max_ticks as int).0,
                Err(RunError::TickLimitExceeded { stalled }) => !is_done(final(self)@)
                    && stalled@ == unfinished_ids(final(self)@.processes),
            },
    {
        let ghost s0 = self@;
        proof {
            if max_ticks >= s0.system_time + work_left(s0.processes) + pending(
                s0.processes,
                s0.system_time,
            ) {
                lemma_done_within(s0, max_ticks as int);
            }
        }
        let mut log: Vec<SchedulingEvent> = Vec::new();
        while !self.is_finished() && self.system_time < max_ticks
            invariant
                wf(self@),
                run_from(s0, max_ticks as int).1 == run_from(self@, max_ticks as int).1,
                run_from(s0, max_ticks as int).0 == log@ + run_from(self@, max_ticks as int).0,
            decreases max_ticks - self@.system_time,
        {
            let ghost s = self@;
            let e = self.tick();
            let ghost rest = run_from(self@, max_ticks as int).0;
            assert(run_from(s, max_ticks as int).0 == seq![e] + rest);
            assert(log@ + (seq![e] + rest) =~= log@.push(e) + rest);
            log.push(e);
        }
        if self.is_finished() {
            Ok(log)
        } else {
            Err(RunError::TickLimitExceeded { stalled: self.unfinished_ids() })
        }
    }

    /// Every process has terminated.
    pub fn is_finished(&self) -> (r: bool)
        ensures
            r == is_done(self@),
    {
        let mut i: usize = 0;
        while i < self.processes.len()
            invariant
                i <= self.processes.len(),
                forall|j: int| 0 <= j < i ==> self.processes@[j].state is Terminated,
            decreases self.processes.len() - i,
        {
            if !self.processes[i].state.is_terminated() {
                return false;
            }
            i = i + 1;
        }
        true
    }

    /// The ids of the processes that have not terminated, in order.
    pub fn unfinished_ids(&self) -> (r: Vec<usize>)
        ensures
            r@ == unfinished_ids(self@.processes),
    {
        let ghost ps = self@.processes;
        let mut r: Vec<usize> = Vec::new();
        let mut i: usize = 0;
        while i < self.processes.len()
            invariant
                i <= ps.len(),
                ps == self@.processes,
                r@ == unfinished_ids(ps.subrange(0, i as int)),
            decreases ps.len() - i,
        {
            assert(ps.subrange(0, i + 1).drop_last() =~= ps.subrange(0, i as int));
            if !self.processes[i].state.is_terminated() {
                r.push(self.processes[i].id);
            }
            i = i + 1;
        }
        assert(ps.subrange(0, ps.len() as int) =~= ps);
        r
    }

    /// Copies of the processes that have not terminated, in order.
    pub fn executable_processes(&self) -> (r: Vec<Process>)
        ensures
            r@ == unfinished_of(self@.processes),
    {
        let ghost ps = self@.processes;
        let mut r: Vec<Process> = Vec::new();
        let mut i: usize = 0;
        while i < self.processes.len()
            invariant
                i <= ps.len(),
                ps == self@.processes,
                r@ == unfinished_of(ps.subrange(0, i as int)),
            decreases ps.len() - i,
        {
            assert(ps.subrange(0, i + 1).drop_last() =~= ps.subrange(0, i as int));
            if !self.processes[i].state.is_terminated() {
                r.push(self.processes[i]);
            }
            i = i + 1;
        }
        assert(ps.subrange(0, ps.len() as int) =~= ps);
        r
    }

    /// Copies of the schedulable processes, in order.
    pub fn scheduable_processes(&self) -> (r: Vec<Process>)
        ensures
            r@ == schedulable_of(self@.processes),
    {
        let ghost ps = self@.processes;
        let mut r: Vec<Process> = Vec::new();
        let mut i: usize = 0;
        while i < self.processes.len()
            invariant
                i <= ps.len(),
                ps == self@.processes,
                r@ == schedulable_of(ps.subrange(0, i as int)),
            decreases ps.len() - i,
        {
            assert(ps.subrange(0, i + 1).drop_last() =~= ps.subrange(0, i as int));
            if self.processes[i].state.is_schedulable() {
                r.push(self.processes[i]);
            }
            i = i + 1;
        }
        assert(ps.subrange(0, ps.len() as int) =~= ps);
        r
    }

    /// The process with id `id`, if the set holds one.
    pub fn get_process(&self, id: usize) -> (r: Option<&Process>)
        ensures
            r matches Some(p) ==> exists|i: int|
                0 <= i < self@.processes.len() && self@.processes[i] == *p && p.id == id,
            r is None <==> forall|i: int|
                0 <= i < self@.processes.len() ==> self@.processes[i].id != id,
    {
        match self.position_of(id) {
            Some(i) => Some(&self.processes[i]),
            None => None,
        }
    }

    /// The occupant of the processor, if any.
    pub fn current_process_ref(&self) -> (r: Option<&Process>)
        requires
            slots_valid(self@),
        ensures
            match self@.current {
                Some(c) => r matches Some(p) && *p == self@.processes[c],
                None => r is None,
            },
    {
        match self.current {
            Some(c) => Some(&self.processes[c]),
            None => None,
        }
    }

    /// The id of the occupant of the processor, if any.
    pub fn current_id(&self) -> (r: Option<usize>)
        requires
            slots_valid(self@),
        ensures
            match self@.current {
                Some(c) => r == Some(self@.processes[c].id),
                None => r is None,
            },
    {
        match self.current {
            Some(c) => Some(self.processes[c].id),
            None => None,
        }
    }

    /// The id of the occupant of the previous tick, if any.
    pub fn previous_id(&self) -> (r: Option<usize>)
        requires
            slots_valid(self@),
        ensures
            match self@.previous {
                Some(c) => r == Some(self@.processes[c].id),
                None => r is None,
            },
    {
        match self.previous {
            Some(c) => Some(self.processes[c].id),
            None => None,
        }
    }

    /// The process set, in the order it was given.
    pub fn processes(&self) -> (r: &Vec<Process>)
        ensures
            r@ == self@.processes,
    {
        &self.processes
    }

    /// The clock: the number of ticks taken.
    pub fn system_time(&self) -> (r: u64)
        ensures
            r == self@.system_time,
    {
        self.system_time
    }

    /// The policy that this simulation applies.
    pub fn policy(&self) -> (r: Policy)
        ensures
            r == self@.policy,
    {
        self.policy
    }

    /// The run length that a time-sliced policy would grant.
    pub fn time_quantum(&self) -> (r: u64)
        ensures
            r == self@.time_quantum,
    {
        self.time_quantum
    }
}

} // verus!
