use vstd::prelude::*;
use crate::process::{Process, ProcessState};
use vstd::string::StringExecFns;

verus! {

/// What a tick's before/after snapshot says about the occupants.
#[derive(Clone, Copy, Debug, PartialEq, Eq, Structural)]
pub enum Transition {
    /// The processor was idle for the tick.
    Idle,
    /// The process took the processor for the first time.
    Started(usize),
    /// The process kept the processor.
    Running(usize),
    /// The process left the processor with its work done.
    Finished(usize),
    /// The process left the processor with work left.
    Interrupted(usize),
    /// A process that had run before took the processor again.
    Resumed(usize),
}

/// The record of one tick: the occupant as the tick's work begins and the
/// occupant once it is applied, each with the state it had at that point.
///
/// Two records are equal when they describe the same tick and name the same
/// processes on each side, compared by id as processes are.
#[derive(Clone, Copy, Debug, Eq)]
pub struct SchedulingEvent {
    pub system_time: u64,
    pub start_of_tick: Option<Process>,
    pub end_of_tick: Option<Process>,
}

/// Both sides are empty, or both name processes with the same id.
pub open spec fn same_side(a: Option<Process>, b: Option<Process>) -> bool {
    match (a, b) {
        (None, None) => true,
        (Some(x), Some(y)) => x.id == y.id,
        _ => false,
    }
}

fn sides_equal(a: &Option<Process>, b: &Option<Process>) -> (r: bool)
    ensures
        r == same_side(*a, *b),
{
    match (a, b) {
        (None, None) => true,
        (Some(x), Some(y)) => x.id == y.id,
        _ => false,
    }
}

impl PartialEq for SchedulingEvent {
    fn eq(&self, other: &SchedulingEvent) -> (r: bool) {
        self.system_time == other.system_time && sides_equal(
            &self.start_of_tick,
            &other.start_of_tick,
        ) && sides_equal(&self.end_of_tick, &other.end_of_tick)
    }
}

impl vstd::std_specs::cmp::PartialEqSpecImpl for SchedulingEvent {
    open spec fn obeys_eq_spec() -> bool {
        true
    }

    open spec fn eq_spec(&self, other: &SchedulingEvent) -> bool {
        &&& self.system_time == other.system_time
        &&& same_side(self.start_of_tick, other.start_of_tick)
        &&& same_side(self.end_of_tick, other.end_of_tick)
    }
}

/// The log entries that `e` stands for, in order.
pub open spec fn transitions_of(e: SchedulingEvent) -> Seq<Transition> {
    match (e.start_of_tick, e.end_of_tick) {
        (None, None) => seq![Transition::Idle],
        (None, Some(y)) => seq![Transition::Started(y.id)],
        (Some(x), None) => seq![Transition::Finished(x.id)],
        (Some(x), Some(y)) => if x.id == y.id {
            seq![Transition::Running(x.id)]
        } else if x.remaining_time > 0 {
            seq![
                Transition::Interrupted(x.id),
                if y.serviced_time > 1 {
                    Transition::Resumed(y.id)
                } else {
                    Transition::Started(y.id)
                },
            ]
        } else {
            seq![Transition::Finished(x.id), Transition::Started(y.id)]
        },
    }
}

/// The decimal digit `d`, for `d < 10`.
pub open spec fn digit_of(d: nat) -> Seq<char> {
    if d == 0 {
        "0"@
    } else if d == 1 {
        "1"@
    } else if d == 2 {
        "2"@
    } else if d == 3 {
        "3"@
    } else if d == 4 {
        "4"@
    } else if d == 5 {
        "5"@
    } else if d == 6 {
        "6"@
    } else if d == 7 {
        "7"@
    } else if d == 8 {
        "8"@
    } else {
        "9"@
    }
}

/// `n` in decimal, without leading zeros.
pub open spec fn decimal(n: nat) -> Seq<char>
    decreases n,
{
    if n < 10 {
        digit_of(n)
    } else {
        decimal(n / 10) + digit_of(n % 10)
    }
}

/// `n` in decimal, with leading zeros up to five digits.
pub open spec fn padded5(n: nat) -> Seq<char> {
    let zeros = if n < 10 {
        "0000"@
    } else if n < 100 {
        "000"@
    } else if n < 1000 {
        "00"@
    } else if n < 10000 {
        "0"@
    } else {
        ""@
    };
    zeros + decimal(n)
}

/// The name of a state as the log writes it.
pub open spec fn state_name(st: ProcessState) -> Seq<char> {
    match st {
        ProcessState::NonExistent => "NonExistent"@,
        ProcessState::Ready => "Ready"@,
        ProcessState::Running => "Running"@,
        ProcessState::Suspended => "Suspended"@,
        ProcessState::Terminated => "Terminated"@,
    }
}

/// One side of a log line: `State(id)`, or `None` for an empty processor.
pub open spec fn side_of(p: Option<Process>) -> Seq<char> {
    match p {
        Some(p) => state_name(p.state) + "("@ + decimal(p.id as nat) + ")"@,
        None => "None"@,
    }
}

/// The log line of `e`: `<tick, five digits>: <start> -> <end>`.
pub open spec fn line_of(e: SchedulingEvent) -> Seq<char> {
    padded5(e.system_time as nat) + ": "@ + side_of(e.start_of_tick) + " -> "@ + side_of(
        e.end_of_tick,
    )
}

fn digit_str(d: u64) -> (r: &'static str)
    requires
        d < 10,
    ensures
        r@ == digit_of(d as nat),
{
    if d == 0 {
        "0"
    } else if d == 1 {
        "1"
    } else if d == 2 {
        "2"
    } else if d == 3 {
        "3"
    } else if d == 4 {
        "4"
    } else if d == 5 {
        "5"
    } else if d == 6 {
        "6"
    } else if d == 7 {
        "7"
    } else if d == 8 {
        "8"
    } else {
        "9"
    }
}

fn append_decimal(s: &mut String, n: u64)
    ensures
        final(s)@ == old(s)@ + decimal(n as nat),
    decreases n,
{
    if n >= 10 {
        append_decimal(s, n / 10);
        s.append(digit_str(n % 10));
        assert(final(s)@ =~= old(s)@ + decimal(n as nat));
    } else {
        s.append(digit_str(n));
    }
}

fn append_padded5(s: &mut String, n: u64)
    ensures
        final(s)@ == old(s)@ + padded5(n as nat),
{
    let zeros = if n < 10 {
        "0000"
    } else if n < 100 {
        "000"
    } else if n < 1000 {
        "00"
    } else if n < 10000 {
        "0"
    } else {
        ""
    };
    s.append(zeros);
    append_decimal(s, n);
    assert(final(s)@ =~= old(s)@ + padded5(n as nat));
}

fn state_str(st: ProcessState) -> (r: &'static str)
    ensures
        r@ == state_name(st),
{
    match st {
        ProcessState::NonExistent => "NonExistent",
        ProcessState::Ready => "Ready",
        ProcessState::Running => "Running",
        ProcessState::Suspended => "Suspended",
        ProcessState::Terminated => "Terminated",
    }
}

fn append_side(s: &mut String, p: Option<Process>)
    ensures
        final(s)@ == old(s)@ + side_of(p),
{
    match p {
        Some(p) => {
            s.append(state_str(p.state));
            s.append("(");
            append_decimal(s, p.id as u64);
            s.append(")");
            assert(final(s)@ =~= old(s)@ + side_of(Some(p)));
        },
        None => s.append("None"),
    }
}

impl SchedulingEvent {
    /// The log line of the event, such as `00015: Terminated(0) -> Running(1)`.
    pub fn line(&self) -> (r: String)
        ensures
            r@ == line_of(*self),
    {
        let mut s = String::new();
        append_padded5(&mut s, self.system_time);
        s.append(": ");
        append_side(&mut s, self.start_of_tick);
        s.append(" -> ");
        append_side(&mut s, self.end_of_tick);
        assert(s@ =~= line_of(*self));
        s
    }

    pub fn new(system_time: u64, start_of_tick: Option<Process>, end_of_tick: Option<Process>) -> (r:
        SchedulingEvent)
        ensures
            r.system_time == system_time,
            r.start_of_tick == start_of_tick,
            r.end_of_tick == end_of_tick,
    {
        SchedulingEvent { system_time, start_of_tick, end_of_tick }
    }

    /// Classifies the tick as one or two log entries.
    pub fn transitions(&self) -> (r: Vec<Transition>)
        ensures
            r@ == transitions_of(*self),
    {
        let mut r: Vec<Transition> = Vec::new();
        match (self.start_of_tick, self.end_of_tick) {
            (None, None) => r.push(Transition::Idle),
            (None, Some(y)) => r.push(Transition::Started(y.id)),
            (Some(x), None) => r.push(Transition::Finished(x.id)),
            (Some(x), Some(y)) => {
                if x.id == y.id {
                    r.push(Transition::Running(x.id));
                } else if x.remaining_time > 0 {
                    r.push(Transition::Interrupted(x.id));
                    if y.serviced_time > 1 {
                        r.push(Transition::Resumed(y.id));
                    } else {
                        r.push(Transition::Started(y.id));
                    }
                } else {
                    r.push(Transition::Finished(x.id));
                    r.push(Transition::Started(y.id));
                }
            },
        }
        assert(r@ =~= transitions_of(*self));
        r
    }
}

} // verus!
