use cpu_scheduler::event::{SchedulingEvent, Transition};
use cpu_scheduler::policy::Policy;
use cpu_scheduler::process::{Process, ProcessState};
use cpu_scheduler::processor::{ConfigError, Processor, RunError, SelectionError};

const LIMIT: u64 = 10_000;

fn demo() -> Vec<Process> {
    vec![
        Process::new(0, 0, 15, 1),
        Process::new(1, 3, 22, 2),
        Process::new(2, 3, 4, 3),
        Process::new(3, 8, 17, 0),
        Process::new(4, 18, 22, 5),
        Process::new(5, 40, 10, 4),
    ]
}

fn supported() -> Vec<Policy> {
    vec![
        Policy::FirstComeFirstServed,
        Policy::ShortestJobFirst,
        Policy::HighestPriorityFirst,
        Policy::HighestPriorityFirstPreemptive,
        Policy::ShortestRemainingTime,
    ]
}

fn entries(log: &[SchedulingEvent]) -> Vec<(u64, Transition)> {
    let mut out = Vec::new();
    for e in log {
        for t in e.transitions() {
            out.push((e.system_time, t));
        }
    }
    out
}

fn run_ok(processes: Vec<Process>, policy: Policy) -> (Processor, Vec<SchedulingEvent>) {
    let mut p = Processor::new(processes, policy).unwrap();
    let log = p.run(LIMIT).unwrap();
    (p, log)
}

fn running_count(p: &Processor) -> usize {
    p.processes().iter().filter(|q| q.state == ProcessState::Running).count()
}

#[test]
fn process_new_is_fresh() {
    let p = Process::new(7, 4, 9, 2);
    assert_eq!(p.id, 7);
    assert_eq!(p.start_time, 4);
    assert_eq!(p.remaining_time, 9);
    assert_eq!(p.priority, 2);
    assert_eq!(p.serviced_time, 0);
    assert_eq!(p.waiting_time, 0);
    assert_eq!(p.state, ProcessState::NonExistent);
}

#[test]
fn fcfs_two_processes() {
    let procs = vec![Process::new(0, 0, 15, 1), Process::new(1, 3, 22, 2)];
    let (p, log) = run_ok(procs, Policy::FirstComeFirstServed);
    let mut expected = vec![(0, Transition::Started(0))];
    for t in 1..15 {
        expected.push((t, Transition::Running(0)));
    }
    expected.push((15, Transition::Finished(0)));
    expected.push((15, Transition::Started(1)));
    for t in 16..37 {
        expected.push((t, Transition::Running(1)));
    }
    assert_eq!(entries(&log), expected);
    assert_eq!(log.len(), 37);
    assert_eq!(p.system_time(), 37);
    assert_eq!(p.current_id(), Some(1));
    assert_eq!(log[14].line(), "00014: Running(0) -> Terminated(0)");
    assert_eq!(log[15].line(), "00015: Terminated(0) -> Running(1)");
    assert_eq!(log[36].line(), "00036: Running(1) -> Terminated(1)");
    assert_eq!(p.get_process(1).unwrap().serviced_time, 22);
}

#[test]
fn sjf_simultaneous_arrivals() {
    let procs = vec![Process::new(0, 0, 5, 0), Process::new(1, 0, 2, 0)];
    let (p, log) = run_ok(procs, Policy::ShortestJobFirst);
    let expected = vec![
        (0, Transition::Started(1)),
        (1, Transition::Running(1)),
        (2, Transition::Finished(1)),
        (2, Transition::Started(0)),
        (3, Transition::Running(0)),
        (4, Transition::Running(0)),
        (5, Transition::Running(0)),
        (6, Transition::Running(0)),
    ];
    assert_eq!(entries(&log), expected);
    assert_eq!(p.system_time(), 7);
    assert_eq!(log[0].line(), "00000: None -> Running(1)");
    assert_eq!(log[2].line(), "00002: Terminated(1) -> Running(0)");
    for k in 3..=5 {
        assert_eq!(log[k].line(), format!("0000{}: Running(0) -> Running(0)", k));
    }
    assert_eq!(log[6].line(), "00006: Running(0) -> Terminated(0)");
}

#[test]
fn priority_preemptive_suspends_and_resumes() {
    let procs = vec![Process::new(0, 0, 10, 5), Process::new(1, 3, 4, 1)];
    let mut p = Processor::new(procs, Policy::HighestPriorityFirstPreemptive).unwrap();
    for _ in 0..3 {
        p.tick();
    }
    assert_eq!(p.current_id(), Some(0));
    let e = p.tick();
    assert_eq!(e.system_time, 3);
    assert_eq!(e.transitions(), vec![Transition::Interrupted(0), Transition::Started(1)]);
    let low = *p.get_process(0).unwrap();
    assert_eq!(low.state, ProcessState::Suspended);
    assert_eq!(low.serviced_time, 3);
    assert_eq!(low.remaining_time, 7);
    for _ in 0..3 {
        p.tick();
    }
    let low = *p.get_process(0).unwrap();
    assert_eq!(low.state, ProcessState::Suspended);
    assert_eq!(low.serviced_time, 3);
    assert_eq!(low.remaining_time, 7);
    assert_eq!(low.waiting_time, 4);
    assert_eq!(p.get_process(1).unwrap().state, ProcessState::Terminated);
    p.tick();
    let low = *p.get_process(0).unwrap();
    assert_eq!(p.current_id(), Some(0));
    assert_eq!(low.state, ProcessState::Running);
    assert_eq!(low.serviced_time, 4);
    assert_eq!(low.remaining_time, 6);
    assert_eq!(low.waiting_time, 0);
}

#[test]
fn equal_keys_go_by_ascending_id() {
    let procs = vec![Process::new(1, 0, 3, 4), Process::new(0, 0, 3, 4)];
    for policy in supported() {
        let (_, log) = run_ok(procs.clone(), policy);
        assert_eq!(entries(&log)[0], (0, Transition::Started(0)));
        let e = entries(&log);
        assert!(e.contains(&(3, Transition::Started(1))));
    }
}

#[test]
fn every_run_services_all_work() {
    for policy in supported() {
        let initial = demo();
        let (p, _) = run_ok(initial.clone(), policy);
        for (before, after) in initial.iter().zip(p.processes().iter()) {
            assert_eq!(after.id, before.id);
            assert_eq!(after.state, ProcessState::Terminated);
            assert_eq!(after.serviced_time, before.remaining_time);
            assert_eq!(after.remaining_time, 0);
        }
        assert!(p.is_finished());
        assert!(p.executable_processes().is_empty());
    }
}

#[test]
fn at_most_one_running_each_tick() {
    for policy in supported() {
        let mut p = Processor::new(demo(), policy).unwrap();
        while !p.is_finished() {
            p.tick();
            assert!(running_count(&p) <= 1);
        }
    }
}

#[test]
fn waiting_time_resets_and_counts() {
    for policy in supported() {
        let mut p = Processor::new(demo(), policy).unwrap();
        while !p.is_finished() {
            let before = p.processes().clone();
            p.tick();
            let cur = p.current_id();
            for (b, a) in before.iter().zip(p.processes().iter()) {
                if cur == Some(a.id) {
                    assert_eq!(a.waiting_time, 0);
                } else if a.state == ProcessState::Ready || a.state == ProcessState::Suspended {
                    assert_eq!(a.waiting_time, b.waiting_time + 1);
                } else {
                    assert_eq!(a.waiting_time, b.waiting_time);
                }
            }
        }
    }
}

#[test]
fn same_input_same_log() {
    for policy in supported() {
        let (_, a) = run_ok(demo(), policy);
        let (_, b) = run_ok(demo(), policy);
        assert_eq!(a, b);
        assert_eq!(format!("{:?}", a), format!("{:?}", b));
    }
}

#[test]
fn non_preemptive_never_interrupts() {
    for policy in [
        Policy::FirstComeFirstServed,
        Policy::ShortestJobFirst,
        Policy::HighestPriorityFirst,
    ] {
        let (_, log) = run_ok(demo(), policy);
        for (_, t) in entries(&log) {
            assert!(!matches!(t, Transition::Interrupted(_) | Transition::Resumed(_)));
        }
    }
}

#[test]
fn preemptive_priority_interrupts_on_demo() {
    let (_, log) = run_ok(demo(), Policy::HighestPriorityFirstPreemptive);
    let e = entries(&log);
    assert!(e.contains(&(8, Transition::Interrupted(0))));
    assert!(e.contains(&(8, Transition::Started(3))));
}

#[test]
fn shortest_remaining_time_preempts_longer_job() {
    let procs = vec![Process::new(0, 0, 6, 0), Process::new(1, 1, 2, 0)];
    let (_, log) = run_ok(procs, Policy::ShortestRemainingTime);
    let expected = vec![
        (0, Transition::Started(0)),
        (1, Transition::Interrupted(0)),
        (1, Transition::Started(1)),
        (2, Transition::Running(1)),
        (3, Transition::Finished(1)),
        (3, Transition::Started(0)),
        (4, Transition::Running(0)),
        (5, Transition::Running(0)),
        (6, Transition::Running(0)),
        (7, Transition::Running(0)),
    ];
    assert_eq!(entries(&log), expected);
}

#[test]
fn idle_until_first_arrival() {
    let (_, log) = run_ok(vec![Process::new(4, 2, 1, 0)], Policy::FirstComeFirstServed);
    let expected = vec![
        (0, Transition::Idle),
        (1, Transition::Idle),
        (2, Transition::Started(4)),
    ];
    assert_eq!(entries(&log), expected);
}

#[test]
fn empty_process_set_runs_no_tick() {
    let (p, log) = run_ok(Vec::new(), Policy::ShortestJobFirst);
    assert!(log.is_empty());
    assert_eq!(p.system_time(), 0);
}

#[test]
fn unsupported_policies_are_refused() {
    assert_eq!(
        Processor::new(demo(), Policy::RoundRobin).err(),
        Some(ConfigError::UnsupportedPolicy)
    );
    assert_eq!(
        Processor::new(demo(), Policy::MultiLevelFeedbackQueue).err(),
        Some(ConfigError::UnsupportedPolicy)
    );
}

#[test]
fn duplicate_ids_are_refused() {
    let procs = vec![Process::new(1, 0, 3, 0), Process::new(1, 2, 3, 0)];
    assert_eq!(
        Processor::new(procs, Policy::FirstComeFirstServed).err(),
        Some(ConfigError::DuplicateId)
    );
}

#[test]
fn zero_execution_time_is_refused() {
    let procs = vec![Process::new(0, 0, 3, 0), Process::new(1, 2, 0, 0)];
    assert_eq!(
        Processor::new(procs, Policy::FirstComeFirstServed).err(),
        Some(ConfigError::ZeroExecutionTime)
    );
}

#[test]
fn started_process_is_refused() {
    let mut q = Process::new(1, 2, 3, 0);
    q.serviced_time = 1;
    let procs = vec![Process::new(0, 0, 3, 0), q];
    assert_eq!(
        Processor::new(procs, Policy::FirstComeFirstServed).err(),
        Some(ConfigError::AlreadyStarted)
    );
}

#[test]
fn tick_limit_reports_stalled_processes() {
    let mut p = Processor::new(demo(), Policy::FirstComeFirstServed).unwrap();
    let r = p.run(20);
    assert_eq!(r, Err(RunError::TickLimitExceeded { stalled: vec![1, 2, 3, 4, 5] }));
    assert_eq!(p.system_time(), 20);
    assert_eq!(p.unfinished_ids(), vec![1, 2, 3, 4, 5]);
}

#[test]
fn transitions_cover_every_case() {
    let mut x = Process::new(3, 0, 4, 0);
    x.state = ProcessState::Running;
    x.serviced_time = 2;
    let mut y = Process::new(5, 0, 4, 0);
    y.state = ProcessState::Running;
    y.serviced_time = 1;
    let none = SchedulingEvent::new(9, None, None);
    assert_eq!(none.transitions(), vec![Transition::Idle]);
    assert_eq!(SchedulingEvent::new(9, None, Some(y)).transitions(), vec![Transition::Started(5)]);
    assert_eq!(SchedulingEvent::new(9, Some(x), None).transitions(), vec![Transition::Finished(3)]);
    assert_eq!(SchedulingEvent::new(9, Some(x), Some(x)).transitions(), vec![Transition::Running(3)]);
    assert_eq!(
        SchedulingEvent::new(9, Some(x), Some(y)).transitions(),
        vec![Transition::Interrupted(3), Transition::Started(5)]
    );
    let mut back = y;
    back.serviced_time = 4;
    assert_eq!(
        SchedulingEvent::new(9, Some(x), Some(back)).transitions(),
        vec![Transition::Interrupted(3), Transition::Resumed(5)]
    );
    let mut done = x;
    done.remaining_time = 0;
    done.state = ProcessState::Terminated;
    assert_eq!(
        SchedulingEvent::new(9, Some(done), Some(back)).transitions(),
        vec![Transition::Finished(3), Transition::Started(5)]
    );
}

#[test]
fn queries_follow_the_state() {
    let mut p = Processor::new(demo(), Policy::FirstComeFirstServed).unwrap();
    assert_eq!(p.policy(), Policy::FirstComeFirstServed);
    assert_eq!(p.time_quantum(), 3);
    assert!(p.scheduable_processes().is_empty());
    assert_eq!(p.executable_processes().len(), 6);
    assert!(p.get_process(9).is_none());
    assert!(p.current_process_ref().is_none());
    for _ in 0..4 {
        p.tick();
    }
    let ids: Vec<usize> = p.scheduable_processes().iter().map(|q| q.id).collect();
    assert_eq!(ids, vec![0, 1, 2]);
    assert_eq!(p.current_process_ref().unwrap().id, 0);
    assert_eq!(p.current_id(), Some(0));
    assert_eq!(p.previous_id(), Some(0));
    assert_eq!(p.get_process(2).unwrap().waiting_time, 1);
}

#[test]
fn policy_step_operations() {
    let mut p = Processor::new(demo(), Policy::HighestPriorityFirstPreemptive).unwrap();
    p.tick();
    assert_eq!(p.current_id(), Some(0));
    p.suspend_current();
    assert_eq!(p.get_process(0).unwrap().state, ProcessState::Suspended);
    p.set_current_process_state(ProcessState::Running);
    assert_eq!(p.get_process(0).unwrap().state, ProcessState::Running);
    assert_eq!(p.set_current(None), Ok(()));
    assert_eq!(p.current_id(), None);
    assert_eq!(p.set_current(Some(0)), Ok(()));
    assert_eq!(p.current_id(), Some(0));
    assert_eq!(p.get_process(0).unwrap().state, ProcessState::Running);
    assert_eq!(p.set_current(Some(9)), Err(SelectionError::UnknownId));
    assert_eq!(p.current_id(), Some(0));
    assert_eq!(p.set_current(Some(5)), Err(SelectionError::NotSchedulable));
    assert_eq!(p.get_process(5).unwrap().state, ProcessState::NonExistent);
    assert_eq!(p.current_id(), Some(0));
}

#[test]
fn tick_limit_boundary() {
    let procs = vec![Process::new(0, 0, 15, 1), Process::new(1, 3, 22, 2)];
    let mut enough = Processor::new(procs.clone(), Policy::FirstComeFirstServed).unwrap();
    assert_eq!(enough.run(37).map(|log| log.len()), Ok(37));
    let mut short = Processor::new(procs.clone(), Policy::FirstComeFirstServed).unwrap();
    assert_eq!(short.run(36), Err(RunError::TickLimitExceeded { stalled: vec![1] }));
    assert_eq!(short.current_id(), Some(1));
    let mut bound = Processor::new(procs, Policy::FirstComeFirstServed).unwrap();
    assert!(bound.run(15 + 22 + 3).is_ok());
    assert!(bound.system_time() <= 15 + 22 + 3);
    let mut single = Processor::new(vec![Process::new(0, 0, 1, 0)], Policy::ShortestJobFirst).unwrap();
    assert_eq!(single.run(1).map(|log| log.len()), Ok(1));
    assert_eq!(single.system_time(), 1);
}

#[test]
fn named_constructors_pick_their_policy() {
    assert_eq!(
        Processor::first_come_first_serve(demo()).unwrap().policy(),
        Policy::FirstComeFirstServed
    );
    assert_eq!(Processor::shortest_job_first(demo()).unwrap().policy(), Policy::ShortestJobFirst);
    assert_eq!(
        Processor::highest_priority_first(demo()).unwrap().policy(),
        Policy::HighestPriorityFirst
    );
    assert_eq!(
        Processor::highest_priority_first_preemptive(demo()).unwrap().policy(),
        Policy::HighestPriorityFirstPreemptive
    );
    assert_eq!(
        Processor::shortest_remaining_time(demo()).unwrap().policy(),
        Policy::ShortestRemainingTime
    );
    assert_eq!(Processor::round_robin(demo()).err(), Some(ConfigError::UnsupportedPolicy));
    assert_eq!(
        Processor::multi_level_feedback_queue(demo()).err(),
        Some(ConfigError::UnsupportedPolicy)
    );
    let dup = vec![Process::new(2, 0, 1, 0), Process::new(2, 0, 1, 0)];
    assert_eq!(Processor::shortest_job_first(dup).err(), Some(ConfigError::DuplicateId));
}

#[test]
fn log_lines_follow_the_format() {
    let mut x = Process::new(12, 0, 4, 0);
    x.state = ProcessState::Suspended;
    let mut y = Process::new(7, 0, 4, 0);
    y.state = ProcessState::Running;
    assert_eq!(SchedulingEvent::new(0, None, None).line(), "00000: None -> None");
    assert_eq!(
        SchedulingEvent::new(42, Some(x), Some(y)).line(),
        "00042: Suspended(12) -> Running(7)"
    );
    assert_eq!(SchedulingEvent::new(9999, None, Some(y)).line(), "09999: None -> Running(7)");
    let mut z = Process::new(3, 0, 4, 0);
    z.state = ProcessState::Ready;
    assert_eq!(SchedulingEvent::new(123456, Some(z), None).line(), "123456: Ready(3) -> None");
    assert_eq!(
        SchedulingEvent::new(10, Some(Process::new(0, 0, 1, 0)), None).line(),
        "00010: NonExistent(0) -> None"
    );
}

#[test]
fn processes_are_equal_by_id() {
    assert!(Process::new(0, 0, 1, 0) == Process::new(0, 0, 2, 0));
    let mut moved = Process::new(4, 1, 3, 2);
    moved.state = ProcessState::Terminated;
    moved.serviced_time = 3;
    moved.remaining_time = 0;
    assert_eq!(moved, Process::new(4, 1, 3, 2));
    assert!(Process::new(0, 0, 1, 0) != Process::new(1, 0, 1, 0));
}

#[test]
fn events_are_equal_by_tick_and_ids() {
    let a = Process::new(1, 0, 5, 0);
    let mut a_later = a;
    a_later.remaining_time = 2;
    let b = Process::new(2, 0, 5, 0);
    assert_eq!(
        SchedulingEvent::new(3, Some(a), None),
        SchedulingEvent::new(3, Some(a_later), None)
    );
    assert_ne!(SchedulingEvent::new(3, Some(a), None), SchedulingEvent::new(4, Some(a), None));
    assert_ne!(SchedulingEvent::new(3, Some(a), None), SchedulingEvent::new(3, Some(b), None));
    assert_ne!(SchedulingEvent::new(3, None, Some(a)), SchedulingEvent::new(3, Some(a), None));
}

#[test]
fn policy_step_keeps_or_reselects() {
    let mut hpf = Processor::new(demo(), Policy::HighestPriorityFirst).unwrap();
    for _ in 0..9 {
        hpf.tick();
    }
    let before = hpf.processes().clone();
    hpf.schedule();
    assert_eq!(hpf.current_id(), Some(0));
    for (b, a) in before.iter().zip(hpf.processes().iter()) {
        assert_eq!(format!("{:?}", a), format!("{:?}", b));
    }
    let mut pre = Processor::new(demo(), Policy::HighestPriorityFirstPreemptive).unwrap();
    for _ in 0..8 {
        pre.tick();
    }
    assert_eq!(pre.current_id(), Some(0));
    assert_eq!(pre.get_process(3).unwrap().state, ProcessState::NonExistent);
    pre.tick();
    assert_eq!(pre.current_id(), Some(3));
    pre.schedule();
    assert_eq!(pre.current_id(), Some(3));
    assert_eq!(pre.get_process(0).unwrap().state, ProcessState::Suspended);
    assert_eq!(pre.get_process(3).unwrap().state, ProcessState::Running);
}
