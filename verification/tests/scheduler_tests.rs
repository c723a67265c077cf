use std::cell::RefCell;
use std::rc::Rc;

use wake_bench::aware::EventAwareScheduler;
use wake_bench::naive::NaiveScheduler;
use wake_bench::op::{PendingOp, PollStatus, TimerFailure};

/// A deterministic fake timer operation: it reports Ready on its
/// `polls_needed`-th poll. When polled with a wake binding and still not
/// ready, it records the bound index in the shared log, standing for the
/// one-shot wake notification the real timer service would fire later.
struct FakeOp {
    polls_needed: u32,
    polls_seen: u32,
    fail: bool,
    wake_log: Rc<RefCell<Vec<usize>>>,
}

impl FakeOp {
    fn new(polls_needed: u32, wake_log: &Rc<RefCell<Vec<usize>>>) -> FakeOp {
        FakeOp { polls_needed, polls_seen: 0, fail: false, wake_log: Rc::clone(wake_log) }
    }

    fn failing(wake_log: &Rc<RefCell<Vec<usize>>>) -> FakeOp {
        FakeOp { polls_needed: 1, polls_seen: 0, fail: true, wake_log: Rc::clone(wake_log) }
    }
}

impl PendingOp for FakeOp {
    fn poll(&mut self) -> Result<PollStatus, TimerFailure> {
        if self.fail {
            return Err(TimerFailure);
        }
        self.polls_seen += 1;
        if self.polls_seen >= self.polls_needed {
            Ok(PollStatus::Ready)
        } else {
            Ok(PollStatus::NotReady)
        }
    }

    fn poll_with_wake(&mut self, index: usize) -> Result<PollStatus, TimerFailure> {
        if self.fail {
            return Err(TimerFailure);
        }
        self.polls_seen += 1;
        if self.polls_seen >= self.polls_needed {
            Ok(PollStatus::Ready)
        } else {
            self.wake_log.borrow_mut().push(index);
            Ok(PollStatus::NotReady)
        }
    }
}

fn log() -> Rc<RefCell<Vec<usize>>> {
    Rc::new(RefCell::new(Vec::new()))
}

#[test]
fn naive_rotation_and_termination() {
    // Scenario: three operations; operation 1 is Ready immediately,
    // operations 0 and 2 need two polls. After step 1 the queue holds
    // 0 and 2 in that order; after step 2 it is empty.
    let wakes = log();
    let ops = vec![FakeOp::new(2, &wakes), FakeOp::new(1, &wakes), FakeOp::new(2, &wakes)];
    let mut sched = NaiveScheduler::new(ops);
    assert_eq!(sched.remaining(), 3);
    assert_eq!(sched.queue_snapshot(), vec![0, 1, 2]);

    assert_eq!(sched.step(), Ok(false));
    assert_eq!(sched.queue_snapshot(), vec![0, 2]);
    assert_eq!(sched.remaining(), 2);

    assert_eq!(sched.step(), Ok(true));
    assert!(sched.queue_snapshot().is_empty());
    assert!(sched.is_done());
}

#[test]
fn naive_lengths_never_grow() {
    let wakes = log();
    let ops = vec![
        FakeOp::new(3, &wakes),
        FakeOp::new(1, &wakes),
        FakeOp::new(2, &wakes),
        FakeOp::new(3, &wakes),
    ];
    let mut sched = NaiveScheduler::new(ops);
    let mut last = sched.remaining();
    while !sched.is_done() {
        assert_eq!(sched.step().is_ok(), true);
        let now = sched.remaining();
        assert!(now <= last);
        last = now;
    }
    assert_eq!(sched.remaining(), 0);
}

#[test]
fn naive_empty_run_is_terminal_at_once() {
    let mut sched: NaiveScheduler<FakeOp> = NaiveScheduler::new(Vec::new());
    assert!(sched.is_done());
    assert_eq!(sched.step(), Ok(true));
}

#[test]
fn naive_surfaces_timer_failure() {
    let wakes = log();
    let ops = vec![FakeOp::new(1, &wakes), FakeOp::failing(&wakes)];
    let mut sched = NaiveScheduler::new(ops);
    assert_eq!(sched.step(), Err(TimerFailure));
}

#[test]
fn event_aware_first_step_polls_the_seeded_indices() {
    // Scenario: two operations, both pre-seeded ready. Operation 0
    // resolves Ready on the first poll, operation 1 does not. After the
    // step: active-count 1, slot 0 empty, slot 1 occupied with a pending
    // wake registration for index 1.
    let wakes = log();
    let ops = vec![FakeOp::new(1, &wakes), FakeOp::new(2, &wakes)];
    let mut sched = EventAwareScheduler::new(ops);
    assert_eq!(sched.ready_snapshot(), vec![0, 1]);

    assert_eq!(sched.step(), Ok(false));
    assert_eq!(sched.active_count(), 1);
    assert!(!sched.has_slot(0));
    assert!(sched.has_slot(1));
    assert_eq!(*wakes.borrow(), vec![1]);
}

#[test]
fn event_aware_finishes_in_two_steps_when_ready_on_second_poll() {
    // Scenario: five operations that all become Ready on their second
    // poll. Step 1 polls all five seeded indices and leaves five wake
    // registrations; delivering those wakes and stepping again clears
    // everything, so the run takes exactly two steps.
    let wakes = log();
    let ops: Vec<FakeOp> = (0..5).map(|_| FakeOp::new(2, &wakes)).collect();
    let mut sched = EventAwareScheduler::new(ops);
    assert_eq!(sched.ready_snapshot(), vec![0, 1, 2, 3, 4]);

    assert_eq!(sched.step(), Ok(false));
    assert_eq!(sched.active_count(), 5);

    let fired: Vec<usize> = wakes.borrow_mut().drain(..).collect();
    assert_eq!(fired, vec![0, 1, 2, 3, 4]);
    for idx in fired {
        sched.notify(idx);
    }
    assert_eq!(sched.ready_snapshot(), vec![0, 1, 2, 3, 4]);

    assert_eq!(sched.step(), Ok(true));
    assert_eq!(sched.active_count(), 0);
    assert!(sched.is_done());
}

#[test]
fn event_aware_active_count_is_monotone() {
    let wakes = log();
    let ops = vec![FakeOp::new(3, &wakes), FakeOp::new(1, &wakes), FakeOp::new(2, &wakes)];
    let mut sched = EventAwareScheduler::new(ops);
    let mut last = sched.active_count();
    while !sched.is_done() {
        let fired: Vec<usize> = wakes.borrow_mut().drain(..).collect();
        for idx in fired {
            sched.notify(idx);
        }
        assert!(sched.step().is_ok());
        let now = sched.active_count();
        assert!(now <= last);
        last = now;
    }
    assert_eq!(sched.active_count(), 0);
}

#[test]
fn event_aware_step_without_wakes_polls_nothing() {
    // With no pending wakes the drained list is empty: no operation is
    // polled, the slots and the active-count are untouched, and a second
    // drain-and-step right after a first one finds nothing to do.
    let wakes = log();
    let ops = vec![FakeOp::new(3, &wakes), FakeOp::new(3, &wakes)];
    let mut sched = EventAwareScheduler::new(ops);
    assert_eq!(sched.step(), Ok(false));
    wakes.borrow_mut().clear();

    // no notify in between: the registry is empty now
    assert!(sched.ready_snapshot().is_empty());
    assert_eq!(sched.step(), Ok(false));
    assert_eq!(sched.active_count(), 2);
    assert!(sched.has_slot(0));
    assert!(sched.has_slot(1));
    assert!(wakes.borrow().is_empty());
}

#[test]
fn event_aware_tolerates_duplicate_wakes() {
    // A duplicate insert of an index whose slot is already empty is
    // processed harmlessly.
    let wakes = log();
    let ops = vec![FakeOp::new(1, &wakes)];
    let mut sched = EventAwareScheduler::new(ops);
    sched.notify(0);
    assert_eq!(sched.ready_snapshot(), vec![0, 0]);
    assert_eq!(sched.step(), Ok(true));
    assert_eq!(sched.active_count(), 0);
    assert!(!sched.has_slot(0));
}

#[test]
fn event_aware_empty_run_is_terminal_at_once() {
    let mut sched: EventAwareScheduler<FakeOp> = EventAwareScheduler::new(Vec::new());
    assert!(sched.is_done());
    assert_eq!(sched.step(), Ok(true));
}

#[test]
fn event_aware_surfaces_timer_failure() {
    let wakes = log();
    let ops = vec![FakeOp::failing(&wakes), FakeOp::new(1, &wakes)];
    let mut sched = EventAwareScheduler::new(ops);
    assert_eq!(sched.step(), Err(TimerFailure));
    // the step aborted, but the scheduler state is still coherent
    assert_eq!(sched.active_count(), 2);
    assert!(sched.has_slot(0));
    assert!(sched.has_slot(1));
}
