use crossbeam::channel;
use mini_tokio::scheduler::{Scheduler, Step, TaskStatus};

/// Runs until the scheduler waits or stops. `poll` plays the futures: it gets the
/// task id and the scheduler (to wake tasks from inside a poll) and says whether
/// the future returned ready. Returns the ids polled, in order, and the last step.
fn run_until_idle<F>(s: &mut Scheduler, mut poll: F) -> (Vec<usize>, Step)
where
    F: FnMut(usize, &mut Scheduler) -> bool,
{
    let mut polled = Vec::new();
    loop {
        match s.next() {
            Step::Poll(id) => {
                polled.push(id);
                let ready = poll(id, s);
                s.finish(id, ready);
            }
            other => return (polled, other),
        }
    }
}

#[test]
fn immediate_completion() {
    let mut s = Scheduler::new();
    let id = s.spawn();
    assert_eq!(id, 0);
    let (polled, last) = run_until_idle(&mut s, |_, _| true);
    assert_eq!(polled, vec![0]);
    assert_eq!(last, Step::Stop);
    assert_eq!(s.status(0), TaskStatus::Done);
}

#[test]
fn self_wake_loop_bounded() {
    let mut s = Scheduler::new();
    s.spawn();
    let mut counter = 0;
    let (polled, last) = run_until_idle(&mut s, |id, s| {
        counter += 1;
        if counter < 5 {
            s.wake(id);
            false
        } else {
            true
        }
    });
    assert_eq!(polled.len(), 5);
    assert_eq!(counter, 5);
    assert_eq!(last, Step::Stop);
}

#[test]
fn external_wake() {
    let (tx, rx) = channel::unbounded::<usize>();
    let mut s = Scheduler::new();
    s.spawn();
    let mut polls = 0;
    let (polled, last) = run_until_idle(&mut s, |_, _| {
        polls += 1;
        polls > 1
    });
    assert_eq!(polled, vec![0]);
    assert_eq!(last, Step::Wait);
    assert!(s.is_parked(0));
    let stashed = tx.clone();
    stashed.send(0).unwrap();
    assert_eq!(s.drain_wakes(&rx), vec![0]);
    let (polled, last) = run_until_idle(&mut s, |_, _| {
        polls += 1;
        polls > 1
    });
    assert_eq!(polled, vec![0]);
    assert_eq!(polls, 2);
    assert_eq!(last, Step::Stop);
}

#[test]
fn two_tasks_fifo() {
    let mut s = Scheduler::new();
    let a = s.spawn();
    let b = s.spawn();
    let mut out: Vec<String> = Vec::new();
    let (_, last) = run_until_idle(&mut s, |id, _| {
        if id == a {
            out.push("a".to_string());
        } else if id == b {
            out.push("b".to_string());
        }
        true
    });
    assert_eq!(out, vec!["a".to_string(), "b".to_string()]);
    assert_eq!(last, Step::Stop);
}

#[test]
fn parked_with_no_wake() {
    let mut s = Scheduler::new();
    s.spawn();
    let (polled, last) = run_until_idle(&mut s, |_, _| false);
    assert_eq!(polled, vec![0]);
    assert_eq!(last, Step::Wait);
    assert!(s.is_parked(0));
    s.abandon(0);
    assert_eq!(s.status(0), TaskStatus::Dropped);
    let (polled, last) = run_until_idle(&mut s, |_, _| true);
    assert!(polled.is_empty());
    assert_eq!(last, Step::Stop);
}

#[test]
fn double_wake_two_polls() {
    let (tx, rx) = channel::unbounded::<usize>();
    let mut s = Scheduler::new();
    s.spawn();
    let mut polls = 0;
    let (_, last) = run_until_idle(&mut s, |_, _| {
        polls += 1;
        false
    });
    assert_eq!(last, Step::Wait);
    tx.send(0).unwrap();
    tx.send(0).unwrap();
    assert_eq!(s.drain_wakes(&rx), vec![0, 0]);
    assert_eq!(s.queued(), 2);
    // the future completes on its third poll
    let (polled, last) = run_until_idle(&mut s, |_, _| {
        polls += 1;
        polls == 3
    });
    assert_eq!(polled, vec![0, 0]);
    assert_eq!(polls, 3);
    assert_eq!(last, Step::Stop);
}

#[test]
fn wakes_are_served_in_order() {
    let mut s = Scheduler::new();
    let a = s.spawn();
    let b = s.spawn();
    let (_, last) = run_until_idle(&mut s, |_, _| false);
    assert_eq!(last, Step::Wait);
    s.wake(b);
    s.wake(a);
    let (polled, last) = run_until_idle(&mut s, |_, _| true);
    assert_eq!(polled, vec![b, a]);
    assert_eq!(last, Step::Stop);
}

#[test]
fn woken_parked_task_is_polled_again() {
    let mut s = Scheduler::new();
    s.spawn();
    s.spawn();
    let (_, last) = run_until_idle(&mut s, |id, _| id == 1);
    assert_eq!(last, Step::Wait);
    assert!(s.is_parked(0));
    s.wake(0);
    assert!(!s.is_parked(0));
    let (polled, last) = run_until_idle(&mut s, |_, _| true);
    assert_eq!(polled, vec![0]);
    assert_eq!(last, Step::Stop);
}

#[test]
fn self_wake_during_poll_is_requeued_behind_others() {
    let mut s = Scheduler::new();
    let a = s.spawn();
    let b = s.spawn();
    let mut woke = false;
    let (polled, last) = run_until_idle(&mut s, |id, s| {
        if id == a && !woke {
            woke = true;
            s.wake(a);
            false
        } else {
            true
        }
    });
    assert_eq!(polled, vec![a, b, a]);
    assert_eq!(last, Step::Stop);
}

#[test]
fn wakes_after_completion_each_give_a_poll() {
    let mut s = Scheduler::new();
    s.spawn();
    let (_, last) = run_until_idle(&mut s, |_, _| true);
    assert_eq!(last, Step::Stop);
    s.wake(0);
    s.wake(0);
    s.wake(0);
    assert_eq!(s.queued(), 3);
    let (polled, last) = run_until_idle(&mut s, |_, _| true);
    assert_eq!(polled, vec![0, 0, 0]);
    assert_eq!(last, Step::Stop);
    assert_eq!(s.status(0), TaskStatus::Done);
    assert_eq!(s.queued(), 0);
}

#[test]
fn extra_wakes_give_one_poll_each() {
    let mut s = Scheduler::new();
    s.spawn();
    let (_, _) = run_until_idle(&mut s, |_, _| false);
    for _ in 0..4 {
        s.wake(0);
    }
    // the future completes on the second of the four polls; the other two still come
    let mut n = 0;
    let (polled, last) = run_until_idle(&mut s, |_, _| {
        n += 1;
        n >= 2
    });
    assert_eq!(polled.len(), 4);
    assert_eq!(n, 4);
    assert_eq!(last, Step::Stop);
}

#[test]
fn double_wake_when_ready_on_second_poll() {
    let (tx, rx) = channel::unbounded::<usize>();
    let mut s = Scheduler::new();
    s.spawn();
    let mut polls = 0;
    let (_, last) = run_until_idle(&mut s, |_, _| {
        polls += 1;
        false
    });
    assert_eq!(last, Step::Wait);
    tx.send(0).unwrap();
    tx.send(0).unwrap();
    assert_eq!(s.drain_wakes(&rx), vec![0, 0]);
    let (polled, last) = run_until_idle(&mut s, |_, _| {
        polls += 1;
        polls >= 2
    });
    assert_eq!(polled, vec![0, 0]);
    assert_eq!(polls, 3);
    assert_eq!(last, Step::Stop);
}

#[test]
fn accept_wake_queues_only_known_ids() {
    let mut s = Scheduler::new();
    s.spawn();
    let (_, last) = run_until_idle(&mut s, |_, _| false);
    assert_eq!(last, Step::Wait);
    assert!(!s.accept_wake(None));
    assert!(!s.accept_wake(Some(1)));
    assert_eq!(s.queued(), 0);
    assert!(s.accept_wake(Some(0)));
    assert_eq!(s.queued(), 1);
    assert_eq!(s.next(), Step::Poll(0));
}

#[test]
fn drain_keeps_order_and_repeats() {
    let (tx, rx) = channel::unbounded::<usize>();
    let mut s = Scheduler::new();
    for _ in 0..3 {
        s.spawn();
    }
    let (_, last) = run_until_idle(&mut s, |_, _| false);
    assert_eq!(last, Step::Wait);
    for id in [2, 0, 2, 1] {
        tx.send(id).unwrap();
    }
    assert_eq!(s.drain_wakes(&rx), vec![2, 0, 2, 1]);
    let (polled, _) = run_until_idle(&mut s, |_, _| false);
    assert_eq!(polled, vec![2, 0, 2, 1]);
}

#[test]
fn one_wake_from_another_sender_one_poll() {
    let (tx, rx) = channel::unbounded::<usize>();
    let mut s = Scheduler::new();
    s.spawn();
    let (_, last) = run_until_idle(&mut s, |_, _| false);
    assert_eq!(last, Step::Wait);
    let other = tx.clone();
    drop(tx);
    other.send(0).unwrap();
    s.drain_wakes(&rx);
    let (polled, last) = run_until_idle(&mut s, |_, _| false);
    assert_eq!(polled, vec![0]);
    assert_eq!(last, Step::Wait);
}

#[test]
fn all_ready_run_terminates() {
    let mut s = Scheduler::new();
    for _ in 0..10 {
        s.spawn();
    }
    let (polled, last) = run_until_idle(&mut s, |_, _| true);
    assert_eq!(polled, (0..10).collect::<Vec<usize>>());
    assert_eq!(last, Step::Stop);
    assert_eq!(s.task_count(), 10);
}

#[test]
fn empty_scheduler_stops() {
    let mut s = Scheduler::new();
    assert_eq!(s.next(), Step::Stop);
    assert_eq!(s.task_count(), 0);
    assert_eq!(s.queued(), 0);
}

#[test]
fn drain_ignores_unknown_ids_and_empty_inbox() {
    let (tx, rx) = channel::unbounded::<usize>();
    let mut s = Scheduler::new();
    assert!(s.drain_wakes(&rx).is_empty());
    s.spawn();
    tx.send(7).unwrap();
    tx.send(0).unwrap();
    assert_eq!(s.drain_wakes(&rx), vec![0]);
    assert_eq!(s.queued(), 2);
    assert!(s.drain_wakes(&rx).is_empty());
}

#[test]
fn abandon_leaves_queued_and_running_tasks() {
    let mut s = Scheduler::new();
    s.spawn();
    s.abandon(0);
    assert_eq!(s.status(0), TaskStatus::Pending);
    assert_eq!(s.next(), Step::Poll(0));
    s.abandon(0);
    assert_eq!(s.status(0), TaskStatus::Running);
    s.finish(0, false);
    assert_eq!(s.next(), Step::Wait);
    s.abandon(0);
    assert_eq!(s.status(0), TaskStatus::Dropped);
    assert_eq!(s.next(), Step::Stop);
}

#[test]
fn settle_drops_only_parked_tasks_without_handles() {
    let (tx, rx) = channel::unbounded::<usize>();
    let mut s = Scheduler::new();
    for _ in 0..4 {
        s.spawn();
    }
    // task 3 completes; 0, 1 and 2 park
    let (_, last) = run_until_idle(&mut s, |id, _| id == 3);
    assert_eq!(last, Step::Wait);
    // task 1 was woken just before its last handle went
    tx.send(1).unwrap();
    let woken = s.settle(&rx, &vec![false, false, true, false]);
    assert_eq!(woken, vec![1]);
    assert_eq!(s.status(0), TaskStatus::Dropped);
    assert_eq!(s.status(1), TaskStatus::Pending);
    assert_eq!(s.status(2), TaskStatus::Pending);
    assert_eq!(s.status(3), TaskStatus::Done);
    let (polled, last) = run_until_idle(&mut s, |_, _| true);
    assert_eq!(polled, vec![1]);
    assert_eq!(last, Step::Wait);
    let woken = s.settle(&rx, &vec![true, true, false]);
    assert!(woken.is_empty());
    assert_eq!(s.status(2), TaskStatus::Dropped);
    assert_eq!(s.next(), Step::Stop);
}

#[test]
fn settle_with_short_flags_keeps_unlisted_tasks() {
    let (_tx, rx) = channel::unbounded::<usize>();
    let mut s = Scheduler::new();
    s.spawn();
    s.spawn();
    let (_, last) = run_until_idle(&mut s, |_, _| false);
    assert_eq!(last, Step::Wait);
    s.settle(&rx, &vec![false]);
    assert_eq!(s.status(0), TaskStatus::Dropped);
    assert_eq!(s.status(1), TaskStatus::Pending);
    assert_eq!(s.next(), Step::Wait);
}
