use concurrency_harness::cell::{CellError, Discipline, SharedCell};
use concurrency_harness::channel::{Channel, ChannelError, Received};
use concurrency_harness::combinator::{join_all, race, race_random, random_delays, run_in_sequence};
use concurrency_harness::counter::CounterRun;
use concurrency_harness::lookup::{classify, count_found, is_success, UserSearch};
use concurrency_harness::scope::{Scope, ScopeError, UnitFailure};
use concurrency_harness::signal::{check, Condition, Signal, WaitOutcome, Wake};
use concurrency_harness::task::{Handle, JoinError};

#[test]
fn exclusive_cell_grants_one_guard() {
    let mut c = SharedCell::new_exclusive(7u64);
    assert_eq!(c.acquire_exclusive(), Ok(()));
    assert_eq!(c.acquire_exclusive(), Err(CellError::WouldBlock));
    assert_eq!(c.acquire_shared(), Err(CellError::WrongDiscipline));
    assert_eq!(c.get(), Ok(&7));
    assert_eq!(c.set(8), Ok(()));
    assert_eq!(c.release_exclusive(), Ok(()));
    assert_eq!(c.release_exclusive(), Err(CellError::NotHeld));
    assert_eq!(c.get(), Err(CellError::NotHeld));
    assert_eq!(c.set(9), Err(CellError::NotHeld));
    assert_eq!(c.into_inner(), Ok(8));
}

#[test]
fn read_write_cell_excludes_writer_while_readers_hold() {
    let mut c = SharedCell::new_read_write(0u64);
    assert_eq!(c.acquire_shared(), Ok(()));
    assert_eq!(c.acquire_shared(), Ok(()));
    assert_eq!(c.readers(), 2);
    assert_eq!(c.acquire_exclusive(), Err(CellError::WouldBlock));
    assert_eq!(c.release_shared(), Ok(()));
    assert_eq!(c.acquire_exclusive(), Err(CellError::WouldBlock));
    assert_eq!(c.release_shared(), Ok(()));
    assert_eq!(c.release_shared(), Err(CellError::NotHeld));
    assert_eq!(c.acquire_exclusive(), Ok(()));
    assert!(c.has_writer());
    assert_eq!(c.acquire_shared(), Err(CellError::WouldBlock));
    assert_eq!(c.set(20), Ok(()));
    assert_eq!(c.release_exclusive(), Ok(()));
    assert_eq!(c.acquire_shared(), Ok(()));
    assert_eq!(c.get(), Ok(&20));
}

#[test]
fn poisoned_cell_refuses_every_acquisition() {
    let mut c = SharedCell::new_read_write(1u64);
    assert_eq!(c.acquire_exclusive(), Ok(()));
    assert_eq!(c.abandon_exclusive(), Ok(()));
    assert!(c.is_poisoned());
    for _ in 0..5 {
        assert_eq!(c.acquire_exclusive(), Err(CellError::Poisoned));
        assert_eq!(c.acquire_shared(), Err(CellError::Poisoned));
    }
    c.clear_poison();
    assert_eq!(c.acquire_shared(), Ok(()));
    assert_eq!(c.abandon_shared(), Ok(()));
    assert_eq!(c.acquire_exclusive(), Err(CellError::Poisoned));
    assert_eq!(c.into_inner(), Err(CellError::Poisoned));
}

#[test]
fn abandoning_without_a_guard_is_refused() {
    let mut c = SharedCell::new_exclusive(1u64);
    assert_eq!(c.abandon_exclusive(), Err(CellError::NotHeld));
    assert_eq!(c.abandon_shared(), Err(CellError::NotHeld));
    assert!(!c.is_poisoned());
}

#[test]
fn atomic_cell_adds_and_wraps() {
    let mut c = SharedCell::new_atomic(5);
    assert_eq!(c.discipline(), Discipline::Atomic);
    assert_eq!(c.atomic_add(3), Ok(5));
    assert_eq!(c.atomic_load(), Ok(8));
    assert_eq!(c.atomic_sub(10), Ok(8));
    assert_eq!(c.atomic_load(), Ok(u64::MAX - 1));
    assert_eq!(c.atomic_add(3), Ok(u64::MAX - 1));
    assert_eq!(c.atomic_load(), Ok(1));
    assert_eq!(c.acquire_exclusive(), Err(CellError::WrongDiscipline));
    assert_eq!(c.acquire_shared(), Err(CellError::WrongDiscipline));
    let mut e = SharedCell::new_exclusive(0u64);
    assert_eq!(e.atomic_add(1), Err(CellError::WrongDiscipline));
    assert_eq!(e.atomic_load(), Err(CellError::WrongDiscipline));
}

#[test]
fn ten_units_interleaved_count_ten() {
    let mut run = CounterRun::new(10, 0, Discipline::Exclusive);
    // Every unit tries to start before anyone finishes.
    let schedule: Vec<usize> = vec![3, 0, 1, 2, 3, 4, 5, 6, 7, 8, 9, 3, 3, 2, 3, 9, 9, 9, 9, 42];
    run.run(&schedule);
    assert_eq!(run.finish(), 10);
    assert_eq!(run.observe(), Some(10));
}

#[test]
fn blocked_unit_does_not_move() {
    let mut run = CounterRun::new(2, 100, Discipline::Exclusive);
    assert!(run.step(0));
    assert_eq!(run.observe(), None);
    assert!(!run.step(1));
    assert!(run.step(0));
    assert!(run.step(0));
    assert!(run.step(0));
    assert!(!run.step(0));
    assert_eq!(run.observe(), Some(101));
    assert!(run.step(1));
    assert_eq!(run.finish(), 102);
}

#[test]
fn atomic_units_count_all() {
    let mut run = CounterRun::new(7, 3, Discipline::Atomic);
    run.run(&vec![6, 5, 4]);
    assert_eq!(run.observe(), Some(6));
    assert_eq!(run.finish(), 10);
    assert_eq!(run.units(), 7);
}

#[test]
fn read_write_units_count_all() {
    let mut run = CounterRun::new(4, 0, Discipline::ReadWrite);
    run.run(&vec![0, 1, 0, 2, 0, 3, 1]);
    assert_eq!(run.finish(), 4);
}

#[test]
fn wait_until_ignores_spurious_wakes() {
    let mut s = Signal::new(0);
    let wakes = vec![Wake::Spurious, Wake::Notified, Wake::Changed(0), Wake::Spurious, Wake::Changed(1), Wake::Changed(0)];
    assert_eq!(s.wait_until(Condition::IsSet, &wakes), WaitOutcome::Satisfied(5));
    assert_eq!(s.state(), 1);
}

#[test]
fn wait_until_returns_at_once_when_condition_holds() {
    let mut s = Signal::new(9);
    assert_eq!(s.wait_until(Condition::AtLeast(5), &vec![Wake::Changed(0)]), WaitOutcome::Satisfied(0));
    assert_eq!(s.state(), 9);
}

#[test]
fn wait_until_keeps_waiting_without_change() {
    let mut s = Signal::new(2);
    let wakes = vec![Wake::Spurious, Wake::Changed(3), Wake::Notified];
    assert_eq!(s.wait_until(Condition::Equals(4), &wakes), WaitOutcome::StillWaiting);
    assert_eq!(s.state(), 3);
    assert!(check(Condition::Equals(3), 3));
    assert!(!check(Condition::IsSet, 0));
}

#[test]
fn notify_wakes_waiters() {
    let mut s = Signal::new(0);
    s.suspend();
    s.suspend();
    s.suspend();
    assert_eq!(s.notify_one(), 1);
    assert_eq!(s.waiters(), 2);
    s.set(1);
    assert_eq!(s.notify_all(), 2);
    assert_eq!(s.waiters(), 0);
    assert_eq!(s.notify_one(), 0);
    assert_eq!(s.state(), 1);
}

#[test]
fn channel_delivers_in_order_then_end_of_stream() {
    let mut ch: Channel<String> = Channel::new();
    assert_eq!(ch.receive(), Received::Empty);
    for v in ["a", "b", "c"] {
        assert_eq!(ch.send(v.to_string()), Ok(()));
    }
    assert_eq!(ch.drop_sender(), Ok(()));
    assert_eq!(ch.receive(), Received::Value("a".to_string()));
    assert_eq!(ch.receive(), Received::Value("b".to_string()));
    assert_eq!(ch.receive(), Received::Value("c".to_string()));
    assert_eq!(ch.receive(), Received::EndOfStream);
    assert_eq!(ch.receive(), Received::EndOfStream);
}

#[test]
fn channel_send_without_receiver_is_disconnected() {
    let mut ch: Channel<u32> = Channel::new();
    ch.add_sender();
    assert_eq!(ch.senders(), 2);
    assert_eq!(ch.send(1), Ok(()));
    ch.drop_receiver();
    assert_eq!(ch.send(2), Err(ChannelError::Disconnected));
    assert_eq!(ch.pending(), 1);
    assert_eq!(ch.drop_sender(), Ok(()));
    assert_eq!(ch.drop_sender(), Ok(()));
    assert_eq!(ch.drop_sender(), Err(ChannelError::NoSender));
}

#[test]
fn channel_with_open_sender_stays_open_after_drain() {
    let mut ch: Channel<u32> = Channel::new();
    ch.add_sender();
    ch.send(1).unwrap();
    ch.send(2).unwrap();
    assert_eq!(ch.drop_sender(), Ok(()));
    assert_eq!(ch.drain(), vec![1, 2]);
    assert_eq!(ch.receive(), Received::Empty);
    assert_eq!(ch.drop_sender(), Ok(()));
    assert_eq!(ch.receive(), Received::EndOfStream);
}

#[test]
fn join_hands_out_result_once() {
    let mut h: Handle<u32> = Handle::spawned();
    assert_eq!(h.join(), Err(JoinError::StillRunning));
    assert!(!h.is_finished());
    assert!(h.complete(42));
    assert!(!h.complete(43));
    assert!(h.is_finished());
    assert_eq!(h.join(), Ok(42));
    for _ in 0..3 {
        assert_eq!(h.join(), Err(JoinError::AlreadyJoined));
    }
}

#[test]
fn join_surfaces_panic_cause() {
    let mut h: Handle<u32> = Handle::spawned();
    assert!(h.fail("index out of bounds".to_string()));
    assert!(!h.fail("again".to_string()));
    assert_eq!(h.join(), Err(JoinError::UnitPanicked("index out of bounds".to_string())));
    assert_eq!(h.join(), Err(JoinError::AlreadyJoined));
    assert_eq!(h.detach(), Err(JoinError::AlreadyJoined));
}

#[test]
fn detached_handle_is_not_joined() {
    let mut h: Handle<u32> = Handle::spawned();
    assert_eq!(h.detach(), Ok(()));
    assert!(!h.complete(1));
    assert_eq!(h.join(), Err(JoinError::Detached));
    assert_eq!(h.detach(), Err(JoinError::Detached));
}

#[test]
fn scope_returns_results_in_spawn_order() {
    let mut s: Scope<u64> = Scope::new();
    for _ in 0..5 {
        s.spawn();
    }
    for i in (0..5).rev() {
        assert!(s.report(i, Ok(i as u64 + 10)));
    }
    assert!(!s.report(2, Ok(0)));
    assert!(!s.report(9, Ok(0)));
    assert!(s.all_finished());
    assert_eq!(s.close(), Ok(vec![10, 11, 12, 13, 14]));
}

#[test]
fn scope_aggregates_every_failure() {
    let mut s: Scope<u64> = Scope::new();
    for _ in 0..4 {
        s.spawn();
    }
    s.report(0, Err("first".to_string()));
    s.report(1, Ok(1));
    s.report(3, Err("last".to_string()));
    assert!(!s.all_finished());
    s.report(2, Ok(2));
    let expected = vec![
        UnitFailure { index: 0, cause: "first".to_string() },
        UnitFailure { index: 3, cause: "last".to_string() },
    ];
    assert_eq!(s.close(), Err(ScopeError::ScopeFailure(expected)));
}

#[test]
fn scope_with_running_unit_names_it() {
    let mut s: Scope<u64> = Scope::new();
    s.spawn();
    s.spawn();
    s.spawn();
    s.report(0, Ok(0));
    s.report(2, Ok(2));
    assert_eq!(s.units(), 3);
    assert_eq!(s.close(), Err(ScopeError::StillRunning(1)));
    let empty: Scope<u64> = Scope::new();
    assert_eq!(empty.close(), Ok(vec![]));
}

#[test]
fn join_all_three_equal_delays_overlap() {
    let delays = vec![5, 5, 5];
    let report = join_all(&delays);
    assert_eq!(report.elapsed, 5);
    assert_eq!(report.order, vec![0, 1, 2]);
    assert_eq!(run_in_sequence(&delays), 15);
}

#[test]
fn join_all_orders_by_delay() {
    let report = join_all(&vec![3, 1, 4, 1, 2]);
    assert_eq!(report.order, vec![1, 3, 4, 0, 2]);
    assert_eq!(report.elapsed, 4);
    let none = join_all(&vec![]);
    assert!(none.order.is_empty());
    assert_eq!(none.elapsed, 0);
    assert_eq!(run_in_sequence(&vec![]), 0);
}

#[test]
fn race_returns_fastest_unit() {
    let out = race(&vec![4, 2, 7], vec!["one", "two", "three"]);
    assert_eq!(out.winner, 1);
    assert_eq!(out.elapsed, 2);
    assert_eq!(out.result, "two");
    let tie = race(&vec![3, 1, 1], vec![10, 20, 30]);
    assert_eq!(tie.winner, 1);
    assert_eq!(tie.result, 20);
}

#[test]
fn random_race_picks_minimum() {
    for _ in 0..20 {
        let (delays, winner) = race_random(3, 1, 5);
        assert_eq!(delays.len(), 3);
        assert!(delays.iter().all(|d| (1..=5).contains(d)));
        let min = *delays.iter().min().unwrap();
        assert_eq!(delays[winner], min);
        assert!(delays[..winner].iter().all(|d| *d > min));
    }
    let fixed = random_delays(4, 3, 3);
    assert_eq!(fixed, vec![3, 3, 3, 3]);
}

#[test]
fn status_classification() {
    assert!(is_success(200));
    assert!(is_success(299));
    assert!(!is_success(300));
    assert!(!is_success(199));
    assert_eq!(classify("ada".to_string(), 200), UserSearch::Found("ada".to_string()));
    assert_eq!(classify("bob".to_string(), 404), UserSearch::NotFound("bob".to_string()));
    let results = vec![
        UserSearch::Found("a".to_string()),
        UserSearch::NotFound("b".to_string()),
        UserSearch::TransportError("timeout".to_string()),
        UserSearch::Found("d".to_string()),
    ];
    assert_eq!(count_found(&results), 2);
}

#[test]
fn random_delays_are_drawn_across_the_range() {
    let delays = random_delays(200, 1, 100);
    assert_eq!(delays.len(), 200);
    assert!(delays.iter().all(|d| (1..=100).contains(d)));
    assert!(delays.iter().any(|d| *d != 1));
    assert!(delays.iter().any(|d| *d != delays[0]));
}
