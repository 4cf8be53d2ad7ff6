use crossbeam_channel::unbounded;
use squad::builder::is_valid_name;
use squad::channel::is_possible_limit;
use squad::join::{decide_join, JoinAction};
use squad::pool::ThreadPool;
use squad::roster::{Change, Roster};
use squad::size::{PoolSize, ThreadPoolSize};
use squad::thunk::{create_task, Thunk};
use squad::worker::Event;
use std::time::Duration;

#[test]
fn size_of_a_number_is_fixed() {
    let size = ThreadPoolSize::from(3);
    assert_eq!((size.min, size.max), (3, 3));
    assert!(3.is_valid());
}

#[test]
fn size_of_a_range_has_its_bounds() {
    let size = ThreadPoolSize::from(0..4);
    assert_eq!((size.min, size.max), (0, 4));
    assert!((0..4).is_valid());
    assert!((4..4).is_valid());
    assert_eq!(ThreadPoolSize::from(size), size);
}

#[test]
fn range_with_a_larger_lower_bound_is_no_size() {
    assert!(!(2..1).is_valid());
    assert!(!ThreadPoolSize { min: 2, max: 1 }.is_valid());
}

#[test]
fn default_size_is_doubled_for_bursts() {
    let size = ThreadPoolSize::for_cpus(4);
    assert_eq!((size.min, size.max), (4, 8));
    let size = ThreadPoolSize::for_cpus(usize::MAX);
    assert_eq!((size.min, size.max), (usize::MAX, usize::MAX));
}

#[test]
fn names_hold_no_null_bytes() {
    assert!(is_valid_name("foo"));
    assert!(is_valid_name(""));
    assert!(!is_valid_name("uh\0oh"));
    assert!(!is_valid_name("\0"));
}

#[test]
fn limits_have_to_fit_into_memory() {
    assert!(is_possible_limit(0));
    assert!(is_possible_limit(1_000_000));
    assert!(is_possible_limit(isize::MAX as usize / 24));
    assert!(!is_possible_limit(isize::MAX as usize / 24 + 1));
    assert!(!is_possible_limit(usize::MAX));
    assert!(ThreadPool::builder().is_buildable());
    assert!(ThreadPool::builder().queue_limit(8).is_buildable());
    assert!(!ThreadPool::builder().queue_limit(usize::MAX).is_buildable());
}

#[test]
fn roster_stays_between_the_bounds() {
    let roster = Roster::new(ThreadPoolSize::from(1..3));
    assert_eq!(roster.threads(), 1);
    assert_eq!(roster.apply(Change::Retire), None);
    let roster = roster.apply(Change::Enlist).unwrap();
    let roster = roster.apply(Change::Enlist).unwrap();
    assert_eq!(roster.threads(), 3);
    assert_eq!(roster.apply(Change::Enlist), None);
    let roster = roster.apply(Change::Retire).unwrap();
    assert_eq!(roster.threads(), 2);
}

#[test]
fn fixed_roster_never_changes() {
    let roster = Roster::new(ThreadPoolSize::from(2));
    assert_eq!(roster.apply(Change::Enlist), None);
    assert_eq!(roster.apply(Change::Retire), None);
    assert_eq!(roster.threads(), 2);
}

#[test]
fn roster_counts_down_to_zero() {
    let roster = Roster::new(ThreadPoolSize::from(2));
    let roster = roster.apply(Change::Leave).unwrap();
    assert_eq!(roster.threads(), 1);
    let roster = roster.apply(Change::Leave).unwrap();
    assert_eq!(roster.threads(), 0);
    let roster = roster.apply(Change::Leave).unwrap();
    assert_eq!(roster.threads(), 0);
    let again = roster.apply(Change::Enlist).unwrap();
    assert_eq!(again.threads(), 1);
    assert_eq!(again.apply(Change::Leave), Some(roster));
}

#[test]
fn join_waits_for_threads_until_the_deadline() {
    let time = Duration::from_secs(5);
    assert!(matches!(decide_join(0, None), JoinAction::Return(true)));
    assert!(matches!(decide_join(0, Some(None)), JoinAction::Return(true)));
    assert!(matches!(decide_join(2, Some(None)), JoinAction::Return(false)));
    assert!(matches!(decide_join(2, None), JoinAction::Wait(None)));
    match decide_join(1, Some(Some(time))) {
        JoinAction::Wait(wait) => assert_eq!(wait, Some(time)),
        _ => panic!("there is time left"),
    }
}

#[test]
fn worker_that_listens_runs_what_comes_in() {
    let (pool, threads) = ThreadPool::builder().size(1).build();
    let mut worker = threads.into_iter().next().unwrap().worker;
    let (sender, receiver) = unbounded();
    let thunk = Thunk::new(move || sender.send(7).unwrap());
    let found = worker.react(Event::Task(thunk)).unwrap();
    worker.execute_thunk(found);
    assert_eq!(receiver.try_recv(), Ok(7));
    assert!(worker.react(Event::Kept).is_none());
    drop(pool);
    assert!(worker.react(Event::Disconnected).is_none());
    // Nothing is queued, so the worker stops.
    assert!(!worker.run_step());
    assert!(!worker.run_step());
}

#[test]
fn worker_that_retires_stops() {
    let (_pool, threads) = ThreadPool::builder().size(1).build();
    let mut worker = threads.into_iter().next().unwrap().worker;
    assert!(worker.react(Event::Retired).is_none());
    assert!(!worker.run_step());
}

#[test]
fn worker_that_has_drained_the_queue_stops() {
    let (_pool, threads) = ThreadPool::builder().size(1).build();
    let mut worker = threads.into_iter().next().unwrap().worker;
    assert!(worker.react(Event::Disconnected).is_none());
    assert!(worker.react(Event::Drained).is_none());
    assert!(!worker.run_step());
}

#[test]
fn worker_that_drains_runs_what_is_queued() {
    let (pool, threads) = ThreadPool::builder().size(1).build();
    let _ = pool.execute(|| 1, |_| ());
    let _ = pool.execute(|| 2, |_| ());
    let _closing = pool.close();
    let mut worker = threads.into_iter().next().unwrap().worker;
    assert!(worker.react(Event::Disconnected).is_none());
    assert!(worker.next_thunk().is_some());
    assert!(worker.next_thunk().is_some());
    assert!(worker.next_thunk().is_none());
    assert!(!worker.run_step());
}

#[test]
fn task_is_done_when_it_is_executed() {
    let (_pool, threads) = ThreadPool::builder().size(1).build();
    let mut worker = threads.into_iter().next().unwrap().worker;
    let (sender, receiver) = unbounded();
    let thunk = create_task(|| 6 * 7, move |value| sender.send(value).unwrap());
    assert!(receiver.try_recv().is_err());
    worker.execute_thunk(thunk);
    assert_eq!(receiver.try_recv(), Ok(42));
    assert!(receiver.try_recv().is_err());
}
