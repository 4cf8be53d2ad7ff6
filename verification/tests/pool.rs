use crossbeam_channel::{after, unbounded};
use squad::join::JoinAction;
use squad::pool::{Submitted, ThreadPool};
use squad::staff::WorkerThread;
use squad::thunk::Thunk;
use squad::worker::Worker;
use std::sync::Arc;
use std::time::Duration;

/// The worker of the thread that a submission asks for.
fn spawned(submitted: Submitted) -> Worker {
    match submitted {
        Submitted::Spawned(thread) => thread.worker,
        Submitted::Delivered => panic!("no worker is waiting"),
        Submitted::Queued => panic!("there is room for a thread"),
    }
}

/// What a thread of a pool does.
fn run(thread: WorkerThread) {
    let mut worker = thread.worker;
    while worker.run_step() {}
    worker.leave();
}

/// Gives the threads of a pool some time to start.
fn pause() {
    let _ = after(Duration::from_millis(50)).recv();
}

#[test]
fn test_execute() {
    let (pool, _threads) = ThreadPool::new();
    let (sender, receiver) = unbounded();

    let submitted = pool.execute(|| 2 + 2, move |value| sender.send(value).unwrap());
    let mut worker = spawned(submitted);
    assert!(worker.run_step());

    let result = receiver.recv().unwrap();
    assert_eq!(result, 4);
}

#[test]
fn test_try_execute_under_core_count() {
    let (pool, threads) = ThreadPool::builder().size(1).build();

    crossbeam_utils::thread::scope(|scope| {
        for thread in threads {
            scope.spawn(move |_| run(thread));
        }

        // Give some time for thread to start...
        pause();
        assert_eq!(pool.threads(), 1);

        let (sender, receiver) = unbounded();
        let submitted = pool.try_execute(|| 2 + 2, move |value| sender.send(value).unwrap());
        assert!(matches!(submitted, Ok(Submitted::Delivered)));
        assert_eq!(receiver.recv().unwrap(), 4);

        let _closing = pool.close();
    })
    .unwrap();
}

#[test]
fn test_try_execute_over_core_count() {
    let (pool, _threads) = ThreadPool::builder().size(0..1).build();

    assert!(pool.try_execute(|| 2 + 2, |_| ()).ok().is_some());
}

#[test]
fn test_try_execute_over_max_count() {
    let (pool, _threads) = ThreadPool::builder().size(0..1).build();

    assert!(pool.try_execute(|| 2 + 2, |_| ()).ok().is_some());
    assert!(pool.try_execute(|| 2 + 2, |_| ()).ok().is_none());
}

#[test]
fn test_name() {
    let (pool, threads) = ThreadPool::with_name("foo".to_string());

    crossbeam_utils::thread::scope(|scope| {
        for thread in threads {
            let mut builder = scope.builder();
            if let Some(name) = &thread.name {
                builder = builder.name(name.clone());
            }
            let handle = builder.spawn(move |_| run(thread)).unwrap();

            let name = handle.thread().name().unwrap().to_owned();
            assert_eq!(name, "foo");
        }

        let _closing = pool.close();
    })
    .unwrap();
}

#[test]
fn test_thread_count() {
    let (pool, threads) = ThreadPool::builder().size(0..1).build();

    assert_eq!(threads.len(), 0);
    assert_eq!(pool.threads(), 0);

    let mut worker = spawned(pool.execute(|| 2 + 2, |_| ()));
    assert!(worker.run_step());
    assert_eq!(pool.threads(), 1);

    let (pool_with_starting_threads, threads) = ThreadPool::builder().size(1).build();

    assert_eq!(threads.len(), 1);
    assert_eq!(pool_with_starting_threads.threads(), 1);
}

#[test]
fn test_tasks_completed() {
    let (pool, _threads) = ThreadPool::new();
    assert_eq!(pool.completed_tasks(), 0);

    let mut worker = spawned(pool.execute(|| 2 + 2, |_| ()));
    assert!(worker.run_step());
    assert_eq!(pool.completed_tasks(), 1);

    let submitted = pool.execute(|| 2 + 2, |_| ());
    let mut worker = match submitted {
        Submitted::Spawned(thread) => thread.worker,
        // The pool is at its maximum on a machine with one CPU.
        _ => worker,
    };
    assert!(worker.run_step());
    assert_eq!(pool.completed_tasks(), 2);
}

#[test]
fn test_join() {
    let (pool, threads) = ThreadPool::new();

    crossbeam_utils::thread::scope(|scope| {
        for thread in threads {
            scope.spawn(move |_| run(thread));
        }

        let mut closing = pool.close();
        loop {
            match closing.join_step(None) {
                JoinAction::Return(joined) => {
                    assert!(joined);
                    break;
                }
                JoinAction::Wait(time) => {
                    assert!(time.is_none());
                    pause();
                }
                JoinAction::Start(_) => panic!("no task is left"),
            }
        }
    })
    .unwrap();
}

#[test]
fn test_join_timeout_expiring() {
    let (pool, threads) = ThreadPool::builder().size(1).build();
    assert_eq!(pool.threads(), 1);

    crossbeam_utils::thread::scope(|scope| {
        for thread in threads {
            scope.spawn(move |_| run(thread));
        }

        // Schedule a slow task on the only thread.
        let _ = pool.execute(pause, |_| ());
        let mut closing = pool.close();

        // There is one task still running or waiting to run.
        let timeout = Duration::from_millis(10);
        match closing.join_step(Some(Some(timeout))) {
            JoinAction::Wait(time) => assert_eq!(time, Some(timeout)),
            _ => panic!("the thread has not stopped"),
        }
        match closing.join_step(Some(None)) {
            JoinAction::Return(joined) => assert!(!joined),
            _ => panic!("the time is over"),
        }
    })
    .unwrap();
}

#[test]
fn default_pool_has_a_core_thread_for_each_cpu() {
    let cpus = num_cpus::get();
    let (pool, threads) = ThreadPool::new();
    assert_eq!(threads.len(), cpus);
    assert_eq!(pool.threads(), cpus);

    let mut added = Vec::new();
    while let Ok(submitted) = pool.try_execute(|| 1, |_| ()) {
        added.push(spawned(submitted));
    }
    assert_eq!(added.len(), cpus);
    assert_eq!(pool.threads(), 2 * cpus);
}

#[test]
fn number_of_cpus_matters_only_without_a_size() {
    let (pool, threads) = ThreadPool::builder().build_for(3);
    assert_eq!(threads.len(), 3);
    assert_eq!(pool.threads(), 3);

    let (pool, threads) = ThreadPool::builder().size(2..5).build_for(3);
    assert_eq!(threads.len(), 2);
    assert_eq!(pool.threads(), 2);
}

#[test]
fn threads_carry_name_and_stack_size() {
    let (_pool, threads) = ThreadPool::with_name("foo".to_string());
    assert!(!threads.is_empty());
    for thread in &threads {
        assert_eq!(thread.name.as_deref(), Some("foo"));
        assert_eq!(thread.stack_size, None);
    }

    let (pool, _threads) = ThreadPool::builder().size(0..1).stack_size(65536).build();
    match pool.execute(|| 1, |_| ()) {
        Submitted::Spawned(thread) => {
            assert_eq!(thread.name, None);
            assert_eq!(thread.stack_size, Some(65536));
        }
        _ => panic!("there is room for a thread"),
    }
}

#[test]
fn tasks_are_queued_at_the_maximum() {
    let (pool, _threads) = ThreadPool::builder().size(1).queue_limit(2).build();
    assert_eq!(pool.queued_tasks(), 0);
    assert!(matches!(pool.execute(|| 1, |_| ()), Submitted::Queued));
    assert_eq!(pool.queued_tasks(), 1);
    assert!(matches!(pool.execute(|| 2, |_| ()), Submitted::Queued));
    assert_eq!(pool.queued_tasks(), 2);

    let (pool, _threads) = ThreadPool::builder().size(0).build();
    for expected in 1..5 {
        assert!(matches!(pool.execute(|| 1, |_| ()), Submitted::Queued));
        assert_eq!(pool.queued_tasks(), expected);
    }
    assert_eq!(pool.threads(), 0);
}

#[test]
fn queued_tasks_are_executed_in_order_when_the_pool_shuts_down() {
    let (pool, threads) = ThreadPool::builder().size(1).build();
    let (sender, receiver) = unbounded();
    for number in 0..3 {
        let sender = sender.clone();
        let submitted = pool.execute(move || number, move |value| sender.send(value).unwrap());
        assert!(matches!(submitted, Submitted::Queued));
    }

    let mut closing = pool.close();
    assert!(matches!(closing.join_step(None), JoinAction::Wait(None)));
    for thread in threads {
        run(thread);
    }
    assert!(matches!(closing.join_step(None), JoinAction::Return(true)));
    assert!(matches!(closing.join_step(Some(None)), JoinAction::Return(true)));

    for number in 0..3 {
        assert_eq!(receiver.try_recv(), Ok(number));
    }
    assert!(receiver.try_recv().is_err());
}

#[test]
fn initial_task_comes_before_queued_tasks() {
    let (pool, _threads) = ThreadPool::builder().size(0..1).build();
    let (sender, receiver) = unbounded();
    let first = sender.clone();
    let mut worker = spawned(pool.execute(|| 1, move |value| first.send(value).unwrap()));
    assert!(matches!(
        pool.execute(|| 2, move |value| sender.send(value).unwrap()),
        Submitted::Queued
    ));

    assert!(worker.run_step());
    assert_eq!(receiver.try_recv(), Ok(1));
    assert!(worker.run_step());
    assert_eq!(receiver.try_recv(), Ok(2));
    assert_eq!(pool.queued_tasks(), 0);
}

#[test]
fn task_that_is_refused_is_not_executed() {
    let (pool, _threads) = ThreadPool::builder().size(0).build();
    let (sender, receiver) = unbounded::<i32>();
    let refused = pool.try_execute(|| 1, move |value| sender.send(value).unwrap());
    assert!(refused.is_err());
    assert_eq!(pool.queued_tasks(), 0);
    assert_eq!(pool.threads(), 0);
    drop(refused);
    assert!(receiver.try_recv().is_err());
    assert_eq!(pool.completed_tasks(), 0);
}

#[test]
fn task_counts_as_running_while_it_runs() {
    let (pool, _threads) = ThreadPool::builder().size(0..1).build();
    let pool = Arc::new(pool);
    let (sender, receiver) = unbounded();

    let inside = pool.clone();
    let mut worker = spawned(pool.execute(
        move || (inside.running_tasks(), inside.completed_tasks()),
        move |counts| sender.send(counts).unwrap(),
    ));
    assert_eq!(pool.running_tasks(), 0);
    assert!(worker.run_step());
    assert_eq!(receiver.try_recv(), Ok((1, 0)));
    assert_eq!(pool.running_tasks(), 0);
    assert_eq!(pool.completed_tasks(), 1);
}

#[test]
fn worker_leaves_only_once() {
    let (pool, threads) = ThreadPool::builder().size(2).build();
    assert_eq!(pool.threads(), 2);
    let mut workers: Vec<Worker> = threads.into_iter().map(|thread| thread.worker).collect();
    workers[0].leave();
    assert_eq!(pool.threads(), 1);
    workers[0].leave();
    assert_eq!(pool.threads(), 1);
    workers[1].leave();
    assert_eq!(pool.threads(), 0);
}

#[test]
fn spawned_thread_is_counted() {
    let (pool, _threads) = ThreadPool::builder().size(0..1).build();
    let (sender, receiver) = unbounded();
    let thunk = Thunk::new(move || sender.send(5).unwrap());

    let thread = pool.spawn_thread(Some(thunk));
    assert_eq!(pool.threads(), 1);
    let mut worker = match thread {
        Ok(thread) => thread.worker,
        Err(_) => panic!("there is room for a thread"),
    };
    assert!(matches!(pool.spawn_thread(None), Err(None)));
    assert_eq!(pool.threads(), 1);

    assert!(receiver.try_recv().is_err());
    assert!(worker.run_step());
    assert_eq!(receiver.try_recv(), Ok(5));
    worker.leave();
    assert_eq!(pool.threads(), 0);
}

#[test]
fn task_is_not_executed_by_the_one_who_submits_it() {
    let (pool, threads) = ThreadPool::builder().size(1).build();
    let (sender, receiver) = unbounded();
    let submitted = pool.execute(|| 1, move |value| sender.send(value).unwrap());
    assert!(matches!(submitted, Submitted::Queued));
    assert!(receiver.try_recv().is_err());

    let mut worker = threads.into_iter().next().unwrap().worker;
    assert!(worker.run_step());
    assert_eq!(receiver.try_recv(), Ok(1));
}

#[test]
fn threads_of_a_dropped_pool_finish_what_is_queued() {
    let (pool, threads) = ThreadPool::builder().size(2).build();
    let (sender, receiver) = unbounded();
    for number in 0..4 {
        let sender = sender.clone();
        let _ = pool.execute(move || number, move |value| sender.send(value).unwrap());
    }
    drop(pool);

    for thread in threads {
        run(thread);
    }
    for number in 0..4 {
        assert_eq!(receiver.try_recv(), Ok(number));
    }
    assert!(receiver.try_recv().is_err());
}

#[test]
fn every_submitted_task_is_queued_running_or_completed() {
    let (pool, threads) = ThreadPool::builder().size(1..2).build();
    let mut added = spawned(pool.execute(|| 0, |_| ()));
    for _ in 0..3 {
        assert!(matches!(pool.execute(|| 0, |_| ()), Submitted::Queued));
    }
    let mut core = threads.into_iter().next().unwrap().worker;

    assert!(added.run_step());
    assert_eq!((pool.queued_tasks(), pool.running_tasks(), pool.completed_tasks()), (3, 0, 1));
    assert!(core.run_step());
    assert_eq!((pool.queued_tasks(), pool.running_tasks(), pool.completed_tasks()), (2, 0, 2));
    assert!(added.run_step());
    assert!(added.run_step());
    assert_eq!((pool.queued_tasks(), pool.running_tasks(), pool.completed_tasks()), (0, 0, 4));
}

#[test]
fn joining_executes_what_no_thread_is_left_for() {
    let (pool, _threads) = ThreadPool::builder().size(0..1).build();
    let (sender, receiver) = unbounded();
    let mut worker = spawned(pool.execute(|| 0, |_| ()));
    for number in 1..4 {
        let sender = sender.clone();
        let submitted = pool.execute(move || number, move |value| sender.send(value).unwrap());
        assert!(matches!(submitted, Submitted::Queued));
    }
    assert!(worker.run_step());
    worker.leave();
    drop(worker);
    assert_eq!(pool.threads(), 0);

    let mut closing = pool.close();
    let thread = match closing.join_step(Some(None)) {
        JoinAction::Start(thread) => thread,
        _ => panic!("there are tasks left"),
    };
    assert!(receiver.try_recv().is_err());
    assert!(matches!(closing.join_step(None), JoinAction::Wait(None)));
    assert!(matches!(closing.join_step(Some(None)), JoinAction::Return(false)));
    run(thread);
    assert!(matches!(closing.join_step(Some(None)), JoinAction::Return(true)));
    for number in 1..4 {
        assert_eq!(receiver.try_recv(), Ok(number));
    }
    assert!(receiver.try_recv().is_err());
}

#[test]
fn pool_that_may_have_no_threads_is_joined_at_once() {
    let (pool, _threads) = ThreadPool::builder().size(0).build();
    assert!(matches!(pool.execute(|| 1, |_| ()), Submitted::Queued));
    let mut closing = pool.close();
    assert!(matches!(closing.join_step(None), JoinAction::Return(true)));
}
