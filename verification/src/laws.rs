//! What the operations of a pool do, call by call.
//!
//! Each law speaks of one call, its arguments and what it returned.
//!
//! What an operation returns does not show what else it did to something that threads share. So the
//! laws also put the operations in an order. One that uses a law rests on the operation that the law
//! is about, and Verus accepts no circle, so the latter cannot call the former, not even by way of
//! others:
//!
//! - Building and closing a pool change no roster, make no task, take none out of a channel and count
//!   none.
//! - Submitting a task that is made already makes no other task. Neither that nor making and
//!   submitting one takes a task out of a channel, counts one, takes a thread off the count, or adds a
//!   thread but for the task.
//! - Adding a thread takes no task out of a channel, counts none and takes no thread off the count.
//!
//! What is left is told by the functions that handle what threads share: each says that it only
//! [makes handles](crate::ledger::sharing), only [uses the one it has](crate::ledger::using), or does
//! neither, as looks do.

use crate::builder::{reports_cpus, ThreadPoolBuilder};
use crate::channel;
use crate::counter::{
    count_adds_up, count_at, count_read, total_adds_up, total_at, total_read,
};
use crate::join::{Closing, JoinAction, Remaining};
use crate::pool::{Submitted, ThreadPool};
use crate::roster::{came_about, change_at, roster_at, roster_read, Change, RosterView};
use crate::shared::lemma_threads_never_exceed_the_maximum;
use crate::staff::{ClosedStaff, Leftover, WorkerThread};
use crate::thunk::{handed_over, task_of, Thunk};
use crate::worker::Phase;
use std::ops::Range;
use std::time::Duration;
use vstd::prelude::*;

verus! {

/// Whether the thread has the name, or none if there is none.
pub open spec fn has_name(thread: WorkerThread, name: Option<Seq<char>>) -> bool {
    match thread.name {
        Some(text) => name == Some(text@),
        None => name is None,
    }
}

/// A pool that is built has the name, the stack size and the size that were told; without a size it
/// has a core thread for each CPU, and may have twice as many threads. It starts with as many
/// threads as core threads, which listen, are counted and have no task, with an empty queue of the
/// limit that was told, and with no task running or completed.
pub broadcast proof fn law_build_for(
    builder: ThreadPoolBuilder,
    cpus: usize,
    built: (ThreadPool, Vec<WorkerThread>),
)
    requires
        #[trigger] call_ensures(ThreadPoolBuilder::build_for, (builder, cpus), built),
    ensures
        built.0.staff().thread_name == builder@.name,
        built.0.staff().stack_size == builder@.stack_size,
        match builder@.queue_limit {
            Some(limit) => built.0.queue_limit() == Some(limit as nat),
            None => built.0.queue_limit() is None,
        },
        built.0.immediate_limit() == Some(0nat),
        match builder@.size {
            Some(size) => built.0.shared().size().min == size.min && built.0.shared().size().max
                == size.max,
            None => built.0.shared().size().min == cpus && built.0.shared().size().max == if 2
                * cpus <= usize::MAX {
                2 * cpus
            } else {
                usize::MAX as int
            },
        },
        match builder@.idle_timeout {
            Some(seconds) => built.0.shared().idle_timeout == seconds,
            None => built.0.shared().idle_timeout == 60,
        },
        built.1@.len() == built.0.shared().size().min,
        roster_at(built.0.shared().roster, 0).threads
            == built.0.shared().size().min,
        count_at(built.0.shared().running, 0) == 0,
        total_at(built.0.shared().completed, 0) == 0,
        channel::stands_at(built.0.overflow(), 0, 0),
        forall|i: int|
            0 <= i < built.1@.len() ==> {
                let worker = (#[trigger] built.1@[i]).worker@;
                &&& worker.initial_thunk is None
                &&& worker.immediate.channel == built.0.immediate()
                &&& worker.overflow.channel == built.0.overflow()
                &&& worker.shared == built.0.shared()
                &&& worker.phase == Phase::Listening
                &&& worker.enlisted
                &&& worker.changes.len() == 0
                &&& worker.immediate.taken.len() == 0
                &&& worker.overflow.taken.len() == 0
                &&& worker.record.tasks.len() == 0
                &&& worker.record.running.len() == 0
                &&& worker.record.completed.len() == 0
                &&& built.1@[i].stack_size == builder@.stack_size
                &&& has_name(built.1@[i], builder@.name)
            },
{
}

/// Whether the pool has a core thread for each CPU that the machine reports, which is at least one,
/// and may have twice as many threads, as far as they can be counted.
pub open spec fn is_default_size(pool: ThreadPool) -> bool {
    let size = pool.shared().size();
    &&& reports_cpus(size.min)
    &&& size.min >= 1
    &&& size.max == if 2 * size.min <= usize::MAX {
        2 * size.min
    } else {
        usize::MAX as int
    }
}

/// A pool that is built without telling how many CPUs there are is one that is built for some
/// number of them, at least one.
pub broadcast proof fn law_build(
    builder: ThreadPoolBuilder,
    built: (ThreadPool, Vec<WorkerThread>),
)
    requires
        #[trigger] call_ensures(ThreadPoolBuilder::build, (builder,), built),
    ensures
        built.0.staff().thread_name == builder@.name,
        built.0.staff().stack_size == builder@.stack_size,
        match builder@.queue_limit {
            Some(limit) => built.0.queue_limit() == Some(limit as nat),
            None => built.0.queue_limit() is None,
        },
        builder@.idle_timeout is None ==> built.0.shared().idle_timeout == 60,
        built.1@.len() == built.0.shared().size().min,
        builder@.size matches Some(size) ==> built.0.shared().size() == size,
        builder@.size is None ==> is_default_size(built.0),
{
}

/// A pool with the default configuration has a core thread for each CPU that the machine reports.
pub broadcast proof fn law_new(built: (ThreadPool, Vec<WorkerThread>))
    requires
        #[trigger] call_ensures(ThreadPool::new, (), built),
    ensures
        built.0.staff().thread_name is None,
        built.0.staff().stack_size is None,
        built.0.queue_limit() is None,
        built.0.shared().idle_timeout == 60,
        built.1@.len() == built.0.shared().size().min,
        is_default_size(built.0),
{
}

/// A pool with a name is otherwise one with the default configuration.
pub broadcast proof fn law_with_name(name: String, built: (ThreadPool, Vec<WorkerThread>))
    requires
        #[trigger] call_ensures(ThreadPool::with_name, (name,), built),
    ensures
        built.0.staff().thread_name == Some(name@),
        built.0.staff().stack_size is None,
        built.0.queue_limit() is None,
        built.0.shared().idle_timeout == 60,
        built.1@.len() == built.0.shared().size().min,
        is_default_size(built.0),
{
}

/// A pool that is closed keeps its channels and its state, and both channels lose their sender.
pub broadcast proof fn law_close(pool: ThreadPool, closing: Closing)
    requires
        #[trigger] call_ensures(ThreadPool::close, (pool,), closing),
    ensures
        closing@.staff == pool.staff(),
        closing@.leftover.channel == pool.overflow(),
        closing@.leftover.taken.len() == 0,
        closing@.waiting is None,
        channel::loses_sender(pool.immediate()),
        channel::loses_sender(pool.overflow()),
{
}

/// The laws on making a pool and on closing it.
pub broadcast group group_pools_are_built {
    law_build_for,
    law_build,
    law_new,
    law_with_name,
    law_close,
}

/// Whether a thread was added for the thunk: it executes the thunk first, belongs to the pool, is
/// counted, and one change of the roster counted it.
pub open spec fn is_hired_for(pool: ThreadPool, thread: WorkerThread, thunk: Thunk) -> bool {
    let worker = thread.worker@;
    &&& worker.initial_thunk == Some(thunk)
    &&& worker.immediate.channel == pool.immediate()
    &&& worker.overflow.channel == pool.overflow()
    &&& worker.shared == pool.shared()
    &&& worker.phase == Phase::Listening
    &&& worker.enlisted
    &&& worker.immediate.taken.len() == 0
    &&& worker.overflow.taken.len() == 0
    &&& worker.record.tasks.len() == 0
    &&& worker.changes.len() == 1
    &&& change_at(pool.shared().roster, worker.changes[0]) == Change::Enlist
    &&& thread.stack_size == pool.staff().stack_size
    &&& has_name(thread, pool.staff().thread_name)
}

/// A submitted task goes to a worker that waits, comes first in a thread that is added because none
/// waits, or goes into the queue because no thread can be added either.
pub broadcast proof fn law_execute<
    T: Send + 'static,
    F: FnOnce() -> T + Send + 'static,
    C: FnOnce(T) + Send + 'static,
>(pool: &ThreadPool, f: F, complete: C, submitted: Submitted)
    requires
        #[trigger] call_ensures(ThreadPool::execute::<T, F, C>, (pool, f, complete), submitted),
    ensures
        ({
            let thunk = task_of::<T, F, C>(f, complete);
            match submitted {
                Submitted::Delivered => exists|position: nat| #[trigger]
                    channel::takes_in(pool.immediate(), position) && channel::message(
                        pool.immediate(),
                        position,
                    ) == thunk && channel::taker(pool.immediate(), position) is Some,
                Submitted::Spawned(thread) => channel::refuses(pool.immediate(), thunk)
                    && is_hired_for(*pool, thread, thunk),
                Submitted::Queued => channel::refuses(pool.immediate(), thunk)
                    && pool.shared().denies(Change::Enlist) && exists|position: nat| #[trigger]
                    channel::takes_in(pool.overflow(), position) && channel::message(
                        pool.overflow(),
                        position,
                    ) == thunk,
            }
        }),
{
}

/// A task that is tried goes to a worker that waits, or comes first in a thread that is added
/// because none waits. Otherwise it comes back, because no thread can be added either.
pub broadcast proof fn law_try_execute<
    T: Send + 'static,
    F: FnOnce() -> T + Send + 'static,
    C: FnOnce(T) + Send + 'static,
>(pool: &ThreadPool, f: F, complete: C, submitted: Result<Submitted, Thunk>)
    requires
        #[trigger] call_ensures(ThreadPool::try_execute::<T, F, C>, (pool, f, complete), submitted),
    ensures
        ({
            let thunk = task_of::<T, F, C>(f, complete);
            match submitted {
                Ok(Submitted::Delivered) => exists|position: nat| #[trigger]
                    channel::takes_in(pool.immediate(), position) && channel::message(
                        pool.immediate(),
                        position,
                    ) == thunk && channel::taker(pool.immediate(), position) is Some,
                Ok(Submitted::Spawned(thread)) => channel::refuses(pool.immediate(), thunk)
                    && is_hired_for(*pool, thread, thunk),
                Ok(Submitted::Queued) => false,
                Err(back) => back == thunk && channel::refuses(pool.immediate(), thunk)
                    && pool.shared().denies(Change::Enlist),
            }
        }),
{
}

/// A thunk that is tried is treated as a task that is tried.
pub broadcast proof fn law_try_execute_thunk(
    pool: &ThreadPool,
    thunk: Thunk,
    submitted: Result<Submitted, Thunk>,
)
    requires
        #[trigger] call_ensures(ThreadPool::try_execute_thunk, (pool, thunk), submitted),
    ensures
        match submitted {
            Ok(Submitted::Delivered) => channel::carries(pool.immediate(), thunk),
            Ok(Submitted::Spawned(thread)) => channel::refuses(pool.immediate(), thunk)
                && is_hired_for(*pool, thread, thunk),
            Ok(Submitted::Queued) => false,
            Err(back) => back == thunk && channel::refuses(pool.immediate(), thunk)
                && pool.shared().denies(Change::Enlist),
        },
{
}

/// A thunk that is submitted goes into the queue if it comes back when it is tried.
pub(crate) broadcast proof fn law_submit(pool: &ThreadPool, thunk: Thunk, submitted: Submitted)
    requires
        #[trigger] call_ensures(ThreadPool::submit, (pool, thunk), submitted),
    ensures
        match submitted {
            Submitted::Delivered => channel::carries(pool.immediate(), thunk),
            Submitted::Spawned(thread) => channel::refuses(pool.immediate(), thunk)
                && is_hired_for(*pool, thread, thunk),
            Submitted::Queued => channel::refuses(pool.immediate(), thunk)
                && pool.shared().denies(Change::Enlist) && channel::carries(
                pool.overflow(),
                thunk,
            ),
        },
{
}

/// The laws on submitting a task.
pub broadcast group group_tasks_are_submitted {
    law_execute,
    law_try_execute,
    law_try_execute_thunk,
}

/// A pool that is built with a number as its size starts exactly that many threads, and no look ever
/// finds more.
pub proof fn law_pool_of_a_number(
    builder: ThreadPoolBuilder,
    threads: usize,
    sized: ThreadPoolBuilder,
    cpus: usize,
    built: (ThreadPool, Vec<WorkerThread>),
    found: usize,
)
    requires
        call_ensures(ThreadPoolBuilder::size::<usize>, (builder, threads), sized),
        call_ensures(ThreadPoolBuilder::build_for, (sized, cpus), built),
        call_ensures(ThreadPool::threads, (&built.0,), found),
    ensures
        built.1@.len() == threads,
        found <= threads,
{
    law_build_for(sized, cpus, built);
}

/// A pool that is built with a range as its size starts as many threads as the lower bound says, and
/// no look ever finds more than the upper bound says.
pub proof fn law_pool_of_a_range(
    builder: ThreadPoolBuilder,
    range: Range<usize>,
    sized: ThreadPoolBuilder,
    cpus: usize,
    built: (ThreadPool, Vec<WorkerThread>),
    found: usize,
)
    requires
        call_ensures(ThreadPoolBuilder::size::<Range<usize>>, (builder, range), sized),
        call_ensures(ThreadPoolBuilder::build_for, (sized, cpus), built),
        call_ensures(ThreadPool::threads, (&built.0,), found),
    ensures
        built.1@.len() == range.start,
        found <= range.end,
{
    law_build_for(sized, cpus, built);
}

/// The number of threads is what the roster counts at the time of the look.
pub proof fn law_threads(pool: &ThreadPool, threads: usize)
    requires
        call_ensures(ThreadPool::threads, (pool,), threads),
    ensures
        exists|changes: nat, roster: RosterView| #[trigger]
            roster_read(pool.shared().roster, roster, changes) && roster == roster_at(
                pool.shared().roster,
                changes,
            ) && roster.threads == threads && came_about(pool.shared().roster, changes),
        threads <= pool.shared().size().max,
{
    let changes = choose|changes: nat| #[trigger]
        pool.shared().finds_threads_at(changes, threads);
    assert(roster_read(
        pool.shared().roster,
        roster_at(pool.shared().roster, changes),
        changes,
    ));
}

/// The number of running tasks is what their counter holds at the time of the look.
pub proof fn law_running_tasks(pool: &ThreadPool, tasks: usize)
    requires
        call_ensures(ThreadPool::running_tasks, (pool,), tasks),
    ensures
        exists|steps: nat| #[trigger]
            count_read(pool.shared().running, tasks, steps) && count_at(
                pool.shared().running,
                steps,
            ) == tasks && count_adds_up(pool.shared().running, steps),
{
    let steps = choose|steps: nat| #[trigger] pool.shared().finds_running_at(steps, tasks);
    assert(count_read(pool.shared().running, tasks, steps));
}

/// The number of completed tasks is what their counter holds at the time of the look.
pub proof fn law_completed_tasks(pool: &ThreadPool, tasks: u64)
    requires
        call_ensures(ThreadPool::completed_tasks, (pool,), tasks),
    ensures
        exists|steps: nat| #[trigger]
            total_read(pool.shared().completed, tasks, steps) && total_at(
                pool.shared().completed,
                steps,
            ) == tasks && total_adds_up(pool.shared().completed, steps),
{
    let steps = choose|steps: nat| #[trigger] pool.shared().finds_completed_at(steps, tasks);
    assert(total_read(pool.shared().completed, tasks, steps));
}

/// The number of queued tasks is how many more have gone into the queue than have been received at
/// the time of the look, and never more than the limit.
pub proof fn law_queued_tasks(pool: &ThreadPool, tasks: usize)
    requires
        call_ensures(ThreadPool::queued_tasks, (pool,), tasks),
    ensures
        exists|taken: nat| #[trigger]
            channel::messages_read(pool.overflow(), tasks as nat, taken) && channel::stands_at(
                pool.overflow(),
                taken + tasks as nat,
                taken,
            ),
        pool.queue_limit() matches Some(limit) ==> tasks <= limit,
{
    let taken = choose|taken: nat| #[trigger]
        channel::messages_read(pool.overflow(), tasks as nat, taken) && channel::holds_messages(
            pool.overflow(),
            tasks as nat,
            taken,
        );
    assert(channel::messages_read(pool.overflow(), tasks as nat, taken));
}

/// A thread that is added on demand is counted once and executes first what it was given; if none can
/// be added, that comes back.
pub broadcast proof fn law_spawn_thread(
    pool: &ThreadPool,
    initial_thunk: Option<Thunk>,
    thread: Result<WorkerThread, Option<Thunk>>,
)
    requires
        #[trigger] call_ensures(ThreadPool::spawn_thread, (pool, initial_thunk), thread),
    ensures
        match thread {
            Ok(thread) => {
                &&& thread.worker@.initial_thunk == initial_thunk
                &&& thread.worker@.shared == pool.shared()
                &&& thread.worker@.enlisted
                &&& thread.worker@.changes.len() == 1
                &&& change_at(pool.shared().roster, thread.worker@.changes[0])
                    == Change::Enlist
                &&& initial_thunk matches Some(thunk) ==> is_hired_for(*pool, thread, thunk)
            },
            Err(back) => back == initial_thunk && pool.shared().denies(Change::Enlist),
        },
{
}

/// A thread that is added for a task that was left in the queue is counted once and executes that task
/// first; if none can be added, the task comes back.
pub(crate) broadcast proof fn law_hire_for(
    staff: &ClosedStaff,
    leftover: Leftover,
    thread: Result<WorkerThread, Leftover>,
)
    requires
        #[trigger] call_ensures(ClosedStaff::hire_for, (staff, leftover), thread),
    ensures
        match thread {
            Ok(thread) => {
                &&& thread.worker@.initial_thunk == Some(leftover@)
                &&& thread.worker@.shared == staff@.shared
                &&& thread.worker@.overflow.channel == staff@.overflow
                &&& thread.worker@.enlisted
                &&& thread.worker@.changes.len() == 1
                &&& change_at(staff@.shared.roster, thread.worker@.changes[0]) == Change::Enlist
            },
            Err(back) => back@ == leftover@ && staff@.shared.denies(Change::Enlist),
        },
{
}

/// The law on adding a thread.
pub broadcast group group_threads_are_added {
    law_spawn_thread,
}

/// A step of joining a pool waits for the time that is left, or until a thread stops if there is no
/// deadline; it says that the pool has shut down only if it finds no thread, and that it has not only
/// after the deadline.
pub proof fn law_join_step(
    closing: &mut Closing,
    remaining: Remaining,
    action: JoinAction,
)
    requires
        call_ensures(Closing::join_step, (closing, remaining), action),
    ensures
        final(closing)@.staff == old(closing)@.staff,
        match action {
            JoinAction::Wait(time) => match remaining {
                Some(left) => left is Some && time == left,
                None => time is None,
            },
            JoinAction::Return(joined) => if joined {
                old(closing)@.staff.shared.finds_threads(0)
            } else {
                remaining == Some(None::<Duration>)
            },
            JoinAction::Start(thread) => {
                &&& thread.worker@.shared == old(closing)@.staff.shared
                &&& thread.worker@.initial_thunk is Some
                &&& thread.worker@.enlisted
                &&& thread.worker@.changes.len() == 1
            },
        },
{
}

/// A change is denied only by a look at the roster that finds as many threads as the maximum, if one
/// was to be added, and no more than the core threads, if an idle one was to go.
pub proof fn law_denied_changes(pool: &ThreadPool, change: Change)
    requires
        pool.shared().opens(),
        pool.shared().denies(change),
    ensures
        change == Change::Enlist ==> pool.shared().finds_threads(pool.shared().size().max),
        change == Change::Retire ==> exists|threads: usize| #[trigger]
            pool.shared().finds_threads(threads) && threads <= pool.shared().size().min,
        change != Change::Leave,
{
    let changes = choose|changes: nat| #[trigger] pool.shared().denies_at(changes, change);
    let threads = roster_at(pool.shared().roster, changes).threads;
    assert(pool.shared().finds_threads_at(changes, threads));
    lemma_threads_never_exceed_the_maximum(pool.shared(), changes, threads);
    assert(pool.shared().finds_threads(threads));
}

} // verus!
