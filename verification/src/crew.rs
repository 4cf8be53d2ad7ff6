//! The workers of a pool together.

use crate::channel;
use crate::channel::ReceiverView;
use crate::ledger::{
    all_below, ascending, covers, entries, extends, is_held, lemma_all_are_below, lemma_all_stay,
    lemma_entries_add_up, lemma_every_log_has_one, lemma_no_more_are_below_than_there_are,
    lemma_none_below_zero, lemma_one_moves, odd_below,
};
use crate::join::{
    is_joining, lemma_joining_starts_a_thread_for_each_task_left, starts_thread_for, ClosingView,
    JoinAction, Remaining,
};
use crate::pool::{Submitted, ThreadPool};
use crate::roster::{change_at, lemma_threads_that_came_are_here_or_gone, occurrences, Change};
use crate::shared::{
    lemma_completed_tasks_are_counted_once, lemma_fixed_pool_lets_no_worker_retire,
    lemma_running_tasks_have_started_and_not_stopped, lemma_threads_are_never_less_than_the_core,
    lemma_threads_never_exceed_the_maximum, SharedView,
};
use crate::thunk::{handed_over, lemma_executed_task_hands_its_value_over, task_of, Thunk};
use crate::worker::{
    all_done, is_run, lemma_worker_executes_every_task_that_it_takes, reaction, Event,
    Phase, WorkerView,
};
use vstd::prelude::*;

verus! {

/// What the workers have received of the tasks that are handed to workers that wait.
pub open spec fn immediate_logs(workers: Seq<WorkerView>) -> Seq<Seq<nat>> {
    Seq::new(workers.len(), |i: int| workers[i].immediate.taken)
}

/// What the workers have received of the queued tasks.
pub open spec fn overflow_logs(workers: Seq<WorkerView>) -> Seq<Seq<nat>> {
    Seq::new(workers.len(), |i: int| workers[i].overflow.taken)
}

/// The steps by which the workers have counted tasks as running and as no longer running.
pub open spec fn running_logs(workers: Seq<WorkerView>) -> Seq<Seq<nat>> {
    Seq::new(workers.len(), |i: int| workers[i].record.running)
}

/// The steps by which the workers have counted tasks as completed.
pub open spec fn completed_logs(workers: Seq<WorkerView>) -> Seq<Seq<nat>> {
    Seq::new(workers.len(), |i: int| workers[i].record.completed)
}

/// How many of the workers were started with a task.
pub open spec fn first_tasks(firsts: Seq<Option<Thunk>>) -> nat
    decreases firsts.len(),
{
    if firsts.len() == 0 {
        0
    } else {
        first_tasks(firsts.drop_last()) + if firsts.last() is Some {
            1nat
        } else {
            0nat
        }
    }
}

/// Whether a worker comes from the one state to the other by running.
pub open spec fn ran(start: WorkerView, end: WorkerView) -> bool {
    exists|trace: Seq<WorkerView>| #[trigger]
        is_run(trace) && trace[0] == start && trace.last() == end
}

/// All workers of a pool, as they were started and as they are.
pub struct Crew {
    pub starts: Seq<WorkerView>,
    pub ends: Seq<WorkerView>,
}

impl Crew {
    /// Whether these are workers of the pool, each of which has run.
    pub open spec fn works_for(self, pool: ThreadPool) -> bool {
        &&& self.starts.len() == self.ends.len()
        &&& forall|i: int|
            0 <= i < self.starts.len() ==> {
                &&& (#[trigger] self.starts[i]).fresh()
                &&& self.starts[i].immediate.channel == pool.immediate()
                &&& self.starts[i].overflow.channel == pool.overflow()
                &&& self.starts[i].shared == pool.shared()
                &&& self.starts[i].changes.len() == 0 || pool.shared().logs_change(
                    Seq::empty(),
                    self.starts[i].changes,
                    Change::Enlist,
                )
                &&& ran(self.starts[i], self.ends[i])
                &&& self.ends[i].initial_thunk is None
            }
    }

    /// Whether these are all workers of the pool: whatever is received from a channel of the pool,
    /// one of them has received, or it was swept up when the pool was joined and one of them was
    /// started with it.
    pub open spec fn is_complete(self, pool: ThreadPool, swept: Seq<nat>) -> bool {
        &&& forall|position: nat| #[trigger]
            channel::taker(pool.immediate(), position) is Some ==> is_held(
                immediate_logs(self.ends),
                position,
            )
        &&& forall|position: nat| #[trigger]
            channel::taker(pool.overflow(), position) is Some ==> is_held(
                overflow_logs(self.ends),
                position,
            ) || swept.contains(position)
        &&& forall|k: int|
            0 <= k < swept.len() ==> self.begins_with(
                channel::message(pool.overflow(), #[trigger] swept[k]),
            )
    }

    /// Whether one of the workers was started with the task.
    pub open spec fn begins_with(self, thunk: Thunk) -> bool {
        exists|i: int|
            0 <= i < self.starts.len() && (#[trigger] self.starts[i]).initial_thunk == Some(thunk)
    }

    /// Whether no two workers have the same receiving end.
    pub open spec fn is_distinct(self) -> bool {
        forall|i: int, j: int|
            0 <= i < self.ends.len() && 0 <= j < self.ends.len() && i != j ==> {
                &&& (#[trigger] self.ends[i]).immediate.id != (
                #[trigger] self.ends[j]).immediate.id
                &&& self.ends[i].overflow.id != self.ends[j].overflow.id
            }
    }

    /// Whether one of the workers has stopped because the pool was shut down.
    pub open spec fn has_drained(self) -> bool {
        exists|i: int|
            0 <= i < self.ends.len() && (#[trigger] self.ends[i]).enlisted && self.ends[i].phase
                == Phase::Finished
    }

    /// Whether `now` is what is left of the workers when those that have stopped may have left the
    /// pool.
    pub open spec fn leaves(self, now: Seq<WorkerView>) -> bool {
        &&& now.len() == self.ends.len()
        &&& forall|i: int|
            0 <= i < now.len() ==> (#[trigger] now[i]) == self.ends[i] || (self.ends[i].phase
                == Phase::Finished && self.ends[i].leaves(now[i]))
    }
}

/// The changes that the workers have made to the roster.
pub open spec fn change_logs(workers: Seq<WorkerView>) -> Seq<Seq<nat>> {
    Seq::new(workers.len(), |i: int| workers[i].changes)
}

/// Whether every thread that leaves the pool within the first so many changes of its roster is one
/// of these workers.
pub open spec fn knows_leavers(pool: ThreadPool, now: Seq<WorkerView>, changes: nat) -> bool {
    forall|position: nat|
        position < changes && #[trigger] change_at(pool.shared().roster, position) == Change::Leave
            ==> is_held(change_logs(now), position)
}

proof fn lemma_crew_accounts(crew: Crew, pool: ThreadPool, i: int)
    requires
        crew.works_for(pool),
        0 <= i < crew.starts.len(),
    ensures
        crew.ends[i].accounts(crew.starts[i]),
        crew.ends[i].same_worker(crew.starts[i]),
{
    let start = crew.starts[i];
    let end = crew.ends[i];
    assert(ran(start, end));
    let trace = choose|trace: Seq<WorkerView>| #[trigger]
        is_run(trace) && trace[0] == start && trace.last() == end;
    lemma_worker_executes_every_task_that_it_takes(trace);
}

/// A queued task that somebody has taken out of the queue is executed, whether the pool is open or
/// not.
pub proof fn lemma_taken_task_is_executed(
    pool: ThreadPool,
    crew: Crew,
    swept: Seq<nat>,
    position: nat,
)
    requires
        crew.works_for(pool),
        crew.is_complete(pool, swept),
        channel::taker(pool.overflow(), position) is Some,
    ensures
        channel::message(pool.overflow(), position).done(),
{
    let logs = overflow_logs(crew.ends);
    if is_held(logs, position) {
        let i = choose|i: int| 0 <= i < logs.len() && #[trigger] logs[i].contains(position);
        lemma_crew_accounts(crew, pool, i);
        lemma_received_task_is_done(crew.ends[i].overflow, position);
    } else {
        let k = swept.index_of(position);
        assert(swept[k] == position);
        let thunk = channel::message(pool.overflow(), position);
        assert(crew.begins_with(thunk));
        let i = choose|i: int|
            0 <= i < crew.starts.len() && (#[trigger] crew.starts[i]).initial_thunk == Some(thunk);
        lemma_crew_accounts(crew, pool, i);
    }
}

/// Every task that was submitted is executed: when the workers have run, each one that was handed to
/// a worker or came first in a thread that was added has been, and when every message that ever went
/// into the queue has been received, so has each one that was queued. A worker that stops because the
/// pool was shut down has found that.
pub proof fn lemma_every_submitted_task_is_executed(
    pool: ThreadPool,
    thunk: Thunk,
    submitted: Submitted,
    crew: Crew,
    swept: Seq<nat>,
)
    requires
        crew.works_for(pool),
        crew.is_complete(pool, swept),
        pool.places(thunk, submitted),
        submitted matches Submitted::Spawned(thread) ==> crew.starts.contains(thread.worker@),
        submitted is Queued ==> crew.has_drained() || channel::exhausted(pool.overflow()),
    ensures
        thunk.done(),
{
    if submitted is Queued {
        if crew.has_drained() {
            let drained = choose|i: int|
                0 <= i < crew.ends.len() && (#[trigger] crew.ends[i]).enlisted && crew.ends[i].phase
                    == Phase::Finished;
            lemma_crew_accounts(crew, pool, drained);
        }
        let position = choose|position: nat| #[trigger]
            channel::takes_in(pool.overflow(), position) && channel::message(
                pool.overflow(),
                position,
            ) == thunk;
        assert(channel::taker(pool.overflow(), position) is Some);
        lemma_taken_task_is_executed(pool, crew, swept, position);
    } else {
        lemma_delivered_or_spawned_task_is_executed(pool, thunk, submitted, crew);
    }
}

proof fn lemma_received_task_is_done(inlet: ReceiverView, position: nat)
    requires
        all_done(inlet),
        inlet.taken.contains(position),
    ensures
        channel::message(inlet.channel, position).done(),
        channel::taker(inlet.channel, position) == Some(inlet.id),
{
    let i = inlet.taken.index_of(position);
    assert(inlet.taken[i] == position);
}

/// The value of every task that was submitted is computed by a worker and handed over, under the
/// same conditions.
pub proof fn lemma_every_submitted_value_is_handed_over<
    T: Send + 'static,
    F: FnOnce() -> T + Send + 'static,
    C: FnOnce(T) + Send + 'static,
>(
    pool: ThreadPool,
    f: F,
    complete: C,
    submitted: Submitted,
    crew: Crew,
    swept: Seq<nat>,
)
    requires
        crew.works_for(pool),
        crew.is_complete(pool, swept),
        pool.places(task_of::<T, F, C>(f, complete), submitted),
        submitted matches Submitted::Spawned(thread) ==> crew.starts.contains(thread.worker@),
        submitted is Queued ==> crew.has_drained() || channel::exhausted(pool.overflow()),
    ensures
        handed_over::<T, F, C>(f, complete),
{
    lemma_every_submitted_task_is_executed(
        pool,
        task_of::<T, F, C>(f, complete),
        submitted,
        crew,
        swept,
    );
    lemma_executed_task_hands_its_value_over::<T, F, C>(f, complete);
}

/// No task that went into a channel is executed twice: no two workers receive the same message, and
/// none receives one twice.
pub proof fn lemma_no_task_is_executed_twice(
    pool: ThreadPool,
    crew: Crew,
    i: int,
    first: int,
    j: int,
    second: int,
)
    requires
        crew.works_for(pool),
        crew.is_distinct(),
        0 <= i < crew.ends.len(),
        0 <= j < crew.ends.len(),
    ensures
        0 <= first < crew.ends[i].overflow.taken.len() && 0 <= second
            < crew.ends[j].overflow.taken.len() && crew.ends[i].overflow.taken[first]
            == crew.ends[j].overflow.taken[second] ==> i == j && first == second,
        0 <= first < crew.ends[i].immediate.taken.len() && 0 <= second
            < crew.ends[j].immediate.taken.len() && crew.ends[i].immediate.taken[first]
            == crew.ends[j].immediate.taken[second] ==> i == j && first == second,
{
    lemma_crew_accounts(crew, pool, i);
    lemma_crew_accounts(crew, pool, j);
    lemma_message_has_one_receiver(crew.ends[i].overflow, first, crew.ends[j].overflow, second);
    lemma_message_has_one_receiver(crew.ends[i].immediate, first, crew.ends[j].immediate, second);
}

proof fn lemma_message_has_one_receiver(
    one: ReceiverView,
    first: int,
    other: ReceiverView,
    second: int,
)
    requires
        all_done(one),
        all_done(other),
        one.channel == other.channel,
    ensures
        0 <= first < one.taken.len() && 0 <= second < other.taken.len() && one.taken[first]
            == other.taken[second] ==> one.id == other.id && (one == other ==> first == second),
{
    if 0 <= first < one.taken.len() && 0 <= second < other.taken.len() {
        assert(channel::taker(one.channel, one.taken[first]) == Some(one.id));
        assert(channel::taker(other.channel, other.taken[second]) == Some(other.id));
    }
}

proof fn lemma_change_has_occurred(roster: int, changes: nat, change: Change)
    requires
        occurrences(roster, changes, change) > 0,
    ensures
        exists|position: nat| position < changes && #[trigger] change_at(roster, position) == change,
    decreases changes,
{
    let before = (changes - 1) as nat;
    if change_at(roster, before) != change {
        lemma_change_has_occurred(roster, before, change);
    }
}

proof fn lemma_worker_left_a_closed_pool(
    pool: ThreadPool,
    crew: Crew,
    now: Seq<WorkerView>,
    position: nat,
)
    requires
        crew.works_for(pool),
        crew.leaves(now),
        change_at(pool.shared().roster, position) == Change::Leave,
        is_held(change_logs(now), position),
    ensures
        crew.has_drained(),
        channel::ends(pool.overflow()),
{
    let logs = change_logs(now);
    let i = choose|i: int| 0 <= i < logs.len() && #[trigger] logs[i].contains(position);
    lemma_crew_accounts(crew, pool, i);
    let start = crew.starts[i];
    let end = crew.ends[i];
    assert(now[i] == end || (end.phase == Phase::Finished && end.leaves(now[i])));
    if start.changes.len() > 0 {
        let joined = choose|joined: nat| #[trigger]
            extends(Seq::empty(), start.changes, joined) && pool.shared().sees_at(
                joined,
                Change::Enlist,
            );
        assert(start.changes =~= seq![joined]);
    }
    assert(!start.changes.contains(position));
    if !end.enlisted {
        let retired = choose|retired: nat| #[trigger]
            extends(start.changes, end.changes, retired) && end.shared.sees_at(
                retired,
                Change::Retire,
            );
        assert(end.changes == start.changes.push(retired));
        lemma_pushed_or_before(start.changes, retired, position);
    }
    assert(end.enlisted && end.phase == Phase::Finished);
}

proof fn lemma_pushed_or_before(log: Seq<nat>, last: nat, position: nat)
    ensures
        log.push(last).contains(position) ==> log.contains(position) || position == last,
{
    if log.push(last).contains(position) {
        let k = log.push(last).index_of(position);
        if k < log.len() {
            assert(log[k] == position);
        }
    }
}

/// When joining a pool returns `true`, every task that was submitted has been executed. A task that
/// is still queued when no thread is left comes first in a thread that joining starts. A pool that
/// may have no threads at all executes no task that is queued.
pub proof fn lemma_joined_pool_has_executed_every_task(
    pool: ThreadPool,
    thunk: Thunk,
    submitted: Submitted,
    crew: Crew,
    trace: Seq<ClosingView>,
    remaining: Seq<Remaining>,
    actions: Seq<JoinAction>,
)
    requires
        is_joining(trace, remaining, actions),
        trace[0].begins(),
        trace[0].staff == pool.staff(),
        actions.len() > 0,
        actions.last() == JoinAction::Return(true),
        crew.works_for(pool),
        forall|i: int|
            0 <= i < actions.len() ==> (#[trigger] actions[i] matches JoinAction::Start(thread)
                ==> crew.starts.contains(thread.worker@)),
        forall|position: nat| #[trigger]
            channel::taker(pool.immediate(), position) is Some ==> is_held(
                immediate_logs(crew.ends),
                position,
            ),
        forall|position: nat| #[trigger]
            channel::taker(pool.overflow(), position) is Some ==> is_held(
                overflow_logs(crew.ends),
                position,
            ) || trace.last().leftover.taken.contains(position),
        pool.places(thunk, submitted),
        submitted matches Submitted::Spawned(thread) ==> crew.starts.contains(thread.worker@),
        submitted is Queued ==> pool.shared().size().max > 0,
    ensures
        thunk.done(),
{
    lemma_joining_starts_a_thread_for_each_task_left(trace, remaining, actions);
    let last = actions.len() - 1;
    assert(trace[last].steps(trace[last + 1], remaining[last], actions[last]));
    if pool.shared().size().max > 0 {
        let swept = trace.last().leftover.taken;
        assert forall|k: int| 0 <= k < swept.len() implies crew.begins_with(
            channel::message(pool.overflow(), #[trigger] swept[k]),
        ) by {
            let left = channel::message(pool.overflow(), swept[k]);
            assert(starts_thread_for(actions, left));
            let i = choose|i: int|
                0 <= i < actions.len() && (#[trigger] actions[i] matches JoinAction::Start(thread)
                    && thread.worker@.initial_thunk == Some(left));
            let worker = actions[i]->Start_0.worker@;
            assert(crew.starts.contains(worker));
            let j = crew.starts.index_of(worker);
            assert(crew.starts[j].initial_thunk == Some(left));
        }
        lemma_every_submitted_task_is_executed(pool, thunk, submitted, crew, swept);
    } else {
        lemma_delivered_or_spawned_task_is_executed(pool, thunk, submitted, crew);
    }
}

proof fn lemma_delivered_or_spawned_task_is_executed(
    pool: ThreadPool,
    thunk: Thunk,
    submitted: Submitted,
    crew: Crew,
)
    requires
        crew.works_for(pool),
        forall|position: nat| #[trigger]
            channel::taker(pool.immediate(), position) is Some ==> is_held(
                immediate_logs(crew.ends),
                position,
            ),
        pool.places(thunk, submitted),
        submitted matches Submitted::Spawned(thread) ==> crew.starts.contains(thread.worker@),
        !(submitted is Queued),
    ensures
        thunk.done(),
{
    if submitted is Delivered {
        let position = choose|position: nat| #[trigger]
            channel::takes_in(pool.immediate(), position) && channel::message(
                pool.immediate(),
                position,
            ) == thunk && channel::taker(pool.immediate(), position) is Some;
        let logs = immediate_logs(crew.ends);
        assert(is_held(logs, position));
        let i = choose|i: int| 0 <= i < logs.len() && #[trigger] logs[i].contains(position);
        lemma_crew_accounts(crew, pool, i);
        lemma_received_task_is_done(crew.ends[i].immediate, position);
    } else if let Submitted::Spawned(thread) = submitted {
        let i = crew.starts.index_of(thread.worker@);
        assert(crew.starts[i] == thread.worker@);
        lemma_crew_accounts(crew, pool, i);
    }
}

/// As long as the pool is open, it has its core threads, and a pool with a fixed number of threads
/// has exactly that many: less are found only if its queue has no sender any more.
pub proof fn lemma_core_threads_stay_while_the_pool_is_open(
    pool: ThreadPool,
    crew: Crew,
    now: Seq<WorkerView>,
    changes: nat,
    threads: usize,
)
    requires
        pool.shared().opens(),
        crew.works_for(pool),
        crew.leaves(now),
        knows_leavers(pool, now, changes),
        pool.shared().finds_threads_at(changes, threads),
    ensures
        threads <= pool.shared().size().max,
        threads < pool.shared().size().min ==> channel::ends(pool.overflow()),
{
    lemma_threads_never_exceed_the_maximum(pool.shared(), changes, threads);
    if threads < pool.shared().size().min {
        let roster = pool.shared().roster;
        if occurrences(roster, changes, Change::Leave) == 0 {
            lemma_threads_are_never_less_than_the_core(pool.shared(), changes, threads);
        }
        lemma_change_has_occurred(roster, changes, Change::Leave);
        let position = choose|position: nat|
            position < changes && #[trigger] change_at(roster, position) == Change::Leave;
        lemma_worker_left_a_closed_pool(pool, crew, now, position);
    }
}

/// A worker that is the only one of its pool, and that has stopped because the pool was shut down,
/// has executed exactly the tasks that ever went into the queue, each once and in the order in which
/// they went in.
pub proof fn lemma_only_worker_executes_the_whole_queue(trace: Seq<WorkerView>, position: nat)
    requires
        is_run(trace),
        trace[0].fresh(),
        trace.last().phase == Phase::Finished,
        trace.last().enlisted,
        forall|position: nat| #[trigger]
            channel::taker(trace[0].overflow.channel, position) is Some
                ==> trace.last().overflow.taken.contains(position),
    ensures
        trace.last().overflow.taken.contains(position) <==> channel::takes_in(
            trace[0].overflow.channel,
            position,
        ),
        ascending(trace.last().overflow.taken),
        channel::takes_in(trace[0].overflow.channel, position) ==> channel::message(
            trace[0].overflow.channel,
            position,
        ).done(),
        trace.last().record.completed.len() == trace.last().tasks(trace[0].initial_thunk),
        trace.last().record.running.len() == 2 * trace.last().tasks(trace[0].initial_thunk),
{
    lemma_worker_executes_every_task_that_it_takes(trace);
    let inlet = trace.last().overflow;
    if channel::takes_in(inlet.channel, position) {
        assert(channel::taker(inlet.channel, position) is Some);
    }
    if inlet.taken.contains(position) {
        lemma_received_task_is_done(inlet, position);
        let i = inlet.taken.index_of(position);
        assert(inlet.taken[i] == position);
    }
}

/// Whether a worker that was started with `first` has executed what it took, but for one task if it
/// is busy: a worker that [rests](WorkerView::accounts) is not, and one that has counted a task as
/// running and not yet as stopped is.
pub open spec fn is_balanced(worker: WorkerView, first: Option<Thunk>) -> bool {
    &&& worker.initial_thunk is None
    &&& worker.record.completed.len() + worker.record.running.len() % 2 == worker.tasks(first)
    &&& worker.shared.starts_and_stops(worker.record.running)
    &&& worker.shared.completes(worker.record.completed)
}

/// A worker that rests is balanced and not busy.
pub proof fn lemma_resting_worker_is_balanced(worker: WorkerView, start: WorkerView)
    requires
        worker.initial_thunk is None,
        worker.accounts(start),
    ensures
        is_balanced(worker, start.initial_thunk),
        worker.record.running.len() % 2 == 0,
{
}

proof fn lemma_tasks_add_up(
    firsts: Seq<Option<Thunk>>,
    workers: Seq<WorkerView>,
    steps: nat,
)
    requires
        firsts.len() == workers.len(),
        forall|i: int| 0 <= i < workers.len() ==> is_balanced(#[trigger] workers[i], firsts[i]),
        forall|i: int, j: int|
            0 <= i < workers.len() && 0 <= j < workers[i].record.running.len()
                ==> #[trigger] workers[i].record.running[j] < steps,
    ensures
        entries(completed_logs(workers)) + odd_below(running_logs(workers), steps) == entries(
            immediate_logs(workers),
        ) + entries(overflow_logs(workers)) + first_tasks(firsts),
    decreases workers.len(),
{
    if workers.len() > 0 {
        let before = workers.drop_last();
        let firsts_before = firsts.drop_last();
        let worker = workers.last();
        let last = workers.len() - 1;
        assert forall|i: int| 0 <= i < before.len() implies is_balanced(
            #[trigger] before[i],
            firsts_before[i],
        ) by {
            assert(before[i] == workers[i]);
        }
        assert forall|i: int, j: int| 0 <= i < before.len() && 0 <= j
            < before[i].record.running.len() implies #[trigger] before[i].record.running[j]
            < steps by {
            assert(before[i] == workers[i]);
        }
        lemma_tasks_add_up(firsts_before, before, steps);
        assert(completed_logs(workers).drop_last() =~= completed_logs(before));
        assert(running_logs(workers).drop_last() =~= running_logs(before));
        assert(immediate_logs(workers).drop_last() =~= immediate_logs(before));
        assert(overflow_logs(workers).drop_last() =~= overflow_logs(before));
        assert(is_balanced(workers[last], firsts[last]));
        assert forall|j: int| 0 <= j < worker.record.running.len() implies
            #[trigger] worker.record.running[j] < steps by {
            assert(workers[last].record.running[j] < steps);
        }
        lemma_all_are_below(worker.record.running, steps);
    }
}

/// Where the submitted tasks that were handed to workers went into the channel.
pub open spec fn delivered_positions(fates: Seq<Submitted>, positions: Seq<nat>) -> Seq<Seq<nat>> {
    Seq::new(
        fates.len(),
        |i: int|
            if fates[i] is Delivered {
                seq![positions[i]]
            } else {
                Seq::empty()
            },
    )
}

/// Where the submitted tasks that were queued went into the queue.
pub open spec fn queued_positions(fates: Seq<Submitted>, positions: Seq<nat>) -> Seq<Seq<nat>> {
    Seq::new(
        fates.len(),
        |i: int|
            if fates[i] is Queued {
                seq![positions[i]]
            } else {
                Seq::empty()
            },
    )
}

/// How many threads were added for submitted tasks.
pub open spec fn spawned_threads(fates: Seq<Submitted>) -> nat
    decreases fates.len(),
{
    if fates.len() == 0 {
        0
    } else {
        spawned_threads(fates.drop_last()) + if fates.last() is Spawned {
            1nat
        } else {
            0nat
        }
    }
}

proof fn lemma_fates_add_up(fates: Seq<Submitted>, positions: Seq<nat>)
    requires
        fates.len() == positions.len(),
    ensures
        entries(delivered_positions(fates, positions)) + entries(queued_positions(fates, positions))
            + spawned_threads(fates) == fates.len(),
    decreases fates.len(),
{
    if fates.len() > 0 {
        let before = fates.drop_last();
        let positions_before = positions.drop_last();
        lemma_fates_add_up(before, positions_before);
        assert(delivered_positions(fates, positions).drop_last() =~= delivered_positions(
            before,
            positions_before,
        ));
        assert(queued_positions(fates, positions).drop_last() =~= queued_positions(
            before,
            positions_before,
        ));
    }
}

/// No task is lost and none is counted twice: the tasks that looks find queued, running and completed
/// are together as many as have been accepted, if the looks are at a time when no worker is between
/// taking a task and counting it. The accepted tasks were handed to workers, went into the queue, or
/// came first in threads that were added, and each has its position in the one or the other channel.
pub proof fn lemma_no_task_is_lost(
    pool: ThreadPool,
    fates: Seq<Submitted>,
    positions: Seq<nat>,
    firsts: Seq<Option<Thunk>>,
    workers: Seq<WorkerView>,
    delivered: nat,
    taken: nat,
    queued: nat,
    running_steps: nat,
    running: usize,
    completed_steps: nat,
    completed: u64,
)
    requires
        pool.shared().opens(),
        fates.len() == positions.len(),
        firsts.len() == workers.len() <= usize::MAX,
        forall|i: int|
            0 <= i < workers.len() ==> (#[trigger] workers[i]).shared == pool.shared()
                && is_balanced(workers[i], firsts[i]),
        spawned_threads(fates) == first_tasks(firsts),
        covers(delivered_positions(fates, positions), delivered),
        covers(immediate_logs(workers), delivered),
        channel::messages_read(pool.overflow(), queued, taken),
        channel::holds_messages(pool.overflow(), queued, taken),
        covers(queued_positions(fates, positions), taken + queued),
        covers(overflow_logs(workers), taken),
        pool.shared().finds_running_at(running_steps, running),
        covers(running_logs(workers), running_steps),
        pool.shared().finds_completed_at(completed_steps, completed),
        covers(completed_logs(workers), completed_steps),
        completed_steps <= u64::MAX,
    ensures
        queued + running + completed == fates.len(),
{
    let shared = pool.shared();
    lemma_entries_add_up(delivered_positions(fates, positions), delivered);
    lemma_entries_add_up(queued_positions(fates, positions), taken + queued);
    lemma_fates_add_up(fates, positions);
    lemma_entries_add_up(immediate_logs(workers), delivered);
    lemma_entries_add_up(overflow_logs(workers), taken);
    lemma_entries_add_up(completed_logs(workers), completed_steps);
    assert forall|i: int| 0 <= i < workers.len() implies shared.starts_and_stops(
        #[trigger] running_logs(workers)[i],
    ) by {
        assert(is_balanced(workers[i], firsts[i]));
    }
    assert forall|i: int| 0 <= i < workers.len() implies shared.completes(
        #[trigger] completed_logs(workers)[i],
    ) by {
        assert(is_balanced(workers[i], firsts[i]));
    }
    lemma_running_tasks_have_started_and_not_stopped(
        shared,
        running_logs(workers),
        running_steps,
        running,
    );
    lemma_completed_tasks_are_counted_once(
        shared,
        completed_logs(workers),
        completed_steps,
        completed,
    );
    assert forall|i: int, j: int| 0 <= i < workers.len() && 0 <= j
        < workers[i].record.running.len() implies #[trigger] workers[i].record.running[j]
        < running_steps by {
        assert(running_logs(workers)[i][j] < running_steps);
    }
    lemma_tasks_add_up(firsts, workers, running_steps);
}

proof fn lemma_goings_are_in_the_logs(roster: int, logs: Seq<Seq<nat>>, changes: nat)
    requires
        forall|i: int| 0 <= i < logs.len() ==> ascending(#[trigger] logs[i]),
        forall|i: int, j: int, position: nat|
            0 <= i < logs.len() && 0 <= j < logs.len() && #[trigger] logs[i].contains(position)
                && #[trigger] logs[j].contains(position) ==> i == j,
        forall|position: nat|
            position < changes && #[trigger] change_at(roster, position) != Change::Enlist
                ==> is_held(logs, position),
    ensures
        all_below(logs, changes) >= occurrences(roster, changes, Change::Retire) + occurrences(
            roster,
            changes,
            Change::Leave,
        ),
    decreases changes,
{
    lemma_none_below_zero(logs);
    if changes > 0 {
        let position = (changes - 1) as nat;
        lemma_goings_are_in_the_logs(roster, logs, position);
        if is_held(logs, position) {
            let holder = choose|i: int|
                0 <= i < logs.len() && #[trigger] logs[i].contains(position);
            let index = logs[holder].index_of(position);
            assert forall|i: int| 0 <= i < logs.len() && i != holder implies !(
            #[trigger] logs[i]).contains(logs[holder][index]) by {}
            lemma_one_moves(logs, holder, index);
        } else {
            assert forall|i: int| 0 <= i < logs.len() implies !(#[trigger] logs[i]).contains(
                position,
            ) by {}
            lemma_all_stay(logs, position);
        }
    }
}

/// When joining finds no thread left, every worker has gone. The workers are the core threads and
/// those that were added, and for each of them there is a log of the change by which it has [gone,
/// which it does once](crate::worker::lemma_worker_goes_once).
pub proof fn lemma_every_worker_has_gone_when_no_thread_is_left(
    shared: SharedView,
    logs: Seq<Seq<nat>>,
    changes: nat,
)
    requires
        shared.opens(),
        shared.finds_threads_at(changes, 0),
        logs.len() == shared.size().min + occurrences(shared.roster, changes, Change::Enlist),
        forall|i: int| 0 <= i < logs.len() ==> (#[trigger] logs[i]).len() <= 1,
        forall|i: int, j: int, position: nat|
            0 <= i < logs.len() && 0 <= j < logs.len() && #[trigger] logs[i].contains(position)
                && #[trigger] logs[j].contains(position) ==> i == j,
        forall|position: nat|
            position < changes && #[trigger] change_at(shared.roster, position) != Change::Enlist
                ==> is_held(logs, position),
    ensures
        forall|i: int|
            0 <= i < logs.len() ==> (#[trigger] logs[i]).len() == 1 && logs[i][0] < changes,
{
    assert forall|i: int| 0 <= i < logs.len() implies ascending(#[trigger] logs[i]) by {}
    lemma_goings_are_in_the_logs(shared.roster, logs, changes);
    lemma_threads_that_came_are_here_or_gone(shared.roster, changes);
    lemma_every_log_has_one(logs, changes);
}

/// The change by which each worker has gone, if it has.
pub open spec fn going_logs(workers: Seq<WorkerView>) -> Seq<Seq<nat>> {
    Seq::new(
        workers.len(),
        |i: int|
            if workers[i].enlisted {
                Seq::empty()
            } else {
                seq![workers[i].changes.last()]
            },
    )
}

proof fn lemma_busy_workers_have_not_gone(workers: Seq<WorkerView>, steps: nat)
    requires
        forall|i: int|
            0 <= i < workers.len() ==> ((#[trigger] workers[i]).record.running.len() % 2 == 1
                ==> workers[i].enlisted),
        forall|i: int, j: int|
            0 <= i < workers.len() && 0 <= j < workers[i].record.running.len()
                ==> #[trigger] workers[i].record.running[j] < steps,
    ensures
        odd_below(running_logs(workers), steps) + entries(going_logs(workers)) <= workers.len(),
    decreases workers.len(),
{
    if workers.len() > 0 {
        let before = workers.drop_last();
        let worker = workers.last();
        let last = workers.len() - 1;
        assert forall|i: int|
            0 <= i < before.len() && (#[trigger] before[i]).record.running.len() % 2
                == 1 implies before[i].enlisted by {
            assert(before[i] == workers[i]);
        }
        assert forall|i: int, j: int| 0 <= i < before.len() && 0 <= j
            < before[i].record.running.len() implies #[trigger] before[i].record.running[j]
            < steps by {
            assert(before[i] == workers[i]);
        }
        lemma_busy_workers_have_not_gone(before, steps);
        assert(running_logs(workers).drop_last() =~= running_logs(before));
        assert(going_logs(workers).drop_last() =~= going_logs(before));
        assert(workers[last].record.running.len() % 2 == 1 ==> workers[last].enlisted);
        assert forall|j: int| 0 <= j < worker.record.running.len() implies
            #[trigger] worker.record.running[j] < steps by {
            assert(workers[last].record.running[j] < steps);
        }
        lemma_all_are_below(worker.record.running, steps);
    }
}

/// No more tasks are running than the pool has threads, if the looks at both are at a time when the
/// workers are these. They are the core threads and those that were added, a worker that is busy has
/// [not gone](crate::worker::lemma_busy_worker_has_counted_its_task), and whoever has gone is one of
/// them.
pub proof fn lemma_no_more_tasks_run_than_there_are_threads(
    pool: ThreadPool,
    workers: Seq<WorkerView>,
    running_steps: nat,
    running: usize,
    changes: nat,
    threads: usize,
)
    requires
        pool.shared().opens(),
        workers.len() == pool.shared().size().min + occurrences(
            pool.shared().roster,
            changes,
            Change::Enlist,
        ),
        workers.len() <= usize::MAX,
        forall|i: int|
            0 <= i < workers.len() ==> {
                &&& pool.shared().starts_and_stops((#[trigger] workers[i]).record.running)
                &&& workers[i].record.running.len() % 2 == 1 ==> workers[i].enlisted
            },
        covers(running_logs(workers), running_steps),
        pool.shared().finds_running_at(running_steps, running),
        forall|i: int, j: int, position: nat|
            0 <= i < workers.len() && 0 <= j < workers.len() && #[trigger] going_logs(
                workers,
            )[i].contains(position) && #[trigger] going_logs(workers)[j].contains(position) ==> i
                == j,
        forall|position: nat|
            position < changes && #[trigger] change_at(pool.shared().roster, position)
                != Change::Enlist ==> is_held(going_logs(workers), position),
        pool.shared().finds_threads_at(changes, threads),
    ensures
        running <= threads,
{
    let shared = pool.shared();
    assert forall|i: int| 0 <= i < workers.len() implies shared.starts_and_stops(
        #[trigger] running_logs(workers)[i],
    ) by {
        assert(shared.starts_and_stops(workers[i].record.running));
    }
    lemma_running_tasks_have_started_and_not_stopped(
        shared,
        running_logs(workers),
        running_steps,
        running,
    );
    assert forall|i: int, j: int| 0 <= i < workers.len() && 0 <= j
        < workers[i].record.running.len() implies #[trigger] workers[i].record.running[j]
        < running_steps by {
        assert(running_logs(workers)[i][j] < running_steps);
    }
    lemma_busy_workers_have_not_gone(workers, running_steps);
    let logs = going_logs(workers);
    assert forall|i: int| 0 <= i < logs.len() implies ascending(#[trigger] logs[i]) by {}
    lemma_goings_are_in_the_logs(shared.roster, logs, changes);
    lemma_no_more_are_below_than_there_are(logs, changes);
    lemma_threads_that_came_are_here_or_gone(shared.roster, changes);
}

/// Every task that a worker of a pool finds is the one that it was started with, or went into one of
/// the two channels of the pool.
pub proof fn lemma_workers_execute_what_was_submitted(
    pool: ThreadPool,
    worker: WorkerView,
    after: WorkerView,
    thunk: Thunk,
)
    requires
        worker.immediate.channel == pool.immediate(),
        worker.overflow.channel == pool.overflow(),
        worker.advances(after, Some(thunk)),
    ensures
        worker.initial_thunk == Some(thunk) || channel::carries(pool.immediate(), thunk)
            || channel::carries(pool.overflow(), thunk),
{
    if worker.initial_thunk is None {
        let event = choose|event: Event| #[trigger]
            worker.steps(event, after) && Some(thunk) == reaction(
                worker.phase,
                event,
            ).1;
        assert(event == Event::Task(thunk));
    }
}

/// A worker of a pool with a fixed number of threads stops only when the pool shuts down: it goes on
/// listening until a channel of the pool has no sender any more.
pub proof fn lemma_fixed_pool_keeps_its_workers(
    worker: WorkerView,
    after: WorkerView,
    found: Option<Thunk>,
)
    requires
        worker.shared.opens(),
        worker.shared.size().min == worker.shared.size().max,
        worker.phase == Phase::Listening,
        worker.enlisted,
        worker.advances(after, found),
    ensures
        after.phase == Phase::Listening || worker.immediate.is_closed() || worker.overflow.is_closed(),
{
    if worker.initial_thunk is None {
        let event = choose|event: Event| #[trigger] worker.steps(event, after);
        if event is Retired {
            let changes = after.changes;
            let position = choose|position: nat| #[trigger]
                extends(worker.changes, changes, position) && worker.shared.sees_at(
                    position,
                    Change::Retire,
                );
            assert(worker.shared.sees_at(position, Change::Retire));
            lemma_fixed_pool_lets_no_worker_retire(worker.shared);
        }
    }
}

} // verus!
