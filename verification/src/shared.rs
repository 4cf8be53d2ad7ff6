use crate::counter;
use crate::counter::cell::{CountHandle, TotalHandle};
use crate::counter::{count_at, count_move, total_at, total_move, Move};
use crate::laws::{
    group_pools_are_built, group_tasks_are_submitted, group_threads_are_added, law_hire_for,
};
use crate::ledger::{
    below, extends, is_held, lemma_next_position, lemma_none_below_zero, lemma_odd_logs, odd_below,
    shared_out, sharing, using,
};
use crate::channel::Inlet;
use crate::roster;
use crate::roster::cell::RosterHandle;
use crate::roster::{
    came_about, change_at, first_changes, lemma_core_threads_stay,
    lemma_roster_is_what_its_changes_made, lemma_threads_stay_within_the_maximum, occurrences,
    roster_at, Change, Roster, RosterView,
};
use crate::size::ThreadPoolSize;
use crate::thunk::tally::{Executed, Record, Started, Tally};
use crate::thunk::Thunk;
use crate::worker::{Phase, Worker, WorkerView};
use std::sync::Arc;
use vstd::prelude::*;

verus! {

/// The state that the threads of a pool share: which roster and counters they use, and for how many
/// seconds a worker waits for a task before it counts as idle.
pub struct SharedView {
    pub roster: int,
    pub running: int,
    pub completed: int,
    pub idle_timeout: u64,
}

impl SharedView {
    /// The size that the pool was given.
    pub open spec fn size(self) -> ThreadPoolSize {
        roster_at(self.roster, 0).size
    }

    /// Whether the pool starts with its core threads and with no task running or completed.
    pub open spec fn opens(self) -> bool {
        &&& self.size().ordered()
        &&& roster_at(self.roster, 0) == RosterView::staffed(self.size())
        &&& count_at(self.running, 0) == 0
        &&& total_at(self.completed, 0) == 0
    }

    /// Whether the pool has this many threads after the first so many changes of its roster.
    pub open spec fn has_threads_at(self, changes: nat, threads: usize) -> bool {
        &&& came_about(self.roster, changes)
        &&& roster_at(self.roster, changes).threads == threads
    }

    /// Whether a look at the roster after its first so many changes finds this many threads.
    pub open spec fn finds_threads_at(self, changes: nat, threads: usize) -> bool {
        &&& roster::roster_read(self.roster, roster_at(self.roster, changes), changes)
        &&& self.has_threads_at(changes, threads)
    }

    /// Whether a look at the roster finds this many threads.
    pub open spec fn finds_threads(self, threads: usize) -> bool {
        exists|changes: nat| #[trigger] self.finds_threads_at(changes, threads)
    }

    /// Whether the change of the roster at this position is this one.
    pub open spec fn sees_at(self, position: nat, change: Change) -> bool {
        &&& came_about(self.roster, position + 1)
        &&& change_at(self.roster, position) == change
    }

    /// Whether a change is made to the roster at some time.
    pub open spec fn sees(self, change: Change) -> bool {
        exists|position: nat| #[trigger] self.sees_at(position, change)
    }

    /// Whether a look at the roster after its first so many changes finds that it does not allow a
    /// change.
    pub open spec fn denies_at(self, changes: nat, change: Change) -> bool {
        &&& roster::roster_read(self.roster, roster_at(self.roster, changes), changes)
        &&& came_about(self.roster, changes)
        &&& roster_at(self.roster, changes).changed(change) is None
    }

    /// Whether a look at the roster finds that it does not allow a change.
    pub open spec fn denies(self, change: Change) -> bool {
        exists|changes: nat| #[trigger] self.denies_at(changes, change)
    }

    /// Whether one change is made by whoever keeps the log, and no other.
    pub open spec fn logs_change(self, before: Seq<nat>, after: Seq<nat>, change: Change) -> bool {
        exists|position: nat| #[trigger]
            extends(before, after, position) && self.sees_at(position, change)
    }

    /// Whether this many tasks are running after the first so many steps of the counter.
    pub open spec fn has_running_at(self, steps: nat, tasks: usize) -> bool {
        counter::holds_count(self.running, tasks, steps)
    }

    /// Whether a look at the counter after its first so many steps finds this many running tasks.
    pub open spec fn finds_running_at(self, steps: nat, tasks: usize) -> bool {
        &&& counter::count_read(self.running, tasks, steps)
        &&& self.has_running_at(steps, tasks)
    }

    /// Whether a look at the counter finds this many running tasks.
    pub open spec fn finds_running(self, tasks: usize) -> bool {
        exists|steps: nat| #[trigger] self.finds_running_at(steps, tasks)
    }

    /// Whether this many tasks have been completed after the first so many steps of the counter.
    pub open spec fn has_completed_at(self, steps: nat, tasks: u64) -> bool {
        counter::holds_total(self.completed, tasks, steps)
    }

    /// Whether a look at the counter after its first so many steps finds this many completed tasks.
    pub open spec fn finds_completed_at(self, steps: nat, tasks: u64) -> bool {
        &&& counter::total_read(self.completed, tasks, steps)
        &&& self.has_completed_at(steps, tasks)
    }

    /// Whether a look at the counter finds this many completed tasks.
    pub open spec fn finds_completed(self, tasks: u64) -> bool {
        exists|steps: nat| #[trigger] self.finds_completed_at(steps, tasks)
    }

    /// Whether the steps in a log count a task as running, and then no longer, in turn.
    pub open spec fn starts_and_stops(self, log: Seq<nat>) -> bool {
        forall|i: int|
            0 <= i < log.len() ==> count_move(self.running, #[trigger] log[i]) == if i % 2 == 0 {
                Move::Up(1)
            } else {
                Move::Down(1)
            }
    }

    /// Whether the steps in a log each count one task as completed.
    pub open spec fn completes(self, log: Seq<nat>) -> bool {
        forall|i: int| 0 <= i < log.len() ==> total_move(self.completed, #[trigger] log[i]) == 1
    }
}

/// The state that the owner of a thread pool shares with the worker threads, as the owner holds it.
pub struct Shared {
    roster: RosterHandle,
    running_tasks_count: CountHandle,
    completed_tasks_count: TotalHandle,
    idle_timeout: u64,
}

impl View for Shared {
    type V = SharedView;

    closed spec fn view(&self) -> SharedView {
        SharedView {
            roster: roster::roster_id(self.roster.cell()),
            running: counter::count_id(self.running_tasks_count.cell()),
            completed: counter::total_id(self.completed_tasks_count.cell()),
            idle_timeout: self.idle_timeout,
        }
    }
}

impl Shared {
    #[verifier::type_invariant]
    spec fn inv(self) -> bool {
        &&& self@.opens()
        &&& roster::changes_made(self.roster.cell()) == Seq::<nat>::empty()
        &&& counter::counts_made(self.running_tasks_count.cell()) == Seq::<nat>::empty()
        &&& counter::totals_made(self.completed_tasks_count.cell()) == Seq::<nat>::empty()
    }

    /// The state of a pool in which no task ran yet, and the handles of its core threads, which count
    /// as started.
    pub(crate) fn new(size: ThreadPoolSize, idle_timeout: u64) -> (opened: (Self, Vec<Handle>))
        requires
            size.ordered(),
        ensures
            opened.0@.opens(),
            opened.0@.size() == size,
            opened.0@.idle_timeout == idle_timeout,
            opened.1@.len() == size.min,
            forall|i: int|
                0 <= i < opened.1@.len() ==> {
                    &&& (#[trigger] opened.1@[i]).shared() == opened.0@
                    &&& opened.1@[i].is_new()
                    &&& opened.1@[i].enlisted()
                },
    {
        let shared = Shared {
            roster: RosterHandle::of(Arc::new(roster::cell::share_roster(Roster::new(size)))),
            running_tasks_count: CountHandle::of(Arc::new(counter::cell::new_count(0))),
            completed_tasks_count: TotalHandle::of(Arc::new(counter::cell::new_total(0))),
            idle_timeout,
        };
        let mut handles: Vec<Handle> = Vec::new();
        for _i in 0..size.min
            invariant
                handles@.len() == _i,
                forall|i: int|
                    0 <= i < handles@.len() ==> {
                        &&& (#[trigger] handles@[i]).shared() == shared@
                        &&& handles@[i].is_new()
                        &&& handles@[i].enlisted()
                    },
        {
            let handle = shared.handle();
            handles.push(Handle { enlisted: true, ..handle });
        }
        (shared, handles)
    }

    /// A handle for a thread that is not counted yet.
    fn handle(&self) -> (handle: Handle)
        ensures
            handle.shared() == self@,
            handle.is_new(),
            !handle.enlisted(),
        opens_invariants [sharing()]
    {
        proof {
            use_type_invariant(self);
        }
        Handle {
            roster: self.roster.share(),
            tally: Tally::new(
                self.running_tasks_count.share(),
                self.completed_tasks_count.share(),
            ),
            idle_timeout: self.idle_timeout,
            enlisted: false,
        }
    }

    /// A thread that is wanted for a task, and not counted yet.
    pub(crate) fn candidate(&self, thunk: Thunk) -> (candidate: Candidate)
        ensures
            candidate.shared() == self@,
            candidate.thunk() == thunk,
        opens_invariants [sharing()]
    {
        Candidate { handle: self.handle(), thunk }
    }

    /// Counts one more thread, if there are less than the maximum, and gives out its handle.
    pub(crate) fn recruit(&self) -> (handle: Option<Handle>)
        ensures
            match handle {
                Some(handle) => {
                    &&& handle.shared() == self@
                    &&& handle.enlisted()
                    &&& handle.record() == Record::empty()
                    &&& self@.logs_change(Seq::empty(), handle.changes(), Change::Enlist)
                },
                None => self@.denies(Change::Enlist),
            },
    {
        broadcast use group_pools_are_built, group_tasks_are_submitted, law_hire_for;

        let mut handle = self.handle();
        if handle.enlist() {
            Some(handle)
        } else {
            None
        }
    }

    /// The number of threads in the pool.
    pub(crate) fn threads(&self) -> (threads: usize)
        ensures
            self@.finds_threads(threads),
            threads <= self@.size().max,
        opens_invariants none
    {
        proof {
            use_type_invariant(self);
        }
        broadcast use group_pools_are_built, group_tasks_are_submitted, group_threads_are_added;

        let roster = self.roster.load();
        let threads = roster.threads();
        proof {
            let changes = choose|changes: nat| #[trigger]
                roster::roster_read(self@.roster, roster@, changes) && roster::holds_roster(
                    self@.roster,
                    roster@,
                    changes,
                );
            assert(self@.finds_threads_at(changes, threads));
            lemma_threads_never_exceed_the_maximum(self@, changes, threads);
        }
        threads
    }

    /// Says whether the pool may have threads at all.
    pub(crate) fn may_have_threads(&self) -> (may: bool)
        ensures
            may == (self@.size().max > 0),
        opens_invariants none
    {
        proof {
            use_type_invariant(self);
        }
        broadcast use group_pools_are_built, group_tasks_are_submitted, group_threads_are_added;

        let roster = self.roster.load();
        proof {
            let changes = choose|changes: nat| #[trigger]
                roster::roster_read(self@.roster, roster@, changes) && roster::holds_roster(
                    self@.roster,
                    roster@,
                    changes,
                );
            lemma_threads_never_exceed_the_maximum(self@, changes, roster@.threads);
        }
        roster.max() > 0
    }

    /// The number of tasks that are running.
    pub(crate) fn running_tasks(&self) -> (tasks: usize)
        ensures
            self@.finds_running(tasks),
        opens_invariants none
    {
        broadcast use group_pools_are_built, group_tasks_are_submitted, group_threads_are_added;

        let tasks: usize = self.running_tasks_count.load();
        proof {
            let steps = choose|steps: nat| #[trigger]
                counter::count_read(self@.running, tasks, steps) && counter::holds_count(
                    self@.running,
                    tasks,
                    steps,
                );
            assert(self@.finds_running_at(steps, tasks));
        }
        tasks
    }

    /// The number of tasks that have been completed.
    pub(crate) fn completed_tasks(&self) -> (tasks: u64)
        ensures
            self@.finds_completed(tasks),
        opens_invariants none
    {
        broadcast use group_pools_are_built, group_tasks_are_submitted, group_threads_are_added;

        let tasks: u64 = self.completed_tasks_count.load();
        proof {
            let steps = choose|steps: nat| #[trigger]
                counter::total_read(self@.completed, tasks, steps) && counter::holds_total(
                    self@.completed,
                    tasks,
                    steps,
                );
            assert(self@.finds_completed_at(steps, tasks));
        }
        tasks
    }
}

/// A thread's own handle to the state of its pool. There is one for each thread, and only a handle
/// that is enlisted can go from the count again.
pub struct Handle {
    roster: RosterHandle,
    tally: Tally,
    idle_timeout: u64,
    enlisted: bool,
}

impl Handle {
    /// The state of the pool.
    pub closed spec fn shared(self) -> SharedView {
        SharedView {
            roster: roster::roster_id(self.roster.cell()),
            running: self.tally.running(),
            completed: self.tally.completed(),
            idle_timeout: self.idle_timeout,
        }
    }

    /// The positions of the changes of the roster that have been made through the handle.
    pub closed spec fn changes(self) -> Seq<nat> {
        roster::changes_made(self.roster.cell())
    }

    /// The tasks that have been counted through the handle.
    pub closed spec fn record(self) -> Record {
        self.tally.record()
    }

    /// Whether the thread is counted.
    pub closed spec fn enlisted(self) -> bool {
        self.enlisted
    }

    /// Whether nothing has been done through the handle.
    pub open spec fn is_new(self) -> bool {
        &&& self.changes() == Seq::<nat>::empty()
        &&& self.record() == Record::empty()
    }

    /// Says whether the thread is counted.
    pub(crate) fn is_enlisted(&self) -> (enlisted: bool)
        ensures
            enlisted == self.enlisted(),
        opens_invariants none
    {
        self.enlisted
    }

    /// Makes a change to the roster if the roster allows it, and says whether it did.
    fn change(&mut self, change: Change) -> (changed: bool)
        ensures
            final(self).shared() == old(self).shared(),
            final(self).record() == old(self).record(),
            final(self).enlisted() == old(self).enlisted(),
            if changed {
                old(self).shared().logs_change(old(self).changes(), final(self).changes(), change)
            } else {
                old(self).shared().denies(change) && final(self).changes() == old(self).changes()
            },
        opens_invariants [using()]
    {
        match roster::attempt(&mut self.roster, change) {
            Ok(_) => {
                proof {
                    let position = choose|position: nat| #[trigger]
                        roster::makes_change(
                            old(self).roster.cell(),
                            self.roster.cell(),
                            position,
                        )
                            && change_at(old(self).shared().roster, position) == change && came_about(
                            old(self).shared().roster,
                            position + 1,
                        );
                    assert(extends(old(self).changes(), self.changes(), position));
                }
                true
            },
            Err(_before) => {
                proof {
                    let changes = choose|changes: nat| #[trigger]
                        roster::roster_read(old(self).shared().roster, _before@, changes)
                            && roster::holds_roster(old(self).shared().roster, _before@, changes);
                    assert(old(self).shared().denies_at(changes, change));
                }
                false
            },
        }
    }

    /// Counts the thread, if there are less than the maximum, and says whether it did.
    fn enlist(&mut self) -> (enlisted: bool)
        requires
            !old(self).enlisted(),
        ensures
            final(self).shared() == old(self).shared(),
            final(self).record() == old(self).record(),
            final(self).enlisted() == enlisted,
            if enlisted {
                old(self).shared().logs_change(old(self).changes(), final(self).changes(), Change::Enlist)
            } else {
                old(self).shared().denies(Change::Enlist) && final(self).changes() == old(self).changes()
            },
        opens_invariants [using()]
    {
        self.enlisted = self.change(Change::Enlist);
        self.enlisted
    }

    /// Takes an idle thread off the count, if there are more than the core threads, and says whether
    /// it did.
    pub(crate) fn retire(&mut self) -> (retired: bool)
        requires
            old(self).enlisted(),
        ensures
            final(self).shared() == old(self).shared(),
            final(self).record() == old(self).record(),
            final(self).enlisted() == !retired,
            if retired {
                old(self).shared().logs_change(old(self).changes(), final(self).changes(), Change::Retire)
            } else {
                old(self).shared().denies(Change::Retire) && final(self).changes() == old(self).changes()
            },
        opens_invariants [using()]
    {
        broadcast use group_pools_are_built, group_tasks_are_submitted, group_threads_are_added;

        let retired: bool = self.change(Change::Retire);
        self.enlisted = !retired;
        retired
    }

    /// Takes a thread that has stopped off the count.
    pub(crate) fn leave(&mut self)
        requires
            old(self).enlisted(),
        ensures
            final(self).shared() == old(self).shared(),
            final(self).record() == old(self).record(),
            !final(self).enlisted(),
            old(self).shared().logs_change(old(self).changes(), final(self).changes(), Change::Leave),
        opens_invariants [using()]
    {
        broadcast use group_pools_are_built, group_tasks_are_submitted, group_threads_are_added;

        let _left: bool = self.change(Change::Leave);
        self.enlisted = false;
    }

    /// The number of seconds that a worker waits for a task.
    pub(crate) fn idle_seconds(&self) -> (seconds: u64)
        ensures
            seconds == self.shared().idle_timeout,
        opens_invariants none
    {
        self.idle_timeout
    }

    /// Counts a task as running.
    pub(crate) fn start_task(&mut self, thunk: Thunk) -> (started: Started)
        ensures
            started.thunk() == thunk,
            final(self).shared() == old(self).shared(),
            final(self).changes() == old(self).changes(),
            final(self).enlisted() == old(self).enlisted(),
            exists|position: nat| #[trigger]
                old(self).record().starts(final(self).record(), old(self).shared().running, position),
        opens_invariants [using()]
    {
        let started = self.tally.start(thunk);
        proof {
            let position = choose|position: nat| #[trigger]
                old(self).tally.record().starts(
                    self.tally.record(),
                    old(self).tally.running(),
                    position,
                );
            assert(old(self).record().starts(self.record(), old(self).shared().running, position));
        }
        started
    }

    /// Counts a task that has been executed as no longer running, and as completed.
    pub(crate) fn complete_task(&mut self, executed: Executed)
        ensures
            final(self).shared() == old(self).shared(),
            final(self).changes() == old(self).changes(),
            final(self).enlisted() == old(self).enlisted(),
            exists|stopped: nat, counted: nat| #[trigger]
                old(self).record().finishes(
                    final(self).record(),
                    old(self).shared().running,
                    old(self).shared().completed,
                    executed.thunk(),
                    stopped,
                    counted,
                ),
        opens_invariants [using()]
    {
        let ghost thunk = executed.thunk();
        self.tally.finish(executed);
        proof {
            let (stopped, counted) = choose|stopped: nat, counted: nat| #[trigger]
                old(self).tally.record().finishes(
                    self.tally.record(),
                    old(self).tally.running(),
                    old(self).tally.completed(),
                    thunk,
                    stopped,
                    counted,
                );
            assert(old(self).record().finishes(
                self.record(),
                old(self).shared().running,
                old(self).shared().completed,
                thunk,
                stopped,
                counted,
            ));
        }
    }
}

/// A thread that is wanted for a task, and not counted yet. It holds the task, so there is one for
/// each task at most.
pub(crate) struct Candidate {
    handle: Handle,
    thunk: Thunk,
}

impl Candidate {
    #[verifier::type_invariant]
    spec fn inv(self) -> bool {
        &&& self.handle.is_new()
        &&& !self.handle.enlisted()
    }

    /// The state of the pool.
    pub(crate) closed spec fn shared(self) -> SharedView {
        self.handle.shared()
    }

    /// The task.
    pub(crate) closed spec fn thunk(self) -> Thunk {
        self.thunk
    }

    /// Counts the thread, if there are less than the maximum. Otherwise the task comes back.
    pub(crate) fn enlist(self) -> (recruit: Result<Recruit, Thunk>)
        ensures
            match recruit {
                Ok(recruit) => {
                    &&& recruit.shared() == self.shared()
                    &&& recruit.thunk() == self.thunk()
                    &&& self.shared().logs_change(
                        Seq::empty(),
                        recruit.changes(),
                        Change::Enlist,
                    )
                },
                Err(back) => back == self.thunk() && self.shared().denies(Change::Enlist),
            },
        opens_invariants [using()]
    {
        proof {
            use_type_invariant(&self);
        }
        let Candidate { mut handle, thunk } = self;
        if handle.enlist() {
            Ok(Recruit { handle, thunk })
        } else {
            Err(thunk)
        }
    }
}

/// A thread that has been counted for a task, and holds it.
pub(crate) struct Recruit {
    handle: Handle,
    thunk: Thunk,
}

impl Recruit {
    #[verifier::type_invariant]
    spec fn inv(self) -> bool {
        &&& self.handle.record() == Record::empty()
        &&& self.handle.enlisted()
    }

    /// The state of the pool.
    pub(crate) closed spec fn shared(self) -> SharedView {
        self.handle.shared()
    }

    /// The positions of the changes of the roster that the thread has made.
    pub(crate) closed spec fn changes(self) -> Seq<nat> {
        self.handle.changes()
    }

    /// The task.
    pub(crate) closed spec fn thunk(self) -> Thunk {
        self.thunk
    }

    /// The worker that executes the task first.
    pub(crate) fn into_worker(self, immediate: Inlet, overflow: Inlet) -> (worker: Worker)
        ensures
            worker@ == (WorkerView {
                initial_thunk: Some(self.thunk()),
                immediate: immediate@,
                overflow: overflow@,
                shared: self.shared(),
                changes: self.changes(),
                record: Record::empty(),
                phase: Phase::Listening,
                enlisted: true,
            }),
        opens_invariants none
    {
        proof {
            use_type_invariant(&self);
        }
        let Recruit { handle, thunk } = self;
        Worker::new(Some(thunk), immediate, overflow, handle)
    }
}

/// A pool never has more threads than its maximum.
pub proof fn lemma_threads_never_exceed_the_maximum(
    shared: SharedView,
    changes: nat,
    threads: usize,
)
    requires
        shared.opens(),
        shared.has_threads_at(changes, threads),
    ensures
        threads <= shared.size().max,
        roster_at(shared.roster, changes).size == shared.size(),
{
    lemma_roster_is_what_its_changes_made(shared.roster, changes);
    lemma_threads_stay_within_the_maximum(
        roster_at(shared.roster, 0),
        first_changes(shared.roster, changes),
    );
}

/// As long as no thread has stopped, which threads do when the pool shuts down, a pool has at least
/// its core threads; one with a fixed number of threads has exactly that many.
pub proof fn lemma_threads_are_never_less_than_the_core(
    shared: SharedView,
    changes: nat,
    threads: usize,
)
    requires
        shared.opens(),
        shared.has_threads_at(changes, threads),
        occurrences(shared.roster, changes, Change::Leave) == 0,
    ensures
        shared.size().min <= threads <= shared.size().max,
        shared.size().min == shared.size().max ==> threads == shared.size().min,
{
    let all = first_changes(shared.roster, changes);
    assert forall|i: int| 0 <= i < all.len() implies #[trigger] all[i] != Change::Leave by {
        lemma_occurs(shared.roster, changes, i as nat);
    }
    lemma_roster_is_what_its_changes_made(shared.roster, changes);
    lemma_core_threads_stay(shared.size(), all);
}

proof fn lemma_occurs(roster: int, changes: nat, position: nat)
    requires
        position < changes,
    ensures
        occurrences(roster, changes, change_at(roster, position)) > 0,
    decreases changes,
{
    if position < changes - 1 {
        lemma_occurs(roster, (changes - 1) as nat, position);
    }
}

/// A pool with a fixed number of threads lets no worker retire.
pub proof fn lemma_fixed_pool_lets_no_worker_retire(shared: SharedView)
    requires
        shared.opens(),
        shared.size().min == shared.size().max,
    ensures
        !shared.sees(Change::Retire),
{
    assert forall|position: nat| !(#[trigger] shared.sees_at(position, Change::Retire)) by {
        if shared.sees_at(position, Change::Retire) {
            let threads = roster_at(shared.roster, position).threads;
            assert(shared.has_threads_at(position, threads));
            lemma_threads_never_exceed_the_maximum(shared, position, threads);
            assert(roster_at(shared.roster, position).changed(change_at(shared.roster, position))
                is Some);
        }
    }
}

/// A pool that may have no threads gets none.
pub proof fn lemma_empty_pool_gets_no_thread(shared: SharedView)
    requires
        shared.opens(),
        shared.size().max == 0,
    ensures
        !shared.sees(Change::Enlist),
{
    assert forall|position: nat| !(#[trigger] shared.sees_at(position, Change::Enlist)) by {
        if shared.sees_at(position, Change::Enlist) {
            let threads = roster_at(shared.roster, position).threads;
            assert(shared.has_threads_at(position, threads));
            lemma_threads_never_exceed_the_maximum(shared, position, threads);
            assert(roster_at(shared.roster, position).changed(change_at(shared.roster, position))
                is Some);
        }
    }
}

/// The number of running tasks is the number of handles through which a task has been counted as
/// running and not yet as stopped. So it is zero in a new pool, never larger than the number of
/// handles, and zero again when every task has stopped. Every step has to be in the log of one of the
/// handles, and only so many handles can be counted.
pub proof fn lemma_running_tasks_have_started_and_not_stopped(
    shared: SharedView,
    logs: Seq<Seq<nat>>,
    steps: nat,
    tasks: usize,
)
    requires
        shared.opens(),
        shared.has_running_at(steps, tasks),
        shared_out(logs, steps),
        forall|i: int| 0 <= i < logs.len() ==> shared.starts_and_stops(#[trigger] logs[i]),
        logs.len() <= usize::MAX,
    ensures
        tasks == odd_below(logs, steps),
        tasks <= logs.len(),
        (forall|i: int| 0 <= i < logs.len() ==> below(#[trigger] logs[i], steps) % 2 == 0) ==> tasks
            == 0,
    decreases steps,
{
    lemma_odd_logs(logs, steps);
    lemma_none_below_zero(logs);
    if steps > 0 {
        let position = (steps - 1) as nat;
        lemma_odd_logs(logs, position);
        lemma_running_tasks_have_started_and_not_stopped(
            shared,
            logs,
            position,
            count_at(shared.running, position),
        );
        assert(is_held(logs, position));
        let holder = choose|i: int| 0 <= i < logs.len() && #[trigger] logs[i].contains(position);
        let index = logs[holder].index_of(position);
        lemma_next_position(logs, position, holder, index);
        assert(shared.starts_and_stops(logs[holder]));
        assert(logs[holder][index] == position);
        assert(count_at(shared.running, steps) == counter::moved(
            count_at(shared.running, position),
            count_move(shared.running, position),
        ));
    }
}

/// The number of completed tasks is the number of steps that counted one.
pub proof fn lemma_completed_tasks_are_counted_once(
    shared: SharedView,
    logs: Seq<Seq<nat>>,
    steps: nat,
    tasks: u64,
)
    requires
        shared.opens(),
        shared.has_completed_at(steps, tasks),
        shared_out(logs, steps),
        forall|i: int| 0 <= i < logs.len() ==> shared.completes(#[trigger] logs[i]),
        steps <= u64::MAX,
    ensures
        tasks == steps,
    decreases steps,
{
    if steps > 0 {
        let position = (steps - 1) as nat;
        lemma_completed_tasks_are_counted_once(
            shared,
            logs,
            position,
            total_at(shared.completed, position),
        );
        assert(is_held(logs, position));
        let holder = choose|i: int| 0 <= i < logs.len() && #[trigger] logs[i].contains(position);
        let index = logs[holder].index_of(position);
        assert(shared.completes(logs[holder]));
        assert(logs[holder][index] == position);
        assert(total_move(shared.completed, position) == 1);
    }
}

} // verus!
