use crate::channel::ReceiverView;
use crate::roster::Change;
use crate::staff::{ClosedStaff, Leftover, Leftovers, StaffView, WorkerThread};
use crate::thunk::Thunk;
use std::time::Duration;
use vstd::prelude::*;

verus! {

/// What to do about a pool that is shutting down.
pub enum JoinAction {
    /// Return. Holds whether the pool has shut down fully.
    Return(bool),
    /// Wait for a thread to stop, at most for the time that is given, and look again.
    Wait(Option<Duration>),
    /// Start this thread, which executes the tasks that are left, and look again.
    Start(WorkerThread),
}

/// The time that is left to wait: `None` if there is no deadline, `Some(None)` if it has passed.
pub type Remaining = Option<Option<Duration>>;

/// What to do after a look at the pool: it has shut down when no thread is left, and the wait is
/// over at the latest when the deadline has passed.
pub open spec fn join_decision(threads: usize, remaining: Remaining) -> JoinAction {
    if threads == 0 {
        JoinAction::Return(true)
    } else {
        match remaining {
            Some(None) => JoinAction::Return(false),
            Some(Some(time)) => JoinAction::Wait(Some(time)),
            None => JoinAction::Wait(None),
        }
    }
}

/// Decides what to do after a look at the pool.
pub fn decide_join(threads: usize, remaining: Remaining) -> (action: JoinAction)
    ensures
        action == join_decision(threads, remaining),
    opens_invariants none
{
    if threads > 0 {
        match remaining {
            Some(None) => JoinAction::Return(false),
            Some(Some(time)) => JoinAction::Wait(Some(time)),
            None => JoinAction::Wait(None),
        }
    } else {
        JoinAction::Return(true)
    }
}

/// What a pool that is shutting down is.
pub struct ClosingView {
    /// What its threads are.
    pub staff: StaffView,
    /// Where tasks are taken that no thread is left for.
    pub leftover: ReceiverView,
    /// A task that was taken and waits for a thread.
    pub waiting: Option<Thunk>,
}

impl ClosingView {
    /// Nothing has been taken yet.
    pub open spec fn begins(self) -> bool {
        &&& self.leftover.channel == self.staff.overflow
        &&& self.leftover.taken == Seq::<nat>::empty()
        &&& self.waiting is None
    }

    /// Whether the thunk is the next task that is left: the one that waits, or the next in the queue.
    pub open spec fn takes(self, after: ClosingView, thunk: Thunk) -> bool {
        match self.waiting {
            Some(waiting) => {
                &&& after == (ClosingView { waiting: None, ..self })
                &&& thunk == waiting
            },
            None => {
                &&& after == (ClosingView { leftover: after.leftover, ..self })
                &&& self.leftover.gets(after.leftover, thunk)
            },
        }
    }

    /// Whether this is done after a look that finds so many threads. While there are threads, they
    /// are waited for until the deadline. If none is left, but a task is, a thread is added for it.
    /// The pool has shut down when no thread is left and the queue is empty and closed. One that may
    /// have no threads at all leaves its queue as it is.
    pub open spec fn does(
        self,
        threads: usize,
        after: ClosingView,
        remaining: Remaining,
        action: JoinAction,
    ) -> bool {
        if threads > 0 || self.staff.shared.size().max == 0 {
            &&& after == self
            &&& action == join_decision(threads, remaining)
        } else {
            match action {
                JoinAction::Return(true) => {
                    &&& after == self
                    &&& self.waiting is None
                    &&& self.leftover.is_closed()
                },
                JoinAction::Start(thread) => {
                    &&& thread.worker@.initial_thunk matches Some(thunk)
                    &&& self.takes(after, thunk)
                    &&& self.staff.adds(thread, Some(thunk))
                },
                _ => {
                    // Somebody else was counted in the meantime.
                    &&& after.waiting matches Some(thunk)
                    &&& self.takes(ClosingView { waiting: None, ..after }, thunk)
                    &&& self.staff.shared.denies(Change::Enlist)
                    &&& action == join_decision(1, remaining)
                },
            }
        }
    }

    /// Whether this is done after a look at the pool.
    pub open spec fn steps(
        self,
        after: ClosingView,
        remaining: Remaining,
        action: JoinAction,
    ) -> bool {
        exists|threads: usize| #[trigger]
            self.staff.shared.finds_threads(threads) && self.does(
                threads,
                after,
                remaining,
                action,
            )
    }
}

/// A pool to which no task can be submitted any more.
pub struct Closing {
    staff: ClosedStaff,
    leftovers: Leftovers,
    waiting: Option<Leftover>,
}

impl View for Closing {
    type V = ClosingView;

    closed spec fn view(&self) -> ClosingView {
        ClosingView {
            staff: self.staff@,
            leftover: self.leftovers@,
            waiting: match self.waiting {
                Some(waiting) => Some(waiting@),
                None => None,
            },
        }
    }
}

impl Closing {
    pub(crate) fn new(staff: ClosedStaff, leftovers: Leftovers) -> (closing: Self)
        requires
            leftovers@.channel == staff@.overflow,
            leftovers@.taken == Seq::<nat>::empty(),
        ensures
            closing@.staff == staff@,
            closing@.begins(),
        opens_invariants none
    {
        Closing { staff, leftovers, waiting: None }
    }

    /// The next task that is left.
    fn next_leftover(&mut self) -> (leftover: Option<Leftover>)
        ensures
            match leftover {
                Some(leftover) => old(self)@.takes(final(self)@, leftover@),
                None => {
                    &&& final(self)@ == old(self)@
                    &&& old(self)@.waiting is None
                    &&& old(self)@.leftover.is_closed()
                },
            },
    {
        match self.waiting.take() {
            Some(leftover) => Some(leftover),
            None => self.leftovers.next(),
        }
    }

    /// Looks at the pool and decides what to do. A pool is joined by doing what this returns, and
    /// repeating it until it is to return.
    pub fn join_step(&mut self, remaining: Remaining) -> (action: JoinAction)
        ensures
            old(self)@.steps(final(self)@, remaining, action),
    {
        let threads: usize = self.staff.threads();
        assert(old(self)@.staff.shared.finds_threads(threads));
        if threads > 0 || !self.staff.may_have_threads() {
            return decide_join(threads, remaining);
        }
        match self.next_leftover() {
            None => JoinAction::Return(true),
            Some(leftover) => match self.staff.hire_for(leftover) {
                Ok(thread) => JoinAction::Start(thread),
                Err(back) => {
                    self.waiting = Some(back);
                    decide_join(1, remaining)
                },
            },
        }
    }
}

/// Whether joining goes through these states by one [`Closing::join_step`] after the other.
pub open spec fn is_joining(
    trace: Seq<ClosingView>,
    remaining: Seq<Remaining>,
    actions: Seq<JoinAction>,
) -> bool {
    &&& trace.len() == actions.len() + 1
    &&& remaining.len() == actions.len()
    &&& forall|i: int|
        0 <= i < actions.len() ==> trace[i].steps(trace[i + 1], remaining[i], #[trigger] actions[i])
}

/// Whether one of the threads that are started executes the thunk first.
pub open spec fn starts_thread_for(actions: Seq<JoinAction>, thunk: Thunk) -> bool {
    exists|i: int|
        0 <= i < actions.len() && (#[trigger] actions[i] matches JoinAction::Start(thread)
            && thread.worker@.initial_thunk == Some(thunk))
}

proof fn lemma_still_starts_thread(actions: Seq<JoinAction>, thunk: Thunk)
    requires
        actions.len() > 0,
        starts_thread_for(actions.drop_last(), thunk),
    ensures
        starts_thread_for(actions, thunk),
{
    let before = actions.drop_last();
    let i = choose|i: int|
        0 <= i < before.len() && (#[trigger] before[i] matches JoinAction::Start(thread)
            && thread.worker@.initial_thunk == Some(thunk));
    assert(actions[i] == before[i]);
}

/// For every task that joining takes out of the queue, it starts a thread that executes it first,
/// but for one that still waits.
pub proof fn lemma_joining_starts_a_thread_for_each_task_left(
    trace: Seq<ClosingView>,
    remaining: Seq<Remaining>,
    actions: Seq<JoinAction>,
)
    requires
        is_joining(trace, remaining, actions),
        trace[0].begins(),
    ensures
        trace.last().staff == trace[0].staff,
        trace.last().leftover.channel == trace[0].leftover.channel,
        forall|k: int|
            0 <= k < trace.last().leftover.taken.len() ==> {
                let thunk = crate::channel::message(
                    trace[0].leftover.channel,
                    #[trigger] trace.last().leftover.taken[k],
                );
                starts_thread_for(actions, thunk) || trace.last().waiting == Some(thunk)
            },
    decreases actions.len(),
{
    if actions.len() > 0 {
        let trace_before = trace.drop_last();
        let remaining_before = remaining.drop_last();
        let actions_before = actions.drop_last();
        assert forall|i: int| 0 <= i < actions_before.len() implies trace_before[i].steps(
            trace_before[i + 1],
            remaining_before[i],
            #[trigger] actions_before[i],
        ) by {
            assert(trace[i].steps(trace[i + 1], remaining[i], actions[i]));
        }
        lemma_joining_starts_a_thread_for_each_task_left(
            trace_before,
            remaining_before,
            actions_before,
        );
        let last = actions.len() - 1;
        let before = trace[last];
        let after = trace[last + 1];
        let action = actions[last];
        assert(before.steps(after, remaining[last], action));
        let threads = choose|threads: usize| #[trigger]
            before.staff.shared.finds_threads(threads) && before.does(
                threads,
                after,
                remaining[last],
                action,
            );
        let channel = trace[0].leftover.channel;
        assert forall|k: int| 0 <= k < after.leftover.taken.len() implies {
            let thunk = crate::channel::message(channel, #[trigger] after.leftover.taken[k]);
            starts_thread_for(actions, thunk) || after.waiting == Some(thunk)
        } by {
            let thunk = crate::channel::message(channel, after.leftover.taken[k]);
            if k < before.leftover.taken.len() {
                assert(before.leftover.taken[k] == after.leftover.taken[k]);
                if starts_thread_for(actions_before, thunk) {
                    lemma_still_starts_thread(actions, thunk);
                }
            }
            if action is Start {
                assert(actions[last] is Start);
            }
        }
    }
}

/// Joining returns `true` only if it finds no thread left, and then the queue is empty and closed,
/// unless the pool may have no threads at all. It returns `false` only if the deadline has passed.
pub proof fn lemma_join_returns_whether_the_pool_shut_down_in_time(
    before: ClosingView,
    after: ClosingView,
    remaining: Remaining,
    action: JoinAction,
)
    requires
        before.steps(after, remaining, action),
    ensures
        action == JoinAction::Return(true) ==> before.staff.shared.finds_threads(0) && (
        before.staff.shared.size().max > 0 ==> before.waiting is None
            && before.leftover.is_closed()),
        action == JoinAction::Return(false) ==> remaining == Some(None::<Duration>),
{
}

/// Without a deadline joining never returns `false`.
pub proof fn lemma_join_without_deadline_waits(
    before: ClosingView,
    after: ClosingView,
    action: JoinAction,
)
    requires
        before.steps(after, None, action),
    ensures
        action != JoinAction::Return(false),
{
}

/// A step of joining that waits does so for the time that is left until the deadline, and without a
/// limit only if there is no deadline. After the deadline none waits.
pub proof fn lemma_wait_ends_at_the_deadline(
    before: ClosingView,
    after: ClosingView,
    remaining: Remaining,
    time: Option<Duration>,
)
    requires
        before.steps(after, remaining, JoinAction::Wait(time)),
    ensures
        remaining == match time {
            Some(left) => Some(Some(left)),
            None => None::<Option<Duration>>,
        },
{
}

/// A decision to wait is for the time that is left, however many threads there are; it is made
/// exactly if there are threads and the deadline has not passed, and the pool has shut down exactly
/// if there is no thread.
pub proof fn lemma_decision(threads: usize, remaining: Remaining, action: JoinAction)
    requires
        call_ensures(decide_join, (threads, remaining), action),
    ensures
        action == JoinAction::Return(true) <==> threads == 0,
        action == JoinAction::Return(false) <==> threads > 0 && remaining == Some(None::<Duration>),
        action is Wait <==> threads > 0 && remaining != Some(None::<Duration>),
        !(action is Start),
        action matches JoinAction::Wait(time) ==> match remaining {
            Some(left) => time == left,
            None => time is None,
        },
{
}

/// As long as joining does not return `true` and starts no thread, it has found threads, or a task is
/// left for which none could be added.
pub proof fn lemma_joining_waits_only_for_threads(
    before: ClosingView,
    after: ClosingView,
    remaining: Remaining,
    action: JoinAction,
)
    requires
        before.steps(after, remaining, action),
        action is Wait || action == JoinAction::Return(false),
    ensures
        (exists|threads: usize| #[trigger]
            before.staff.shared.finds_threads(threads) && threads > 0) || (after.waiting is Some
            && before.staff.shared.denies(Change::Enlist)),
{
}

/// A thread that joining starts executes first the task that waits for a thread, or else the next one
/// in the queue, which is taken out of it. It is started only if no thread is found.
pub proof fn lemma_joining_starts_a_thread_for_the_next_task(
    before: ClosingView,
    after: ClosingView,
    remaining: Remaining,
    thread: WorkerThread,
)
    requires
        before.steps(after, remaining, JoinAction::Start(thread)),
    ensures
        before.staff.shared.finds_threads(0),
        after.waiting is None,
        thread.worker@.shared == before.staff.shared,
        thread.worker@.overflow.channel == before.staff.overflow,
        thread.worker@.enlisted,
        match before.waiting {
            Some(waiting) => thread.worker@.initial_thunk == Some(waiting) && after.leftover
                == before.leftover,
            None => after.leftover.taken.len() == before.leftover.taken.len() + 1
                && thread.worker@.initial_thunk == Some(
                crate::channel::message(before.leftover.channel, after.leftover.taken.last()),
            ),
        },
{
    if before.waiting is None {
        let thunk = thread.worker@.initial_thunk->0;
        let position = choose|position: nat| #[trigger]
            before.leftover.gets_at(after.leftover, position) && crate::channel::message(
                before.leftover.channel,
                position,
            ) == thunk;
        assert(after.leftover.taken.last() == position);
    }
}

/// A step of joining that finds threads takes nothing out of the queue, and neither does one of a pool
/// that may have no threads at all.
pub proof fn lemma_joining_leaves_the_queue_to_the_threads(
    before: ClosingView,
    after: ClosingView,
    remaining: Remaining,
    action: JoinAction,
)
    requires
        before.steps(after, remaining, action),
        !before.staff.shared.finds_threads(0) || before.staff.shared.size().max == 0,
    ensures
        after == before,
        !(action is Start),
{
}

} // verus!
