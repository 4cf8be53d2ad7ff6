use crate::channel;
use crate::channel::{ClosedInOrder, Inlet, ReceiverView};
use crate::ledger::using;
use crate::roster::Change;
use crate::shared::{Handle, Shared, SharedView};
use crate::thunk::tally::Record;
use crate::thunk::Thunk;
use crate::worker::Worker;
use crossbeam_channel::{Receiver, Sender};
use vstd::prelude::*;

verus! {

/// A thread that a pool needs: whoever holds it has to start a thread with this name and stack
/// size, to let it repeat [`Worker::run_step`] until that returns `false`, and to let the worker
/// [leave](Worker::leave) when the thread ends.
pub struct WorkerThread {
    pub name: Option<String>,
    pub stack_size: Option<usize>,
    pub worker: Worker,
}

/// The text of a name.
pub open spec fn text(name: Option<String>) -> Option<Seq<char>> {
    match name {
        Some(name) => Some(name@),
        None => None,
    }
}

fn clone_name(name: &Option<String>) -> (clone: Option<String>)
    ensures
        text(clone) == text(*name),
{
    match name {
        Some(name) => Some(name.clone()),
        None => None,
    }
}

/// What the threads of a pool are: their name and the size of their stacks, the channels on which
/// tasks are handed to workers that wait and in which they are queued, and the state that they share.
pub struct StaffView {
    pub thread_name: Option<Seq<char>>,
    pub stack_size: Option<usize>,
    pub immediate: int,
    pub overflow: int,
    pub shared: SharedView,
}

impl StaffView {
    /// Whether this is a thread of the pool that has not run yet and executes `initial_thunk`
    /// first.
    pub open spec fn spawns(self, thread: WorkerThread, initial_thunk: Option<Thunk>) -> bool {
        &&& text(thread.name) == self.thread_name
        &&& thread.stack_size == self.stack_size
        &&& thread.worker@.initial_thunk == initial_thunk
        &&& thread.worker@.immediate.channel == self.immediate
        &&& thread.worker@.overflow.channel == self.overflow
        &&& thread.worker@.shared == self.shared
        &&& thread.worker@.fresh()
    }

    /// Whether the thread is one that was added to the pool: the one change that it has made to the
    /// roster is that it was counted.
    pub open spec fn adds(self, thread: WorkerThread, initial_thunk: Option<Thunk>) -> bool {
        &&& self.spawns(thread, initial_thunk)
        &&& self.shared.logs_change(Seq::empty(), thread.worker@.changes, Change::Enlist)
    }
}

/// What it takes to add a thread to a pool.
pub(crate) struct Staff {
    thread_name: Option<String>,
    stack_size: Option<usize>,
    overflow_receiver: Receiver<Thunk>,
    immediate_receiver: Receiver<Thunk>,
    shared: Shared,
}

impl View for Staff {
    type V = StaffView;

    closed spec fn view(&self) -> StaffView {
        StaffView {
            thread_name: text(self.thread_name),
            stack_size: self.stack_size,
            immediate: channel::receiver_channel(self.immediate_receiver),
            overflow: channel::receiver_channel(self.overflow_receiver),
            shared: self.shared@,
        }
    }
}

impl Staff {
    pub(crate) fn new(
        thread_name: Option<String>,
        stack_size: Option<usize>,
        overflow_receiver: Receiver<Thunk>,
        immediate_receiver: Receiver<Thunk>,
        shared: Shared,
    ) -> (staff: Self)
        ensures
            staff@ == (StaffView {
                thread_name: text(thread_name),
                stack_size,
                immediate: channel::receiver_channel(immediate_receiver),
                overflow: channel::receiver_channel(overflow_receiver),
                shared: shared@,
            }),
    {
        Staff { thread_name, stack_size, overflow_receiver, immediate_receiver, shared }
    }

    /// The state that the threads share.
    fn shared(&self) -> (shared: &Shared)
        ensures
            shared@ == self@.shared,
        opens_invariants none
    {
        &self.shared
    }

    /// The number of threads in the pool.
    pub(crate) fn threads(&self) -> (threads: usize)
        ensures
            self@.shared.finds_threads(threads),
            threads <= self@.shared.size().max,
        opens_invariants none
    {
        self.shared().threads()
    }

    /// The number of tasks that are running.
    pub(crate) fn running_tasks(&self) -> (tasks: usize)
        ensures
            self@.shared.finds_running(tasks),
        opens_invariants none
    {
        self.shared().running_tasks()
    }

    /// The number of tasks that have been completed.
    pub(crate) fn completed_tasks(&self) -> (tasks: u64)
        ensures
            self@.shared.finds_completed(tasks),
        opens_invariants none
    {
        self.shared().completed_tasks()
    }

    /// An end of the channel on which tasks are handed to workers that wait.
    pub(crate) fn immediate_receiver(&self) -> (receiver: &Receiver<Thunk>)
        ensures
            channel::receiver_channel(*receiver) == self@.immediate,
        opens_invariants none
    {
        &self.immediate_receiver
    }

    /// An end of the channel in which tasks are queued.
    pub(crate) fn overflow_receiver(&self) -> (receiver: &Receiver<Thunk>)
        ensures
            channel::receiver_channel(*receiver) == self@.overflow,
        opens_invariants none
    {
        &self.overflow_receiver
    }

    /// Drops the sending ends of the channels, the one of the queue first. What is left takes no task in, and comes with an end
    /// of the queue.
    pub(crate) fn without_senders(
        self,
        overflow_sender: Sender<Thunk>,
        immediate_sender: Sender<Thunk>,
    ) -> (closed: (ClosedStaff, Leftovers))
        requires
            channel::sender_channel(overflow_sender) == self@.overflow,
            channel::sender_channel(immediate_sender) == self@.immediate,
            channel::sender_limit(immediate_sender) == Some(0nat),
        ensures
            closed.0@ == self@,
            closed.1@.channel == self@.overflow,
            closed.1@.taken == Seq::<nat>::empty(),
            channel::loses_sender(self@.overflow),
            channel::loses_sender(self@.immediate),
    {
        let Staff { thread_name, stack_size, overflow_receiver, immediate_receiver, shared } = self;
        let overflow_receiver = channel::close_queue((overflow_sender, overflow_receiver));
        let (immediate_receiver, closed) = channel::close_immediate(
            (immediate_sender, immediate_receiver),
            &overflow_receiver,
        );
        let leftovers = Leftovers { inlet: Inlet::of(&overflow_receiver) };
        let staff = Staff {
            thread_name,
            stack_size,
            overflow_receiver,
            immediate_receiver,
            shared,
        };
        (ClosedStaff { staff, _closed: closed }, leftovers)
    }

    /// Adds a thread for a task, if there are less than the maximum. Otherwise the task comes back.
    pub(crate) fn hire_for(&self, thunk: Thunk) -> (thread: Result<WorkerThread, Thunk>)
        ensures
            match thread {
                Ok(thread) => self@.adds(thread, Some(thunk)),
                Err(back) => back == thunk && self@.shared.denies(Change::Enlist),
            },
    {
        match self.shared().candidate(thunk).enlist() {
            Ok(recruit) => {
                let worker = recruit.into_worker(
                    Inlet::of(&self.immediate_receiver),
                    Inlet::of(&self.overflow_receiver),
                );
                Ok(self.thread_of(worker))
            },
            Err(thunk) => Err(thunk),
        }
    }

    /// Adds a thread, if there are less than the maximum. Otherwise the initial thunk comes back.
    pub(crate) fn spawn_thread(&self, initial_thunk: Option<Thunk>) -> (thread: Result<
        WorkerThread,
        Option<Thunk>,
    >)
        ensures
            match thread {
                Ok(thread) => self@.adds(thread, initial_thunk),
                Err(back) => back == initial_thunk && self@.shared.denies(Change::Enlist),
            },
    {
        match self.shared().recruit() {
            Some(handle) => Ok(self.counted_thread(initial_thunk, handle)),
            None => Err(initial_thunk),
        }
    }

    /// Describes a thread that is counted already.
    pub(crate) fn counted_thread(&self, initial_thunk: Option<Thunk>, handle: Handle) -> (thread:
        WorkerThread)
        requires
            handle.shared() == self@.shared,
            handle.enlisted(),
            handle.record() == Record::empty(),
        ensures
            self@.spawns(thread, initial_thunk),
            thread.worker@.changes == handle.changes(),
    {
        let worker = Worker::new(
            initial_thunk,
            Inlet::of(&self.immediate_receiver),
            Inlet::of(&self.overflow_receiver),
            handle,
        );
        self.thread_of(worker)
    }

    /// Describes the thread of a worker.
    fn thread_of(&self, worker: Worker) -> (thread: WorkerThread)
        ensures
            thread.worker == worker,
            text(thread.name) == self@.thread_name,
            thread.stack_size == self@.stack_size,
    {
        WorkerThread {
            name: clone_name(&self.thread_name),
            stack_size: self.stack_size,
            worker,
        }
    }
}

/// What it takes to add a thread to a pool that is shutting down. Nothing can be received from its
/// channels but by the workers that it adds.
pub(crate) struct ClosedStaff {
    staff: Staff,
    _closed: ClosedInOrder,
}

impl View for ClosedStaff {
    type V = StaffView;

    closed spec fn view(&self) -> StaffView {
        self.staff@
    }
}

impl ClosedStaff {
    /// The number of threads in the pool.
    pub(crate) fn threads(&self) -> (threads: usize)
        ensures
            self@.shared.finds_threads(threads),
        opens_invariants none
    {
        self.staff.shared().threads()
    }

    /// Says whether the pool may have threads at all.
    pub(crate) fn may_have_threads(&self) -> (may: bool)
        ensures
            may == (self@.shared.size().max > 0),
        opens_invariants none
    {
        self.staff.shared().may_have_threads()
    }

    /// Adds a thread for a task that is left, if there are less than the maximum. Otherwise the task
    /// comes back.
    pub(crate) fn hire_for(&self, leftover: Leftover) -> (thread: Result<WorkerThread, Leftover>)
        ensures
            match thread {
                Ok(thread) => self@.adds(thread, Some(leftover@)),
                Err(back) => back@ == leftover@ && self@.shared.denies(Change::Enlist),
            },
    {
        match self.staff.hire_for(leftover.thunk) {
            Ok(thread) => Ok(thread),
            Err(thunk) => Err(Leftover { thunk }),
        }
    }
}

/// A task that was left in the queue of a pool that is shutting down.
pub(crate) struct Leftover {
    thunk: Thunk,
}

impl View for Leftover {
    type V = Thunk;

    closed spec fn view(&self) -> Thunk {
        self.thunk
    }
}

/// Where tasks are taken that are left in the queue of a pool that is shutting down.
pub(crate) struct Leftovers {
    inlet: Inlet,
}

impl View for Leftovers {
    type V = ReceiverView;

    closed spec fn view(&self) -> ReceiverView {
        self.inlet@
    }
}

impl Leftovers {
    /// Takes the next task out of the queue. Returns `None` if there will be none.
    pub(crate) fn next(&mut self) -> (leftover: Option<Leftover>)
        ensures
            match leftover {
                Some(leftover) => old(self)@.gets(final(self)@, leftover@),
                None => final(self)@ == old(self)@ && old(self)@.is_closed(),
            },
        opens_invariants [using()]
    {
        match self.inlet.next() {
            Some(thunk) => Some(Leftover { thunk }),
            None => None,
        }
    }
}

} // verus!
