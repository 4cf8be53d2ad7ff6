use crate::builder::{reports_cpus, valid_name, BuilderView, ThreadPoolBuilder};
use crate::channel;
use crate::channel::Refused;
use crate::join::Closing;
use crate::laws::{
    group_pools_are_built, group_tasks_are_submitted, law_try_execute, law_try_execute_thunk,
};
use crate::roster::Change;
use crate::shared::{Handle, SharedView};
use crate::staff::{Staff, StaffView, WorkerThread};
use crate::thunk::tally::Record;
use crate::thunk::{create_task, task_of, Thunk};
use crossbeam_channel::Sender;
use vstd::prelude::*;

verus! {

/// What became of a task that was submitted.
pub enum Submitted {
    /// A worker that was waiting took it.
    Delivered,
    /// This thread is to be started, and executes it first.
    Spawned(WorkerThread),
    /// It is in the queue.
    Queued,
}

/// A thread pool.
///
/// Dropping the thread pool will prevent any further tasks from being scheduled on the pool and
/// detaches all threads in the pool: it drops the sending ends of the channels, the one of the queue
/// first, so a worker that finds a channel closed finds the queue closed. To wait until all pending
/// tasks have completed, [close](ThreadPool::close) the pool.
pub struct ThreadPool {
    overflow_sender: Sender<Thunk>,
    immediate_sender: Sender<Thunk>,
    staff: Staff,
}

impl ThreadPool {
    /// Create a new thread pool with the default configuration. The threads that come with it have
    /// to be started.
    pub fn new() -> (built: (ThreadPool, Vec<WorkerThread>))
        ensures
            exists|cpus: usize| #[trigger]
                BuilderView::empty().builds(cpus, built.0, built.1@) && cpus >= 1 && reports_cpus(
                    cpus,
                ),
    {
        Self::builder().build()
    }

    /// Create a new thread pool with a custom name for its threads, which must not contain null
    /// bytes (`\0`). The threads that come with it have to be started.
    pub fn with_name(name: String) -> (built: (ThreadPool, Vec<WorkerThread>))
        requires
            valid_name(name@),
        ensures
            exists|cpus: usize| #[trigger]
                BuilderView::named(name@).builds(cpus, built.0, built.1@) && cpus >= 1
                    && reports_cpus(cpus),
    {
        Self::builder().name(name).build()
    }

    /// Get a builder for creating a customized thread pool.
    pub fn builder() -> (builder: ThreadPoolBuilder)
        ensures
            builder@ == BuilderView::empty(),
    {
        ThreadPoolBuilder::default()
    }

    #[verifier::type_invariant]
    spec fn inv(self) -> bool {
        &&& channel::sender_channel(self.immediate_sender) == self.staff@.immediate
        &&& channel::sender_channel(self.overflow_sender) == self.staff@.overflow
        &&& channel::sender_limit(self.immediate_sender) == Some(0nat)
    }

    /// What the threads of the pool are.
    pub closed spec fn staff(self) -> StaffView {
        self.staff@
    }

    /// The channel on which tasks are handed to a worker that waits.
    pub open spec fn immediate(self) -> int {
        self.staff().immediate
    }

    /// How many tasks the immediate channel holds.
    pub closed spec fn immediate_limit(self) -> Option<nat> {
        channel::sender_limit(self.immediate_sender)
    }

    /// The channel in which tasks are queued.
    pub open spec fn overflow(self) -> int {
        self.staff().overflow
    }

    /// How many tasks can be queued.
    pub closed spec fn queue_limit(self) -> Option<nat> {
        channel::sender_limit(self.overflow_sender)
    }

    /// The state that the pool shares with its workers.
    pub open spec fn shared(self) -> SharedView {
        self.staff().shared
    }

    /// Whether no worker waits for the thunk and the roster has no room for another thread.
    pub open spec fn turns_down(self, thunk: Thunk) -> bool {
        &&& channel::refuses(self.immediate(), thunk)
        &&& self.shared().denies(Change::Enlist)
    }

    /// Whether what became of the thunk is told. It goes to a worker that waits; if there is none,
    /// it comes first in a thread that is added; and if no thread can be added, it goes into the
    /// queue.
    pub open spec fn places(self, thunk: Thunk, submitted: Submitted) -> bool {
        match submitted {
            Submitted::Delivered => channel::delivers(self.immediate(), thunk),
            Submitted::Spawned(thread) => {
                &&& channel::refuses(self.immediate(), thunk)
                &&& self.staff().adds(thread, Some(thunk))
            },
            Submitted::Queued => {
                &&& self.turns_down(thunk)
                &&& channel::carries(self.overflow(), thunk)
            },
        }
    }

    pub(crate) fn assemble(
        overflow_sender: Sender<Thunk>,
        immediate_sender: Sender<Thunk>,
        staff: Staff,
    ) -> (pool: Self)
        requires
            channel::sender_channel(overflow_sender) == staff@.overflow,
            channel::sender_channel(immediate_sender) == staff@.immediate,
            channel::sender_limit(immediate_sender) == Some(0nat),
        ensures
            pool.staff() == staff@,
            pool.immediate_limit() == Some(0nat),
            pool.queue_limit() == channel::sender_limit(overflow_sender),
    {
        ThreadPool { overflow_sender, immediate_sender, staff }
    }

    /// Get the number of threads currently running in the thread pool.
    pub fn threads(&self) -> (threads: usize)
        ensures
            self.shared().finds_threads(threads),
            threads <= self.shared().size().max,
        opens_invariants none
    {
        self.staff.threads()
    }

    /// Get the number of tasks queued for execution, but not yet started.
    ///
    /// This number will always be less than or equal to the configured queue limit, if any.
    pub fn queued_tasks(&self) -> (tasks: usize)
        ensures
            channel::finds_messages(self.overflow(), tasks as nat),
            self.queue_limit() matches Some(limit) ==> tasks <= limit,
        opens_invariants none
    {
        proof {
            use_type_invariant(self);
        }
        channel::count_messages(&self.overflow_sender)
    }

    /// Get the number of tasks currently running.
    pub fn running_tasks(&self) -> (tasks: usize)
        ensures
            self.shared().finds_running(tasks),
        opens_invariants none
    {
        self.staff.running_tasks()
    }

    /// Get the number of tasks completed by this pool since it was created.
    pub fn completed_tasks(&self) -> (tasks: u64)
        ensures
            self.shared().finds_completed(tasks),
        opens_invariants none
    {
        self.staff.completed_tasks()
    }

    /// Submit a task to be executed: `f` computes its value, and `complete` takes it.
    ///
    /// If all worker threads are busy, but there are less threads than the configured maximum, an
    /// additional thread is added to the pool to execute the task; it has to be started.
    ///
    /// If all worker threads are busy and the pool has reached the configured maximum number of
    /// threads, the task will be enqueued. If the queue is configured with a limit, this call will
    /// block until space becomes available in the queue.
    pub fn execute<T, F, C>(&self, f: F, complete: C) -> (submitted: Submitted) where
        T: Send + 'static,
        F: FnOnce() -> T + Send + 'static,
        C: FnOnce(T) + Send + 'static,

        requires
            call_requires(f, ()),
            forall|value: T| call_ensures(f, (), value) ==> call_requires(complete, (value,)),
        ensures
            self.places(task_of::<T, F, C>(f, complete), submitted),
    {
        broadcast use law_try_execute;

        self.submit(create_task(f, complete))
    }

    /// Execute a closure on the thread pool, but only if a worker thread can immediately begin
    /// executing it. If no idle workers are available, the task comes back and is to be dropped.
    ///
    /// If all worker threads are busy, but there are less threads than the configured maximum, an
    /// additional thread is added to the pool to execute the task; it has to be started.
    pub fn try_execute<T, F, C>(&self, f: F, complete: C) -> (submitted: Result<Submitted, Thunk>)
     where
        T: Send + 'static,
        F: FnOnce() -> T + Send + 'static,
        C: FnOnce(T) + Send + 'static,

        requires
            call_requires(f, ()),
            forall|value: T| call_ensures(f, (), value) ==> call_requires(complete, (value,)),
        ensures
            match submitted {
                Ok(submitted) => !(submitted is Queued) && self.places(
                    task_of::<T, F, C>(f, complete),
                    submitted,
                ),
                Err(back) => back == task_of::<T, F, C>(f, complete) && self.turns_down(back),
            },
    {
        self.try_execute_thunk(create_task(f, complete))
    }

    /// Hands the thunk to a worker that waits or adds a thread for it. The thunk comes back if
    /// neither can be done.
    pub fn try_execute_thunk(&self, thunk: Thunk) -> (submitted: Result<Submitted, Thunk>)
        ensures
            match submitted {
                Ok(submitted) => !(submitted is Queued) && self.places(thunk, submitted),
                Err(back) => back == thunk && self.turns_down(thunk),
            },
    {
        broadcast use group_pools_are_built;

        self.place(thunk)
    }

    /// Hands the thunk to a worker that waits or adds a thread for it. If neither can be done, the
    /// thunk goes into the queue.
    pub(crate) fn submit(&self, thunk: Thunk) -> (submitted: Submitted)
        ensures
            self.places(thunk, submitted),
    {
        proof {
            use_type_invariant(self);
        }
        broadcast use group_pools_are_built, law_try_execute_thunk;

        match self.place(thunk) {
            Ok(submitted) => submitted,
            Err(thunk) => {
                // Send the task to the overflow queue.
                let _sent = channel::send(
                    &self.overflow_sender,
                    self.staff.overflow_receiver(),
                    thunk,
                );
                Submitted::Queued
            },
        }
    }

    /// Hands the thunk to a worker that waits or adds a thread for it.
    fn place(&self, thunk: Thunk) -> (submitted: Result<Submitted, Thunk>)
        ensures
            match submitted {
                Ok(submitted) => !(submitted is Queued) && self.places(thunk, submitted),
                Err(back) => back == thunk && self.turns_down(thunk),
            },
    {
        proof {
            use_type_invariant(self);
        }
        // First attempt: If a worker thread is currently blocked on a recv call for a thunk, then
        // send one via the immediate channel.
        match channel::try_send(&self.immediate_sender, self.staff.immediate_receiver(), thunk) {
            Ok(_) => Ok(Submitted::Delivered),
            // No workers are currently idle. If possible, add a thread to handle the task.
            Err(Refused::Full(thunk)) | Err(Refused::Disconnected(thunk)) => match self.staff.hire_for(
                thunk,
            ) {
                Ok(thread) => Ok(Submitted::Spawned(thread)),
                Err(thunk) => Err(thunk),
            },
        }
    }

    /// Adds a thread to the thread pool, if there are less than the maximum: it is counted, and has
    /// to be started. Otherwise the initial thunk comes back.
    ///
    /// If an initial thunk is given, it will be the first thunk the thread executes once ready for
    /// work.
    pub fn spawn_thread(&self, initial_thunk: Option<Thunk>) -> (thread: Result<
        WorkerThread,
        Option<Thunk>,
    >)
        ensures
            match thread {
                Ok(thread) => self.staff().adds(thread, initial_thunk),
                Err(back) => back == initial_thunk && self.shared().denies(Change::Enlist),
            },
    {
        broadcast use group_pools_are_built, group_tasks_are_submitted;

        self.staff.spawn_thread(initial_thunk)
    }

    /// Describes a core thread, which is counted already.
    pub(crate) fn core_thread(&self, handle: Handle) -> (thread: WorkerThread)
        requires
            handle.shared() == self.shared(),
            handle.enlisted(),
            handle.record() == Record::empty(),
        ensures
            self.staff().spawns(thread, None),
            thread.worker@.changes == handle.changes(),
    {
        self.staff.counted_thread(None, handle)
    }

    /// Begins to shut the pool down. Without the sending ends of the channels no task can be
    /// submitted, and idle workers are interrupted.
    pub fn close(self) -> (closing: Closing)
        ensures
            closing@.staff == self.staff(),
            closing@.begins(),
            channel::loses_sender(self.immediate()),
            channel::loses_sender(self.overflow()),
    {
        proof {
            use_type_invariant(&self);
        }
        let ThreadPool { overflow_sender, immediate_sender, staff } = self;
        let (staff, leftovers) = staff.without_senders(overflow_sender, immediate_sender);
        Closing::new(staff, leftovers)
    }
}

} // verus!
