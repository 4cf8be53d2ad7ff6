use crate::channel;
use crate::channel::limit_fits;
use crate::pool::ThreadPool;
use crate::staff::{text, Staff, WorkerThread};
use crate::shared::Shared;
use crate::size::{PoolSize, ThreadPoolSize};
use vstd::prelude::*;

verus! {

/// For how many seconds a worker waits for a task before it counts as idle.
pub const DEFAULT_IDLE_TIMEOUT: u64 = 60;

/// Whether threads can have the name: it holds no null byte.
pub open spec fn valid_name(name: Seq<char>) -> bool {
    !name.contains('\0')
}

/// Says whether threads can have the name.
pub fn is_valid_name(name: &str) -> (valid: bool)
    ensures
        valid == valid_name(name@),
{
    for c in chars: name.chars()
        invariant
            chars.seq() == name@,
            forall|i: int| 0 <= i < chars.index() ==> name@[i] != '\0',
    {
        if c == '\0' {
            assert(name@[chars.index()] == '\0');
            return false;
        }
    }
    true
}

/// Whether the machine reports this number of CPUs at some time.
pub uninterp spec fn reports_cpus(cpus: usize) -> bool;

/// Calls `num_cpus::get`: the number of CPUs that the machine reports is at least one. How many there
/// are depends on the machine.
#[verifier::external_body]
fn count_cpus() -> (cpus: usize)
    ensures
        cpus >= 1,
        reports_cpus(cpus),
{
    num_cpus::get()
}

/// What a builder holds.
pub struct BuilderView {
    pub size: Option<ThreadPoolSize>,
    pub idle_timeout: Option<u64>,
    pub name: Option<Seq<char>>,
    pub stack_size: Option<usize>,
    pub queue_limit: Option<usize>,
}

impl BuilderView {
    /// A builder to which nothing has been told.
    pub open spec fn empty() -> Self {
        BuilderView {
            size: None,
            idle_timeout: None,
            name: None,
            stack_size: None,
            queue_limit: None,
        }
    }

    /// A builder to which only a name has been told.
    pub open spec fn named(name: Seq<char>) -> Self {
        BuilderView { name: Some(name), ..Self::empty() }
    }

    /// The limit of the queue can be had.
    pub open spec fn buildable(self) -> bool {
        self.queue_limit matches Some(limit) ==> limit_fits(limit)
    }

    /// The size of the pool on a machine with this many CPUs.
    pub open spec fn size_for(self, cpus: usize) -> ThreadPoolSize {
        match self.size {
            Some(size) => size,
            None => ThreadPoolSize::default_for(cpus),
        }
    }

    /// Whether the pool is one that such a builder makes on a machine with this many CPUs, and
    /// `threads` are the threads that it starts with: the core threads.
    pub open spec fn builds(
        self,
        cpus: usize,
        pool: ThreadPool,
        threads: Seq<WorkerThread>,
    ) -> bool {
        &&& pool.staff().thread_name == self.name
        &&& pool.staff().stack_size == self.stack_size
        &&& pool.immediate_limit() == Some(0nat)
        &&& pool.queue_limit() == match self.queue_limit {
            Some(limit) => Some(limit as nat),
            None => None,
        }
        &&& channel::stands_at(pool.overflow(), 0, 0)
        &&& pool.shared().opens()
        &&& pool.shared().size() == self.size_for(cpus)
        &&& pool.shared().idle_timeout == match self.idle_timeout {
            Some(seconds) => seconds,
            None => DEFAULT_IDLE_TIMEOUT,
        }
        &&& pool.shared().has_threads_at(0, self.size_for(cpus).min)
        &&& pool.shared().has_running_at(0, 0)
        &&& pool.shared().has_completed_at(0, 0)
        &&& threads.len() == self.size_for(cpus).min
        &&& forall|i: int|
            0 <= i < threads.len() ==> pool.staff().spawns(#[trigger] threads[i], None)
                && threads[i].worker@.changes.len() == 0
    }
}

/// A builder for constructing a customized thread pool.
#[derive(Debug)]
pub struct ThreadPoolBuilder {
    size: Option<ThreadPoolSize>,
    idle_timeout: Option<u64>,
    name: Option<String>,
    stack_size: Option<usize>,
    queue_limit: Option<usize>,
}

impl View for ThreadPoolBuilder {
    type V = BuilderView;

    closed spec fn view(&self) -> BuilderView {
        BuilderView {
            size: self.size,
            idle_timeout: self.idle_timeout,
            name: text(self.name),
            stack_size: self.stack_size,
            queue_limit: self.queue_limit,
        }
    }
}

impl Default for ThreadPoolBuilder {
    fn default() -> (builder: Self)
        ensures
            builder@ == BuilderView::empty(),
    {
        ThreadPoolBuilder {
            size: None,
            idle_timeout: None,
            name: None,
            stack_size: None,
            queue_limit: None,
        }
    }
}

impl ThreadPoolBuilder {
    #[verifier::type_invariant]
    spec fn inv(self) -> bool {
        &&& self.size matches Some(size) ==> size.ordered()
        &&& self.name matches Some(name) ==> valid_name(name@)
    }

    /// Set a custom thread name for threads spawned by this thread pool. The name must not contain
    /// null bytes (`\0`).
    pub fn name(self, name: String) -> (builder: Self)
        requires
            valid_name(name@),
        ensures
            builder@ == (BuilderView { name: Some(name@), ..self@ }),
    {
        proof {
            use_type_invariant(&self);
        }
        ThreadPoolBuilder { name: Some(name), ..self }
    }

    /// Set the number of threads to be managed by this thread pool.
    ///
    /// If a `usize` is supplied, the pool will have a fixed number of threads. If a range is
    /// supplied, the lower bound will be the core pool size while the upper bound will be a maximum
    /// pool size the pool is allowed to burst up to when the core threads are busy. The lower bound
    /// must not be larger than the upper bound.
    pub fn size<T: PoolSize>(self, size: T) -> (builder: Self)
        requires
            size.valid(),
        ensures
            builder@ == (BuilderView { size: Some(size.size()), ..self@ }),
    {
        proof {
            use_type_invariant(&self);
        }
        ThreadPoolBuilder { size: Some(ThreadPoolSize::from(size)), ..self }
    }

    /// Set the size of the stack (in bytes) for threads in this thread pool.
    ///
    /// The actual stack size may be greater than this value if the platform specifies a minimal
    /// stack size.
    pub fn stack_size(self, size: usize) -> (builder: Self)
        ensures
            builder@ == (BuilderView { stack_size: Some(size), ..self@ }),
    {
        proof {
            use_type_invariant(&self);
        }
        ThreadPoolBuilder { stack_size: Some(size), ..self }
    }

    /// Set a maximum number of pending tasks allowed to be submitted before blocking.
    pub fn queue_limit(self, limit: usize) -> (builder: Self)
        ensures
            builder@ == (BuilderView { queue_limit: Some(limit), ..self@ }),
    {
        proof {
            use_type_invariant(&self);
        }
        ThreadPoolBuilder { queue_limit: Some(limit), ..self }
    }

    /// Says whether a queue of the limit that was set can be had.
    pub fn is_buildable(&self) -> (buildable: bool)
        ensures
            buildable == self@.buildable(),
    {
        match self.queue_limit {
            Some(limit) => channel::is_possible_limit(limit),
            None => true,
        }
    }

    /// Create a thread pool according to the configuration set with this builder. The threads that
    /// come with it have to be started.
    pub fn build(self) -> (built: (ThreadPool, Vec<WorkerThread>))
        requires
            self@.buildable(),
        ensures
            exists|cpus: usize| #[trigger]
                self@.builds(cpus, built.0, built.1@) && cpus >= 1 && (self@.size is None
                    ==> reports_cpus(cpus)),
    {
        let cpus: usize = match self.size {
            Some(_) => 1,
            None => count_cpus(),
        };
        self.build_for(cpus)
    }

    /// Create a thread pool for a machine with this many CPUs. Their number matters only if no size
    /// was set.
    pub fn build_for(self, cpus: usize) -> (built: (ThreadPool, Vec<WorkerThread>))
        requires
            self@.buildable(),
        ensures
            self@.builds(cpus, built.0, built.1@),
    {
        proof {
            use_type_invariant(&self);
        }
        let size = match self.size {
            Some(size) => size,
            None => ThreadPoolSize::for_cpus(cpus),
        };
        let idle_timeout: u64 = match self.idle_timeout {
            Some(seconds) => seconds,
            None => DEFAULT_IDLE_TIMEOUT,
        };
        let (shared, handles) = Shared::new(size, idle_timeout);
        let (overflow_sender, overflow_receiver) = match self.queue_limit {
            Some(limit) => channel::bounded(limit),
            None => channel::unbounded(),
        };
        let (immediate_sender, immediate_receiver) = channel::bounded(0);
        let staff = Staff::new(
            self.name,
            self.stack_size,
            overflow_receiver,
            immediate_receiver,
            shared,
        );
        let pool = ThreadPool::assemble(overflow_sender, immediate_sender, staff);
        let mut threads: Vec<WorkerThread> = Vec::new();
        for handle in iter: handles
            invariant
                iter.seq() == handles@,
                forall|i: int|
                    0 <= i < handles@.len() ==> {
                        &&& (#[trigger] handles@[i]).shared() == pool.shared()
                        &&& handles@[i].is_new()
                        &&& handles@[i].enlisted()
                    },
                threads@.len() == iter.index(),
                forall|j: int|
                    0 <= j < threads@.len() ==> pool.staff().spawns(#[trigger] threads@[j], None)
                        && threads@[j].worker@.changes.len() == 0,
        {
            threads.push(pool.core_thread(handle));
        }
        (pool, threads)
    }
}

/// A name is valid exactly if none of its characters is the null character.
pub proof fn lemma_valid_names(name: Seq<char>)
    ensures
        valid_name(name) <==> forall|i: int| 0 <= i < name.len() ==> #[trigger] name[i] != '\0',
{
    if !valid_name(name) {
        let i = name.index_of('\0');
        assert(name[i] == '\0');
    }
}

/// A builder is told one thing at a time, and keeps what it was told before.
pub proof fn lemma_settings_are_kept(
    builder: ThreadPoolBuilder,
    name: String,
    named: ThreadPoolBuilder,
    threads: usize,
    sized: ThreadPoolBuilder,
    stack_size: usize,
    stacked: ThreadPoolBuilder,
    limit: usize,
    limited: ThreadPoolBuilder,
)
    requires
        call_ensures(ThreadPoolBuilder::name, (builder, name), named),
        call_ensures(ThreadPoolBuilder::size::<usize>, (named, threads), sized),
        call_ensures(ThreadPoolBuilder::stack_size, (sized, stack_size), stacked),
        call_ensures(ThreadPoolBuilder::queue_limit, (stacked, limit), limited),
    ensures
        limited@.name == Some(name@),
        limited@.size == Some(ThreadPoolSize { min: threads, max: threads }),
        limited@.stack_size == Some(stack_size),
        limited@.queue_limit == Some(limit),
        limited@.idle_timeout == builder@.idle_timeout,
        limited@.buildable() <==> limit_fits(limit),
{
}

/// A new builder has been told nothing, and a pool can be built from it.
pub proof fn lemma_new_builder(builder: ThreadPoolBuilder)
    requires
        call_ensures(ThreadPool::builder, (), builder),
    ensures
        builder@.name is None,
        builder@.size is None,
        builder@.stack_size is None,
        builder@.queue_limit is None,
        builder@.idle_timeout is None,
        builder@.buildable(),
{
}

} // verus!
