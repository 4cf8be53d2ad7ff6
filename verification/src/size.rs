use std::ops::Range;
use vstd::prelude::*;

verus! {

/// How many threads a pool keeps and how many it may have.
#[derive(Copy, Clone, Debug, PartialEq, Eq)]
pub struct ThreadPoolSize {
    /// The number of core threads, which the pool keeps even if they are idle.
    pub min: usize,
    /// The number of threads that the pool may burst up to when the core threads are busy.
    pub max: usize,
}

impl ThreadPoolSize {
    /// A pool may have at least as many threads as it keeps.
    pub open spec fn ordered(self) -> bool {
        self.min <= self.max
    }

    /// Converts a number of threads or a range. The lower bound of a range must not be larger than
    /// its upper bound.
    pub fn from<T: PoolSize>(bounds: T) -> (size: Self)
        requires
            bounds.valid(),
        ensures
            size == bounds.size(),
            size.ordered(),
    {
        bounds.into_size()
    }

    /// The size of a pool for which none was set: a core thread for each CPU, and twice as many
    /// threads at most.
    pub open spec fn default_for(cpus: usize) -> ThreadPoolSize {
        let double = if 2 * cpus <= usize::MAX {
            2 * cpus
        } else {
            usize::MAX as int
        };
        ThreadPoolSize { min: cpus, max: double as usize }
    }

    /// Chooses the size of a pool for which none was set.
    pub fn for_cpus(cpus: usize) -> (size: Self)
        ensures
            size == Self::default_for(cpus),
            size.ordered(),
    {
        ThreadPoolSize { min: cpus, max: cpus.saturating_add(cpus) }
    }
}

/// What tells how many threads a pool is to have.
pub trait PoolSize: Sized {
    /// Whether a pool can have such a size.
    spec fn valid(self) -> bool;

    /// The size.
    spec fn size(self) -> ThreadPoolSize;

    /// Says whether a pool can have such a size.
    fn is_valid(&self) -> (valid: bool)
        ensures
            valid == self.valid(),
    ;

    /// Converts it into the size.
    fn into_size(self) -> (size: ThreadPoolSize)
        requires
            self.valid(),
        ensures
            size == self.size(),
            size.ordered(),
    ;
}

/// A fixed number of threads.
impl PoolSize for usize {
    open spec fn valid(self) -> bool {
        true
    }

    open spec fn size(self) -> ThreadPoolSize {
        ThreadPoolSize { min: self, max: self }
    }

    fn is_valid(&self) -> (valid: bool) {
        true
    }

    fn into_size(self) -> (size: ThreadPoolSize) {
        ThreadPoolSize { min: self, max: self }
    }
}

/// The number of core threads and the number of threads that the pool may burst up to.
impl PoolSize for Range<usize> {
    open spec fn valid(self) -> bool {
        self.start <= self.end
    }

    open spec fn size(self) -> ThreadPoolSize {
        ThreadPoolSize { min: self.start, max: self.end }
    }

    fn is_valid(&self) -> (valid: bool) {
        self.start <= self.end
    }

    fn into_size(self) -> (size: ThreadPoolSize) {
        ThreadPoolSize { min: self.start, max: self.end }
    }
}

/// A size, as it is.
impl PoolSize for ThreadPoolSize {
    open spec fn valid(self) -> bool {
        self.ordered()
    }

    open spec fn size(self) -> ThreadPoolSize {
        self
    }

    fn is_valid(&self) -> (valid: bool) {
        self.min <= self.max
    }

    fn into_size(self) -> (size: ThreadPoolSize) {
        self
    }
}

/// A number is a size with that many core threads and no others.
pub proof fn lemma_number_is_a_fixed_size(threads: usize)
    ensures
        threads.valid(),
        threads.size().min == threads,
        threads.size().max == threads,
{
}

/// A range is a size if its bounds are ordered, and they are then the bounds of the size.
pub proof fn lemma_range_is_a_size_if_its_bounds_are_ordered(start: usize, end: usize)
    ensures
        (Range { start, end }).valid() <==> start <= end,
        (Range { start, end }).size().min == start,
        (Range { start, end }).size().max == end,
{
}

/// A size is the size that it is, if its bounds are ordered.
pub proof fn lemma_size_is_itself(size: ThreadPoolSize)
    ensures
        size.valid() <==> size.min <= size.max,
        size.size() == size,
{
}

/// Whatever is converted into a size, a number and a range of that number alone give the same.
pub proof fn lemma_conversion(
    threads: usize,
    range: Range<usize>,
    fixed: ThreadPoolSize,
    ranged: ThreadPoolSize,
)
    requires
        call_ensures(ThreadPoolSize::from::<usize>, (threads,), fixed),
        call_ensures(ThreadPoolSize::from::<Range<usize>>, (range,), ranged),
    ensures
        fixed.min == threads,
        fixed.max == threads,
        ranged.min == range.start,
        ranged.max == range.end,
        ranged.min <= ranged.max,
        range.start == threads && range.end == threads ==> ranged == fixed,
{
}

/// A pool for which no size was set has a core thread for each CPU and may have twice as many
/// threads, as far as they can be counted.
pub proof fn lemma_default_size(cpus: usize)
    ensures
        ThreadPoolSize::default_for(cpus).min == cpus,
        2 * cpus <= usize::MAX ==> ThreadPoolSize::default_for(cpus).max == 2 * cpus,
        2 * cpus > usize::MAX ==> ThreadPoolSize::default_for(cpus).max == usize::MAX,
{
}

} // verus!
