pub mod tally;

use crate::laws::{
    group_pools_are_built, group_tasks_are_submitted, group_threads_are_added, law_submit,
    law_try_execute_thunk,
};
use std::marker::PhantomData;
use vstd::prelude::*;

verus! {

/// Work that is done at most once, by whichever thread owns it.
trait Job: Send {
    /// Whether the job may be run.
    spec fn ready(&self) -> bool;

    /// What holds once the job has been run to its end.
    spec fn done(&self) -> bool;

    /// Does the work and uses it up.
    fn run(self: Box<Self>)
        requires
            self.ready(),
        ensures
            self.done(),
    ;
}

/// A call of a closure, as a job.
struct Call<F> {
    function: F,
}

impl<F: FnOnce() + Send> Job for Call<F> {
    closed spec fn ready(&self) -> bool {
        call_requires(self.function, ())
    }

    closed spec fn done(&self) -> bool {
        call_ensures(self.function, (), ())
    }

    fn run(self: Box<Self>) {
        let call = *self;
        (call.function)()
    }
}

/// A computation and what takes its value, as a job.
struct Computation<T, F, C> {
    compute: F,
    complete: C,
    value: PhantomData<T>,
}

impl<T: Send, F: FnOnce() -> T + Send, C: FnOnce(T) + Send> Job for Computation<T, F, C> {
    closed spec fn ready(&self) -> bool {
        &&& call_requires(self.compute, ())
        &&& forall|value: T|
            call_ensures(self.compute, (), value) ==> call_requires(self.complete, (value,))
    }

    closed spec fn done(&self) -> bool {
        handed_over::<T, F, C>(self.compute, self.complete)
    }

    fn run(self: Box<Self>) {
        let computation = *self;
        let value = (computation.compute)();
        (computation.complete)(value)
    }
}

/// Wrapper around closures that can be run by worker threads.
pub struct Thunk(Box<dyn Job>);

impl Thunk {
    #[verifier::type_invariant]
    spec fn callable(self) -> bool {
        self.0.ready()
    }

    /// The thunk that calls the closure.
    pub closed spec fn of<F: FnOnce() + Send + 'static>(function: F) -> Thunk {
        Thunk(Box::new(Call { function }))
    }

    /// What holds once the thunk has been executed.
    pub closed spec fn done(self) -> bool {
        self.0.done()
    }

    /// Wraps a closure that can be called.
    pub fn new<F: FnOnce() + Send + 'static>(function: F) -> (thunk: Self)
        requires
            call_requires(function, ()),
        ensures
            thunk == Self::of(function),
            thunk.done() <==> call_ensures(function, (), ()),
    {
        broadcast use group_pools_are_built, group_tasks_are_submitted, group_threads_are_added;

        Thunk(Box::new(Call { function }))
    }

    /// Calls the closure. Only a task that is [counted as running](tally::Started) gets here.
    fn execute(self)
        ensures
            self.done(),
    {
        proof {
            use_type_invariant(&self);
        }
        self.0.run()
    }
}

/// Whether `f` has been called and what it returned has been handed to `complete`.
pub open spec fn handed_over<T, F: FnOnce() -> T, C: FnOnce(T)>(f: F, complete: C) -> bool {
    exists|value: T| #[trigger]
        call_ensures(f, (), value) && call_ensures(complete, (value,), ())
}

/// The thunk that computes a value with `f` and hands it to `complete`. It holds both closures, so
/// neither has been called yet.
pub closed spec fn task_of<
    T: Send + 'static,
    F: FnOnce() -> T + Send + 'static,
    C: FnOnce(T) + Send + 'static,
>(f: F, complete: C) -> Thunk {
    Thunk(Box::new(Computation::<T, F, C> { compute: f, complete, value: PhantomData }))
}

/// Makes the thunk that computes a value with `f` and hands it to `complete`, the end of a task
/// that waits for the value.
pub fn create_task<T, F, C>(f: F, complete: C) -> (thunk: Thunk) where
    T: Send + 'static,
    F: FnOnce() -> T + Send + 'static,
    C: FnOnce(T) + Send + 'static,

    requires
        call_requires(f, ()),
        forall|value: T| call_ensures(f, (), value) ==> call_requires(complete, (value,)),
    ensures
        thunk == task_of::<T, F, C>(f, complete),
        thunk.done() <==> handed_over::<T, F, C>(f, complete),
{
    broadcast use group_pools_are_built, law_try_execute_thunk, law_submit;

    Thunk(Box::new(Computation::<T, F, C> { compute: f, complete, value: PhantomData }))
}

/// A task is executed exactly if its value has been computed and handed over.
pub proof fn lemma_executed_task_hands_its_value_over<
    T: Send + 'static,
    F: FnOnce() -> T + Send + 'static,
    C: FnOnce(T) + Send + 'static,
>(f: F, complete: C)
    ensures
        task_of::<T, F, C>(f, complete).done() <==> handed_over::<T, F, C>(f, complete),
        task_of::<T, F, C>(f, complete).done() <==> exists|value: T| #[trigger]
            call_ensures(f, (), value) && call_ensures(complete, (value,), ()),
{
}

} // verus!
