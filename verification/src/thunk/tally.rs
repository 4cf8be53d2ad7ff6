//! Counting tasks.
//!
//! A task is executed in three steps, and the types see to their order: it is counted as running,
//! which makes it a [`Started`] one; only that can be executed, which makes it an [`Executed`] one;
//! and only that can be counted as completed, after it has been counted as no longer running.

use super::Thunk;
use crate::counter;
use crate::counter::cell::{CountHandle, TotalHandle};
use crate::counter::{count_move, total_move, Move};
use crate::ledger::{extends, using};
use vstd::prelude::*;

verus! {

/// What has been counted through one handle: the positions of the steps that counted tasks as
/// running and as no longer running, of those that counted them as completed, and the tasks.
pub struct Record {
    pub running: Seq<nat>,
    pub completed: Seq<nat>,
    pub tasks: Seq<Thunk>,
}

impl Record {
    /// Nothing has been counted.
    pub open spec fn empty() -> Self {
        Record { running: Seq::empty(), completed: Seq::empty(), tasks: Seq::empty() }
    }

    /// Whether a task was counted as running, and nothing else.
    pub open spec fn starts(self, after: Record, running: int, position: nat) -> bool {
        &&& after == (Record { running: after.running, ..self })
        &&& extends(self.running, after.running, position)
        &&& count_move(running, position) == Move::Up(1)
    }

    /// Whether the task was counted as no longer running and as completed, and nothing else.
    pub open spec fn finishes(
        self,
        after: Record,
        running: int,
        completed: int,
        thunk: Thunk,
        stopped: nat,
        counted: nat,
    ) -> bool {
        &&& extends(self.running, after.running, stopped)
        &&& count_move(running, stopped) == Move::Down(1)
        &&& extends(self.completed, after.completed, counted)
        &&& total_move(completed, counted) == 1
        &&& after.tasks == self.tasks.push(thunk)
    }

    /// Whether the task was counted as running, as no longer running and as completed, each once,
    /// and nothing else.
    pub open spec fn counts(self, after: Record, running: int, completed: int, thunk: Thunk) -> bool {
        exists|started: nat, between: Record, stopped: nat, counted: nat|
            #![trigger self.starts(between, running, started), between.finishes(after, running, completed, thunk, stopped, counted)]
            self.starts(between, running, started) && between.finishes(
                after,
                running,
                completed,
                thunk,
                stopped,
                counted,
            )
    }
}

/// A handle to the counters of running and of completed tasks.
pub struct Tally {
    running: CountHandle,
    completed: TotalHandle,
    tasks: Ghost<Seq<Thunk>>,
}

impl Tally {
    /// The counter of running tasks.
    pub closed spec fn running(self) -> int {
        counter::count_id(self.running.cell())
    }

    /// The counter of completed tasks.
    pub closed spec fn completed(self) -> int {
        counter::total_id(self.completed.cell())
    }

    /// What has been counted through the handle.
    pub closed spec fn record(self) -> Record {
        Record {
            running: counter::counts_made(self.running.cell()),
            completed: counter::totals_made(self.completed.cell()),
            tasks: self.tasks@,
        }
    }

    /// A handle to counters through which nothing has been counted.
    pub(crate) fn new(running: CountHandle, completed: TotalHandle) -> (tally: Self)
        requires
            counter::counts_made(running.cell()) == Seq::<nat>::empty(),
            counter::totals_made(completed.cell()) == Seq::<nat>::empty(),
        ensures
            tally.running() == counter::count_id(running.cell()),
            tally.completed() == counter::total_id(completed.cell()),
            tally.record() == Record::empty(),
        opens_invariants none
    {
        Tally { running, completed, tasks: Ghost(Seq::empty()) }
    }

    /// Counts a task as running.
    pub(crate) fn start(&mut self, thunk: Thunk) -> (started: Started)
        ensures
            started.thunk() == thunk,
            final(self).running() == old(self).running(),
            final(self).completed() == old(self).completed(),
            exists|position: nat| #[trigger]
                old(self).record().starts(final(self).record(), old(self).running(), position),
        opens_invariants [using()]
    {
        counter::count_up(&mut self.running);
        proof {
            let position = choose|position: nat| #[trigger]
                counter::makes_move(
                    old(self).running.cell(),
                    self.running.cell(),
                    position,
                ) && count_move(
                    old(self).running(),
                    position,
                ) == Move::Up(1);
            assert(old(self).record().starts(self.record(), old(self).running(), position));
        }
        Started { thunk }
    }

    /// Counts a task that has been executed as no longer running, and as completed.
    pub(crate) fn finish(&mut self, executed: Executed)
        ensures
            final(self).running() == old(self).running(),
            final(self).completed() == old(self).completed(),
            exists|stopped: nat, counted: nat| #[trigger]
                old(self).record().finishes(
                    final(self).record(),
                    old(self).running(),
                    old(self).completed(),
                    executed.thunk(),
                    stopped,
                    counted,
                ),
        opens_invariants [using()]
    {
        let down = counter::count_down(&mut self.running);
        counter::total_up(&mut self.completed, down);
        self.tasks = Ghost(self.tasks@.push(executed.thunk@));
        proof {
            let stopped = choose|position: nat| #[trigger]
                counter::makes_move(
                    old(self).running.cell(),
                    self.running.cell(),
                    position,
                ) && count_move(
                    old(self).running(),
                    position,
                ) == Move::Down(1);
            let counted = choose|position: nat| #[trigger]
                counter::makes_step(
                    old(self).completed.cell(),
                    self.completed.cell(),
                    position,
                ) && total_move(
                    old(self).completed(),
                    position,
                ) == 1;
            assert(old(self).record().finishes(
                self.record(),
                old(self).running(),
                old(self).completed(),
                executed.thunk(),
                stopped,
                counted,
            ));
        }
    }
}

/// A task that is counted as running.
pub struct Started {
    thunk: Thunk,
}

impl Started {
    /// The task.
    pub closed spec fn thunk(self) -> Thunk {
        self.thunk
    }

    /// Executes the task.
    pub(crate) fn execute(self) -> (executed: Executed)
        ensures
            executed.thunk() == self.thunk(),
            self.thunk().done(),
    {
        let ghost task = self.thunk;
        self.thunk.execute();
        Executed { thunk: Ghost(task) }
    }
}

/// A task that has been executed.
pub struct Executed {
    thunk: Ghost<Thunk>,
}

impl Executed {
    #[verifier::type_invariant]
    spec fn inv(self) -> bool {
        self.thunk@.done()
    }

    /// The task.
    pub closed spec fn thunk(self) -> Thunk {
        self.thunk@
    }
}

} // verus!
