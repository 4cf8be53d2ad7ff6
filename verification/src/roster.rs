//! The count of a pool's threads.
//!
//! The threads of a pool share one roster. It changes in steps, one after the other, so each change
//! has a position, and what the roster is after the first so many changes is fixed over the whole
//! life of the pool. A handle to the roster that one thread owns has a log of the positions of the
//! changes made through it.

pub mod cell;

use crate::laws::group_pools_are_built;
use crate::ledger::{extends, using};
use crate::size::ThreadPoolSize;
use cell::RosterHandle;
use crossbeam_utils::atomic::AtomicCell;
use vstd::prelude::*;

verus! {

/// Something that changes the count of a pool's threads.
#[derive(Copy, Clone, Debug, PartialEq, Eq, Structural)]
pub enum Change {
    /// A thread is to be added.
    Enlist,
    /// A thread has been idle and is to go.
    Retire,
    /// A thread has stopped.
    Leave,
}

/// What a roster holds.
pub struct RosterView {
    pub size: ThreadPoolSize,
    pub threads: usize,
}

impl RosterView {
    /// A pool never has more threads than its maximum.
    pub open spec fn wf(self) -> bool {
        &&& self.size.ordered()
        &&& self.threads <= self.size.max
    }

    /// The roster of a pool that has started all of its core threads and no other.
    pub open spec fn staffed(size: ThreadPoolSize) -> Self {
        RosterView { size, threads: size.min }
    }

    /// The same roster with another count.
    pub open spec fn with_threads(self, threads: int) -> Self {
        RosterView { size: self.size, threads: threads as usize }
    }

    /// What a change makes of the roster; `None` if the change is not to be made. A thread is added
    /// only if there are less than the maximum, and an idle thread goes only if there are more than
    /// the core threads.
    pub open spec fn changed(self, change: Change) -> Option<Self> {
        match change {
            Change::Enlist => if self.threads < self.size.max {
                Some(self.with_threads(self.threads + 1))
            } else {
                None
            },
            Change::Retire => if self.threads > self.size.min {
                Some(self.with_threads(self.threads - 1))
            } else {
                None
            },
            Change::Leave => if self.threads > 0 {
                Some(self.with_threads(self.threads - 1))
            } else {
                Some(self)
            },
        }
    }

    /// What is left of the roster after one attempt at a change after another.
    pub open spec fn after(self, changes: Seq<Change>) -> Self
        decreases changes.len(),
    {
        if changes.len() == 0 {
            self
        } else {
            let before = self.after(changes.drop_last());
            match before.changed(changes.last()) {
                Some(after) => after,
                None => before,
            }
        }
    }
}

/// The count of a pool's threads, against the size that the pool was given.
#[derive(Copy, Clone, Debug, PartialEq, Eq)]
pub struct Roster {
    size: ThreadPoolSize,
    threads: usize,
}

impl View for Roster {
    type V = RosterView;

    closed spec fn view(&self) -> RosterView {
        RosterView { size: self.size, threads: self.threads }
    }
}

impl Roster {
    #[verifier::type_invariant]
    spec fn inv(self) -> bool {
        self@.wf()
    }

    /// Counts the core threads of a new pool.
    pub fn new(size: ThreadPoolSize) -> (roster: Self)
        requires
            size.ordered(),
        ensures
            roster@ == RosterView::staffed(size),
        opens_invariants none
    {
        Roster { size, threads: size.min }
    }

    /// The number of threads, which is never larger than the maximum.
    pub fn threads(&self) -> (threads: usize)
        ensures
            threads == self@.threads,
            self@.wf(),
        opens_invariants none
    {
        proof {
            use_type_invariant(self);
        }
        self.threads
    }

    /// The number of threads that the pool may have.
    pub fn max(&self) -> (max: usize)
        ensures
            max == self@.size.max,
        opens_invariants none
    {
        self.size.max
    }

    /// Makes the change, or returns `None` if it is not to be made.
    pub fn apply(self, change: Change) -> (applied: Option<Roster>)
        ensures
            match applied {
                Some(roster) => self@.changed(change) == Some(roster@),
                None => self@.changed(change) is None,
            },
    {
        proof {
            use_type_invariant(&self);
        }
        match change {
            Change::Enlist => if self.threads < self.size.max {
                Some(Roster { threads: self.threads + 1, ..self })
            } else {
                None
            },
            Change::Retire => if self.threads > self.size.min {
                Some(Roster { threads: self.threads - 1, ..self })
            } else {
                None
            },
            Change::Leave => Some(Roster { threads: self.threads.saturating_sub(1), ..self }),
        }
    }
}

/// The shared roster that a handle leads to.
pub uninterp spec fn roster_id(cell: AtomicCell<Roster>) -> int;

/// The positions of the changes that have been made through the handle.
pub uninterp spec fn changes_made(cell: AtomicCell<Roster>) -> Seq<nat>;

/// What the shared roster is after its first so many changes.
pub uninterp spec fn roster_at(roster: int, changes: nat) -> RosterView;

/// Whether somebody looks at the shared roster after its first so many changes, and finds this.
pub uninterp spec fn roster_read(roster: int, view: RosterView, changes: nat) -> bool;

/// The change of the shared roster at this position.
pub uninterp spec fn change_at(roster: int, position: nat) -> Change;

/// Whether what the shared roster is after its first so many changes has come out of them. It always
/// has: nothing but [`attempt`] changes it.
pub open spec fn came_about(roster: int, changes: nat) -> bool {
    forall|position: nat|
        position < changes ==> roster_at(roster, position).changed(
            #[trigger] change_at(roster, position),
        ) == Some(roster_at(roster, position + 1))
}

/// Whether the shared roster is this after its first so many changes.
pub open spec fn holds_roster(roster: int, view: RosterView, changes: nat) -> bool {
    &&& roster_at(roster, changes) == view
    &&& came_about(roster, changes)
}

/// Whether one change is made through a handle, and no other.
pub open spec fn makes_change(
    before: AtomicCell<Roster>,
    after: AtomicCell<Roster>,
    position: nat,
) -> bool {
    &&& roster_id(after) == roster_id(before)
    &&& extends(changes_made(before), changes_made(after), position)
}

/// Makes a change to the shared roster if the roster allows it. What the roster was is returned. No
/// pool is built by that.
pub(crate) fn attempt(handle: &mut RosterHandle, change: Change) -> (before: Result<Roster, Roster>)
    ensures
        match before {
            Ok(roster) => exists|position: nat| #[trigger]
                makes_change(old(handle).cell(), final(handle).cell(), position) && change_at(
                    roster_id(old(handle).cell()),
                    position,
                ) == change && came_about(roster_id(old(handle).cell()), position + 1),
            Err(roster) => {
                &&& *final(handle) == *old(handle)
                &&& roster@.changed(change) is None
                &&& exists|changes: nat| #[trigger]
                    roster_read(roster_id(old(handle).cell()), roster@, changes) && holds_roster(
                        roster_id(old(handle).cell()),
                        roster@,
                        changes,
                    )
            },
        },
    opens_invariants [using()]
{
    broadcast use group_pools_are_built;

    cell::change_roster(handle, change)
}

/// The first changes of a shared roster.
pub open spec fn first_changes(roster: int, changes: nat) -> Seq<Change> {
    Seq::new(changes, |position: int| change_at(roster, position as nat))
}

/// How often a change is among the first ones of a shared roster.
pub open spec fn occurrences(roster: int, changes: nat, change: Change) -> nat
    decreases changes,
{
    if changes == 0 {
        0
    } else {
        let before = (changes - 1) as nat;
        occurrences(roster, before, change) + if change_at(roster, before) == change {
            1nat
        } else {
            0nat
        }
    }
}

/// A shared roster is what its changes have made of the one that it started with.
pub proof fn lemma_roster_is_what_its_changes_made(roster: int, changes: nat)
    requires
        came_about(roster, changes),
    ensures
        roster_at(roster, changes) == roster_at(roster, 0).after(first_changes(roster, changes)),
    decreases changes,
{
    if changes > 0 {
        let before = (changes - 1) as nat;
        lemma_roster_is_what_its_changes_made(roster, before);
        let all = first_changes(roster, changes);
        assert(all.drop_last() =~= first_changes(roster, before));
        assert(all.last() == change_at(roster, before));
    } else {
        assert(first_changes(roster, 0).len() == 0);
    }
}

/// The threads that a pool has and those that have gone are at least as many as those that came: if
/// the count is zero, as many threads have gone as ever came.
pub proof fn lemma_threads_that_came_are_here_or_gone(roster: int, changes: nat)
    requires
        came_about(roster, changes),
        roster_at(roster, 0).wf(),
    ensures
        roster_at(roster, changes).threads + occurrences(roster, changes, Change::Retire)
            + occurrences(roster, changes, Change::Leave) >= roster_at(roster, 0).threads
            + occurrences(roster, changes, Change::Enlist),
    decreases changes,
{
    if changes > 0 {
        let before = (changes - 1) as nat;
        lemma_threads_that_came_are_here_or_gone(roster, before);
        lemma_roster_is_what_its_changes_made(roster, before);
        lemma_threads_stay_within_the_maximum(
            roster_at(roster, 0),
            first_changes(roster, before),
        );
        assert(roster_at(roster, before).changed(change_at(roster, before)) == Some(
            roster_at(roster, changes),
        ));
    }
}

/// Whatever happens to a pool, it never has more threads than its maximum, and its size stays what
/// it was.
pub proof fn lemma_threads_stay_within_the_maximum(roster: RosterView, changes: Seq<Change>)
    requires
        roster.wf(),
    ensures
        roster.after(changes).wf(),
        roster.after(changes).size == roster.size,
    decreases changes.len(),
{
    if changes.len() > 0 {
        lemma_threads_stay_within_the_maximum(roster, changes.drop_last());
    }
}

/// As long as no thread stops, which threads do when the pool shuts down, the core threads of a
/// pool stay.
pub proof fn lemma_core_threads_stay(size: ThreadPoolSize, changes: Seq<Change>)
    requires
        size.ordered(),
        forall|i: int| 0 <= i < changes.len() ==> #[trigger] changes[i] != Change::Leave,
    ensures
        size.min <= RosterView::staffed(size).after(changes).threads <= size.max,
    decreases changes.len(),
{
    lemma_threads_stay_within_the_maximum(RosterView::staffed(size), changes);
    if changes.len() > 0 {
        let before = changes.drop_last();
        assert forall|i: int| 0 <= i < before.len() implies #[trigger] before[i]
            != Change::Leave by {
            assert(before[i] == changes[i]);
        }
        lemma_core_threads_stay(size, before);
        lemma_threads_stay_within_the_maximum(RosterView::staffed(size), before);
        assert(changes[changes.len() - 1] != Change::Leave);
    }
}

/// A pool that was given one number as its size has exactly that many threads as long as no thread
/// stops.
pub proof fn lemma_fixed_number_of_threads(count: usize, changes: Seq<Change>)
    requires
        forall|i: int| 0 <= i < changes.len() ==> #[trigger] changes[i] != Change::Leave,
    ensures
        RosterView::staffed(ThreadPoolSize { min: count, max: count }).after(changes).threads
            == count,
{
    lemma_core_threads_stay(ThreadPoolSize { min: count, max: count }, changes);
}

/// A thread that was added and has stopped leaves the count as it was.
pub proof fn lemma_enlist_then_leave(roster: RosterView)
    requires
        roster.wf(),
        roster.threads < roster.size.max,
    ensures
        roster.changed(Change::Enlist) matches Some(more) && more.changed(Change::Leave) == Some(
            roster,
        ),
{
}

/// The count goes down by one with every thread that stops, and is zero when the last one has.
pub proof fn lemma_count_reaches_zero_with_the_last_thread(roster: RosterView, changes: Seq<Change>)
    requires
        forall|i: int| 0 <= i < changes.len() ==> #[trigger] changes[i] == Change::Leave,
    ensures
        roster.after(changes).threads == if changes.len() < roster.threads {
            roster.threads - changes.len()
        } else {
            0
        },
    decreases changes.len(),
{
    if changes.len() > 0 {
        let before = changes.drop_last();
        assert forall|i: int| 0 <= i < before.len() implies #[trigger] before[i]
            == Change::Leave by {
            assert(before[i] == changes[i]);
        }
        lemma_count_reaches_zero_with_the_last_thread(roster, before);
        assert(changes[changes.len() - 1] == Change::Leave);
    }
}

/// A thread is added exactly if there are less than the maximum, an idle one goes exactly if there
/// are more than the core threads, and one that has stopped always goes. Each changes the count by
/// one, and nothing else.
pub proof fn lemma_changes_count_by_one(roster: RosterView)
    requires
        roster.wf(),
    ensures
        roster.changed(Change::Enlist) is Some <==> roster.threads < roster.size.max,
        roster.changed(Change::Enlist) matches Some(after) ==> after.threads == roster.threads + 1
            && after.size == roster.size,
        roster.changed(Change::Retire) is Some <==> roster.threads > roster.size.min,
        roster.changed(Change::Retire) matches Some(after) ==> after.threads == roster.threads - 1
            && after.size == roster.size,
        roster.changed(Change::Leave) matches Some(after) && after.size == roster.size
            && after.threads == if roster.threads > 0 {
            roster.threads - 1
        } else {
            0
        },
{
}

/// A new roster counts the core threads.
pub proof fn lemma_new_roster_counts_the_core_threads(size: ThreadPoolSize, roster: Roster)
    requires
        call_ensures(Roster::new, (size,), roster),
    ensures
        roster@.threads == size.min,
        roster@.size == size,
{
}

} // verus!
