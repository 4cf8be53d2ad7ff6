//! The place in memory that a shared roster is in.

use super::{
    came_about, change_at, changes_made, holds_roster, makes_change, roster_at, roster_id,
    roster_read, Change, Roster,
};
use crate::ledger::{sharing, using};
use crossbeam_utils::atomic::AtomicCell;
use std::sync::Arc;
use vstd::prelude::*;

verus! {

/// A handle to a shared roster. Nobody else can get at the place in memory that it leads to.
pub(crate) struct RosterHandle {
    cell: Arc<AtomicCell<Roster>>,
}

impl RosterHandle {
    /// The place in memory that the handle leads to.
    pub(crate) closed spec fn cell(self) -> AtomicCell<Roster> {
        *self.cell
    }

    /// The handle to a new shared roster.
    pub(crate) fn of(cell: Arc<AtomicCell<Roster>>) -> (handle: Self)
        ensures
            handle.cell() == *cell,
        opens_invariants none
    {
        RosterHandle { cell }
    }

    /// Another handle to the same shared roster.
    pub(crate) fn share(&self) -> (handle: Self)
        ensures
            handle.cell() == self.cell(),
        opens_invariants [sharing()]
    {
        RosterHandle { cell: self.cell.clone() }
    }

    /// Looks what the shared roster is.
    pub(crate) fn load(&self) -> (roster: Roster)
        ensures
            exists|changes: nat| #[trigger]
                roster_read(roster_id(self.cell()), roster@, changes) && holds_roster(
                    roster_id(self.cell()),
                    roster@,
                    changes,
                ),
        opens_invariants none
    {
        assert(self.cell() == *self.cell);
        load_roster(&self.cell)
    }
}

/// Calls `AtomicCell::new`: the shared roster starts with the one that is given.
#[verifier::external_body]
pub(crate) fn share_roster(roster: Roster) -> (cell: AtomicCell<Roster>)
    ensures
        changes_made(cell) == Seq::<nat>::empty(),
        roster_at(roster_id(cell), 0) == roster@,
{
    AtomicCell::new(roster)
}

/// Calls `AtomicCell::load`: the roster is what the shared roster is at the time of the look, which is
/// after some number of changes. Which number that is depends on the other threads.
#[verifier::external_body]
fn load_roster(cell: &Arc<AtomicCell<Roster>>) -> (roster: Roster)
    ensures
        exists|changes: nat| #[trigger]
            roster_read(roster_id(**cell), roster@, changes) && holds_roster(
                roster_id(**cell),
                roster@,
                changes,
            ),
    opens_invariants none
{
    cell.load()
}

/// Calls `AtomicCell::fetch_update` with [`Roster::apply`], which is applied to what the shared
/// roster is at that time: if it gives a roster, that takes the place of the one that is returned,
/// and if it gives none, nothing changes.
#[verifier::external_body]
pub(super) fn change_roster(handle: &mut RosterHandle, change: Change) -> (before: Result<
    Roster,
    Roster,
>)
    ensures
        match before {
            Ok(roster) => exists|position: nat| #[trigger]
                makes_change(old(handle).cell(), final(handle).cell(), position) && change_at(
                    roster_id(old(handle).cell()),
                    position,
                ) == change && roster_at(roster_id(old(handle).cell()), position) == roster@
                    && came_about(roster_id(old(handle).cell()), position + 1),
            Err(roster) => {
                &&& *final(handle) == *old(handle)
                &&& roster@.changed(change) is None
                &&& exists|changes: nat| #[trigger]
                    roster_read(roster_id(old(handle).cell()), roster@, changes) && holds_roster(
                        roster_id(old(handle).cell()),
                        roster@,
                        changes,
                    )
            },
        },
    opens_invariants [using()]
{
    handle.cell.fetch_update(|roster| roster.apply(change))
}

} // verus!
