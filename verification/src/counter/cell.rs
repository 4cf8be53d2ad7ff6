//! The places in memory that counters are in.

use super::{
    count_adds_up, count_at, count_id, count_move, count_read, counts_made, holds_count, holds_total,
    makes_move, makes_step, total_adds_up, total_at, total_id, total_move, total_read, totals_made,
    Move,
};
use crate::ledger::{sharing, using};
use crossbeam_utils::atomic::AtomicCell;
use std::sync::Arc;
use vstd::prelude::*;

verus! {

/// A handle to a counter. Nobody else can get at the place in memory that it leads to.
pub(crate) struct CountHandle {
    cell: Arc<AtomicCell<usize>>,
}

impl CountHandle {
    /// The place in memory that the handle leads to.
    pub(crate) closed spec fn cell(self) -> AtomicCell<usize> {
        *self.cell
    }

    /// The handle to a new counter.
    pub(crate) fn of(cell: Arc<AtomicCell<usize>>) -> (handle: Self)
        ensures
            handle.cell() == *cell,
        opens_invariants none
    {
        CountHandle { cell }
    }

    /// Another handle to the same counter.
    pub(crate) fn share(&self) -> (handle: Self)
        ensures
            handle.cell() == self.cell(),
        opens_invariants [sharing()]
    {
        CountHandle { cell: self.cell.clone() }
    }

    /// Looks what the counter holds.
    pub(crate) fn load(&self) -> (value: usize)
        ensures
            exists|steps: nat| #[trigger]
                count_read(count_id(self.cell()), value, steps) && holds_count(
                    count_id(self.cell()),
                    value,
                    steps,
                ),
        opens_invariants none
    {
        assert(self.cell() == *self.cell);
        load_count(&self.cell)
    }
}

/// A handle to a wide counter. Nobody else can get at the place in memory that it leads to.
pub(crate) struct TotalHandle {
    cell: Arc<AtomicCell<u64>>,
}

impl TotalHandle {
    /// The place in memory that the handle leads to.
    pub(crate) closed spec fn cell(self) -> AtomicCell<u64> {
        *self.cell
    }

    /// The handle to a new wide counter.
    pub(crate) fn of(cell: Arc<AtomicCell<u64>>) -> (handle: Self)
        ensures
            handle.cell() == *cell,
        opens_invariants none
    {
        TotalHandle { cell }
    }

    /// Another handle to the same wide counter.
    pub(crate) fn share(&self) -> (handle: Self)
        ensures
            handle.cell() == self.cell(),
        opens_invariants [sharing()]
    {
        TotalHandle { cell: self.cell.clone() }
    }

    /// Looks what the wide counter holds.
    pub(crate) fn load(&self) -> (value: u64)
        ensures
            exists|steps: nat| #[trigger]
                total_read(total_id(self.cell()), value, steps) && holds_total(
                    total_id(self.cell()),
                    value,
                    steps,
                ),
        opens_invariants none
    {
        assert(self.cell() == *self.cell);
        load_total(&self.cell)
    }
}

/// Calls `AtomicCell::new`: the counter starts with the value.
#[verifier::external_body]
pub(crate) fn new_count(value: usize) -> (cell: AtomicCell<usize>)
    ensures
        counts_made(cell) == Seq::<nat>::empty(),
        count_at(count_id(cell), 0) == value,
{
    AtomicCell::new(value)
}

/// Calls `AtomicCell::load`: the value is what the counter holds at the time of the look, which is
/// after some number of steps. Which number that is depends on the other threads.
#[verifier::external_body]
fn load_count(cell: &Arc<AtomicCell<usize>>) -> (value: usize)
    ensures
        exists|steps: nat| #[trigger]
            count_read(count_id(**cell), value, steps) && holds_count(
                count_id(**cell),
                value,
                steps,
            ),
    opens_invariants none
{
    cell.load()
}

/// Calls `AtomicCell::fetch_add`: one step is made, which takes the counter from the value that is
/// returned up by `step`. It wraps around where that is too large.
#[verifier::external_body]
pub(super) fn add_count(handle: &mut CountHandle, step: usize) -> (before: usize)
    ensures
        exists|position: nat| #[trigger]
            makes_move(old(handle).cell(), final(handle).cell(), position) && count_move(
                count_id(old(handle).cell()),
                position,
            ) == Move::Up(step) && count_at(count_id(old(handle).cell()), position) == before
                && count_adds_up(count_id(old(handle).cell()), position + 1),
    opens_invariants [using()]
{
    handle.cell.fetch_add(step)
}

/// Calls `AtomicCell::fetch_sub`: one step is made, which takes the counter from the value that is
/// returned down by `step`. It wraps around where that is below zero.
#[verifier::external_body]
pub(super) fn sub_count(handle: &mut CountHandle, step: usize) -> (before: usize)
    ensures
        exists|position: nat| #[trigger]
            makes_move(old(handle).cell(), final(handle).cell(), position) && count_move(
                count_id(old(handle).cell()),
                position,
            ) == Move::Down(step) && count_at(count_id(old(handle).cell()), position) == before
                && count_adds_up(count_id(old(handle).cell()), position + 1),
    opens_invariants [using()]
{
    handle.cell.fetch_sub(step)
}

/// Calls `AtomicCell::new`: the counter starts with the value.
#[verifier::external_body]
pub(crate) fn new_total(value: u64) -> (cell: AtomicCell<u64>)
    ensures
        totals_made(cell) == Seq::<nat>::empty(),
        total_at(total_id(cell), 0) == value,
{
    AtomicCell::new(value)
}

/// Calls `AtomicCell::load`: the value is what the counter holds at the time of the look, which is
/// after some number of steps. Which number that is depends on the other threads.
#[verifier::external_body]
fn load_total(cell: &Arc<AtomicCell<u64>>) -> (value: u64)
    ensures
        exists|steps: nat| #[trigger]
            total_read(total_id(**cell), value, steps) && holds_total(
                total_id(**cell),
                value,
                steps,
            ),
    opens_invariants none
{
    cell.load()
}

/// Calls `AtomicCell::fetch_add`: one step is made, which takes the counter from the value that is
/// returned up by `step`. It wraps around where that is too large.
#[verifier::external_body]
pub(super) fn add_total(handle: &mut TotalHandle, step: u64) -> (before: u64)
    ensures
        exists|position: nat| #[trigger]
            makes_step(old(handle).cell(), final(handle).cell(), position) && total_move(
                total_id(old(handle).cell()),
                position,
            ) == step && total_at(total_id(old(handle).cell()), position) == before
                && total_adds_up(total_id(old(handle).cell()), position + 1),
    opens_invariants [using()]
{
    handle.cell.fetch_add(step)
}

} // verus!
