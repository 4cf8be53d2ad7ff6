//! Counters that threads share.
//!
//! Any thread may change a counter at any time, so what it holds at one moment is not a property of
//! the counter. But it changes in steps, one after the other, so each step has a position, and what
//! the counter holds after the first so many steps is fixed over its whole life. A handle to a
//! counter that one thread owns has a log of the positions of the steps made through it.

pub mod cell;

use crate::laws::{
    group_pools_are_built, group_tasks_are_submitted, group_threads_are_added,
};
use crate::ledger::{extends, using};
use cell::{CountHandle, TotalHandle};
use crossbeam_utils::atomic::AtomicCell;
use vstd::prelude::*;

verus! {

/// A place in memory that threads share.
#[verifier::external_type_specification]
#[verifier::external_body]
#[verifier::reject_recursive_types(T)]
pub struct ExAtomicCell<T>(crossbeam_utils::atomic::AtomicCell<T>);

/// A step of a counter.
pub enum Move {
    /// It goes up by so much.
    Up(usize),
    /// It goes down by so much.
    Down(usize),
}

/// What a step makes of a value. It wraps around at the ends.
pub open spec fn moved(value: usize, step: Move) -> usize {
    match step {
        Move::Up(by) => value.wrapping_add(by),
        Move::Down(by) => value.wrapping_sub(by),
    }
}

/// The counter that a handle leads to.
pub uninterp spec fn count_id(cell: AtomicCell<usize>) -> int;

/// The positions of the steps that have been made through the handle.
pub uninterp spec fn counts_made(cell: AtomicCell<usize>) -> Seq<nat>;

/// What the counter holds after its first so many steps.
pub uninterp spec fn count_at(counter: int, steps: nat) -> usize;

/// Whether somebody reads the value from the counter after its first so many steps.
pub uninterp spec fn count_read(counter: int, value: usize, steps: nat) -> bool;

/// The step of the counter at this position.
pub uninterp spec fn count_move(counter: int, position: nat) -> Move;

/// The wide counter that a handle leads to.
pub uninterp spec fn total_id(cell: AtomicCell<u64>) -> int;

/// The positions of the steps that have been made through the handle.
pub uninterp spec fn totals_made(cell: AtomicCell<u64>) -> Seq<nat>;

/// What the wide counter holds after its first so many steps.
pub uninterp spec fn total_at(counter: int, steps: nat) -> u64;

/// Whether somebody reads the value from the wide counter after its first so many steps.
pub uninterp spec fn total_read(counter: int, value: u64, steps: nat) -> bool;

/// By how much the step at this position takes the wide counter up.
pub uninterp spec fn total_move(counter: int, position: nat) -> u64;

/// Whether what the counter holds after its first so many steps has come out of them. It always
/// has: nothing but [`count_up`] and [`count_down`] changes a counter.
pub open spec fn count_adds_up(counter: int, steps: nat) -> bool {
    forall|position: nat|
        position < steps ==> count_at(counter, position + 1) == moved(
            count_at(counter, position),
            #[trigger] count_move(counter, position),
        )
}

/// Whether what the wide counter holds after its first so many steps has come out of them. It
/// always has: nothing but [`total_up`] changes a wide counter.
pub open spec fn total_adds_up(counter: int, steps: nat) -> bool {
    forall|position: nat|
        position < steps ==> total_at(counter, position + 1) == total_at(
            counter,
            position,
        ).wrapping_add(#[trigger] total_move(counter, position))
}

/// Whether the counter holds the value after its first so many steps.
pub open spec fn holds_count(counter: int, value: usize, steps: nat) -> bool {
    &&& count_at(counter, steps) == value
    &&& count_adds_up(counter, steps)
}

/// Whether the wide counter holds the value after its first so many steps.
pub open spec fn holds_total(counter: int, value: u64, steps: nat) -> bool {
    &&& total_at(counter, steps) == value
    &&& total_adds_up(counter, steps)
}

/// Whether one step is made through a handle, and no other.
pub open spec fn makes_move(
    before: AtomicCell<usize>,
    after: AtomicCell<usize>,
    position: nat,
) -> bool {
    &&& count_id(after) == count_id(before)
    &&& extends(counts_made(before), counts_made(after), position)
}

/// Whether one step up is made through a handle, and no other.
pub open spec fn makes_step(
    before: AtomicCell<u64>,
    after: AtomicCell<u64>,
    position: nat,
) -> bool {
    &&& total_id(after) == total_id(before)
    &&& extends(totals_made(before), totals_made(after), position)
}

/// Takes the counter up by one. No pool is built, no task is submitted and no thread is added by that.
pub(crate) fn count_up(handle: &mut CountHandle)
    ensures
        exists|position: nat| #[trigger]
            makes_move(old(handle).cell(), final(handle).cell(), position) && count_move(
                count_id(old(handle).cell()),
                position,
            ) == Move::Up(1) && count_adds_up(count_id(old(handle).cell()), position + 1),
    opens_invariants [using()]
{
    broadcast use group_pools_are_built, group_tasks_are_submitted, group_threads_are_added;

    let _before: usize = cell::add_count(handle, 1);
}

/// Shows that a counter has been taken down by one.
pub(crate) struct Down {
    _down: (),
}

/// Takes the counter down by one. No pool is built, no task is submitted and no thread is added by
/// that.
pub(crate) fn count_down(handle: &mut CountHandle) -> (down: Down)
    ensures
        exists|position: nat| #[trigger]
            makes_move(old(handle).cell(), final(handle).cell(), position) && count_move(
                count_id(old(handle).cell()),
                position,
            ) == Move::Down(1) && count_adds_up(count_id(old(handle).cell()), position + 1),
    opens_invariants [using()]
{
    broadcast use group_pools_are_built, group_tasks_are_submitted, group_threads_are_added;

    let _before: usize = cell::sub_count(handle, 1);
    Down { _down: () }
}

/// Takes the wide counter up by one, after another counter has been taken down. No pool is built, no
/// task is submitted and no thread is added by that.
pub(crate) fn total_up(handle: &mut TotalHandle, _down: Down)
    ensures
        exists|position: nat| #[trigger]
            makes_step(old(handle).cell(), final(handle).cell(), position) && total_move(
                total_id(old(handle).cell()),
                position,
            ) == 1 && total_adds_up(total_id(old(handle).cell()), position + 1),
    opens_invariants [using()]
{
    broadcast use group_pools_are_built, group_tasks_are_submitted, group_threads_are_added;

    let _before: u64 = cell::add_total(handle, 1);
}

/// A step changes what a counter holds by so much, as long as that can be counted.
pub proof fn lemma_steps_count(value: usize, by: usize)
    ensures
        value + by <= usize::MAX ==> moved(value, Move::Up(by)) == value + by,
        by <= value ==> moved(value, Move::Down(by)) == value - by,
{
}

} // verus!
