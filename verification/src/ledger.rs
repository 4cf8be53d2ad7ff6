//! Logs of positions.
//!
//! Everything that happens to a shared counter or a channel happens one after the other, and so has
//! a position. A log holds the positions of what was done through one handle.

use vstd::prelude::*;

verus! {

/// What is done when a thread gets a handle of its own to something that threads share. A function
/// that says it does this, and nothing else, uses no handle.
pub open spec fn sharing() -> int {
    1
}

/// What is done when something that threads share is changed through a handle. A function that says
/// it does this, and nothing else, makes no other handle.
pub open spec fn using() -> int {
    2
}

/// Whether the positions come in the order in which they happened, each once.
pub open spec fn ascending(log: Seq<nat>) -> bool {
    forall|i: int, j: int| 0 <= i < j < log.len() ==> log[i] < log[j]
}

/// Whether `after` is the log with one more position, which is later than all others.
pub open spec fn extends(before: Seq<nat>, after: Seq<nat>, position: nat) -> bool {
    &&& after == before.push(position)
    &&& forall|i: int| 0 <= i < before.len() ==> before[i] < position
}

/// How many positions of the log come before this one.
pub open spec fn below(log: Seq<nat>, position: nat) -> nat
    decreases log.len(),
{
    if log.len() == 0 {
        0
    } else if log.last() < position {
        below(log.drop_last(), position) + 1
    } else {
        below(log.drop_last(), position)
    }
}

/// Whether the position is in one of the logs.
pub open spec fn is_held(logs: Seq<Seq<nat>>, position: nat) -> bool {
    exists|i: int| 0 <= i < logs.len() && #[trigger] logs[i].contains(position)
}

/// Whether each of the first `count` positions is in one of the logs, and none is in two of them.
pub open spec fn shared_out(logs: Seq<Seq<nat>>, count: nat) -> bool {
    &&& forall|i: int| 0 <= i < logs.len() ==> ascending(#[trigger] logs[i])
    &&& forall|position: nat| position < count ==> #[trigger] is_held(logs, position)
    &&& forall|i: int, j: int, position: nat|
        0 <= i < logs.len() && 0 <= j < logs.len() && #[trigger] logs[i].contains(position)
            && #[trigger] logs[j].contains(position) ==> i == j
}

/// Whether the logs hold the first `count` positions, each once, and no others.
pub open spec fn covers(logs: Seq<Seq<nat>>, count: nat) -> bool {
    &&& shared_out(logs, count)
    &&& forall|i: int, j: int|
        0 <= i < logs.len() && 0 <= j < logs[i].len() ==> #[trigger] logs[i][j] < count
}

/// How many positions of the logs come before this one.
pub open spec fn all_below(logs: Seq<Seq<nat>>, position: nat) -> nat
    decreases logs.len(),
{
    if logs.len() == 0 {
        0
    } else {
        all_below(logs.drop_last(), position) + below(logs.last(), position)
    }
}

/// How many positions the logs hold.
pub open spec fn entries(logs: Seq<Seq<nat>>) -> nat
    decreases logs.len(),
{
    if logs.len() == 0 {
        0
    } else {
        entries(logs.drop_last()) + logs.last().len()
    }
}

/// How many of the logs have an odd number of positions before this one.
pub open spec fn odd_below(logs: Seq<Seq<nat>>, position: nat) -> nat
    decreases logs.len(),
{
    if logs.len() == 0 {
        0
    } else {
        odd_below(logs.drop_last(), position) + below(logs.last(), position) % 2
    }
}

/// A log that is extended is still in order.
pub proof fn lemma_extended_log_is_ascending(before: Seq<nat>, after: Seq<nat>, position: nat)
    requires
        ascending(before),
        extends(before, after, position),
    ensures
        ascending(after),
{
}

proof fn lemma_prefix_is_ascending(log: Seq<nat>)
    requires
        ascending(log),
        log.len() > 0,
    ensures
        ascending(log.drop_last()),
{
    let before = log.drop_last();
    assert forall|i: int, j: int| 0 <= i < j < before.len() implies before[i] < before[j] by {
        assert(before[i] == log[i] && before[j] == log[j]);
    }
}

/// In a log in order, as many positions come before an entry as its index says.
pub proof fn lemma_index_is_below(log: Seq<nat>, index: int)
    requires
        ascending(log),
        0 <= index < log.len(),
    ensures
        below(log, log[index]) == index,
        below(log, log[index] + 1) == index + 1,
    decreases log.len(),
{
    let before = log.drop_last();
    lemma_prefix_is_ascending(log);
    if index < before.len() {
        assert(before[index] == log[index]);
        lemma_index_is_below(before, index);
    } else {
        lemma_all_are_below(before, log[index]);
        lemma_all_are_below(before, log[index] + 1);
    }
}

/// If all positions come before this one, as many do as there are.
pub proof fn lemma_all_are_below(log: Seq<nat>, position: nat)
    requires
        forall|i: int| 0 <= i < log.len() ==> #[trigger] log[i] < position,
    ensures
        below(log, position) == log.len(),
    decreases log.len(),
{
    if log.len() > 0 {
        let before = log.drop_last();
        assert forall|i: int| 0 <= i < before.len() implies #[trigger] before[i] < position by {
            assert(before[i] == log[i]);
        }
        lemma_all_are_below(before, position);
        assert(log[log.len() - 1] < position);
    }
}

proof fn lemma_below_stays(log: Seq<nat>, position: nat)
    requires
        !log.contains(position),
    ensures
        below(log, position + 1) == below(log, position),
    decreases log.len(),
{
    if log.len() > 0 {
        let before = log.drop_last();
        assert(log.contains(log.last()));
        assert forall|i: int| 0 <= i < before.len() implies before[i] != position by {
            assert(before[i] == log[i]);
            assert(log.contains(log[i]));
        }
        lemma_below_stays(before, position);
    }
}

/// If no log holds the position, none has one more before the next.
pub proof fn lemma_all_stay(logs: Seq<Seq<nat>>, position: nat)
    requires
        forall|i: int| 0 <= i < logs.len() ==> !(#[trigger] logs[i]).contains(position),
    ensures
        all_below(logs, position + 1) == all_below(logs, position),
        odd_below(logs, position + 1) == odd_below(logs, position),
    decreases logs.len(),
{
    if logs.len() > 0 {
        let before = logs.drop_last();
        assert forall|i: int| 0 <= i < before.len() implies !(#[trigger] before[i]).contains(
            position,
        ) by {
            assert(before[i] == logs[i]);
        }
        lemma_all_stay(before, position);
        assert(!logs[logs.len() - 1].contains(position));
        lemma_below_stays(logs.last(), position);
    }
}

/// If one log holds the position and no other does, it has one more before the next.
pub proof fn lemma_one_moves(logs: Seq<Seq<nat>>, holder: int, index: int)
    requires
        0 <= holder < logs.len(),
        ascending(logs[holder]),
        0 <= index < logs[holder].len(),
        forall|i: int|
            0 <= i < logs.len() && i != holder ==> !(#[trigger] logs[i]).contains(
                logs[holder][index],
            ),
    ensures
        all_below(logs, logs[holder][index] + 1) == all_below(logs, logs[holder][index]) + 1,
        odd_below(logs, logs[holder][index] + 1) == odd_below(logs, logs[holder][index]) + if index
            % 2 == 0 {
            1int
        } else {
            -1int
        },
    decreases logs.len(),
{
    let position = logs[holder][index];
    let before = logs.drop_last();
    if holder < before.len() {
        assert(before[holder] == logs[holder]);
        assert forall|i: int| 0 <= i < before.len() && i != holder implies !(
        #[trigger] before[i]).contains(position) by {
            assert(before[i] == logs[i]);
        }
        lemma_one_moves(before, holder, index);
        assert(!logs[logs.len() - 1].contains(position));
        lemma_below_stays(logs.last(), position);
    } else {
        assert forall|i: int| 0 <= i < before.len() implies !(#[trigger] before[i]).contains(
            position,
        ) by {
            assert(before[i] == logs[i]);
        }
        lemma_all_stay(before, position);
        lemma_index_is_below(logs.last(), index);
    }
}

/// If the positions are shared out, the log that holds this one has one more before the next.
pub proof fn lemma_next_position(logs: Seq<Seq<nat>>, position: nat, holder: int, index: int)
    requires
        shared_out(logs, position + 1),
        0 <= holder < logs.len(),
        0 <= index < logs[holder].len(),
        logs[holder][index] == position,
    ensures
        all_below(logs, position + 1) == all_below(logs, position) + 1,
        odd_below(logs, position + 1) == odd_below(logs, position) + if index % 2 == 0 {
            1int
        } else {
            -1int
        },
{
    assert(logs[holder].contains(position));
    assert forall|i: int| 0 <= i < logs.len() && i != holder implies !(
    #[trigger] logs[i]).contains(position) by {}
    lemma_one_moves(logs, holder, index);
}

/// Before the first position there is none.
pub proof fn lemma_none_below_zero(logs: Seq<Seq<nat>>)
    ensures
        all_below(logs, 0) == 0,
        odd_below(logs, 0) == 0,
    decreases logs.len(),
{
    if logs.len() > 0 {
        lemma_none_below_zero(logs.drop_last());
        lemma_log_has_none_below_zero(logs.last());
    }
}

proof fn lemma_log_has_none_below_zero(log: Seq<nat>)
    ensures
        below(log, 0) == 0,
    decreases log.len(),
{
    if log.len() > 0 {
        lemma_log_has_none_below_zero(log.drop_last());
    }
}

/// Whatever is shared out to the logs, they hold as many positions as there are.
pub proof fn lemma_shared_out_adds_up(logs: Seq<Seq<nat>>, count: nat)
    requires
        shared_out(logs, count),
    ensures
        all_below(logs, count) == count,
    decreases count,
{
    lemma_none_below_zero(logs);
    if count > 0 {
        let position = (count - 1) as nat;
        lemma_shared_out_adds_up(logs, position);
        assert(is_held(logs, position));
        let holder = choose|i: int| 0 <= i < logs.len() && #[trigger] logs[i].contains(position);
        assert(logs[holder].contains(position));
        let index = logs[holder].index_of(position);
        lemma_next_position(logs, position, holder, index);
    }
}

/// If the logs hold the first positions and no others, their lengths add up to the count.
pub proof fn lemma_entries_add_up(logs: Seq<Seq<nat>>, count: nat)
    requires
        covers(logs, count),
    ensures
        entries(logs) == count,
{
    lemma_shared_out_adds_up(logs, count);
    lemma_entries_are_below(logs, count);
}

proof fn lemma_entries_are_below(logs: Seq<Seq<nat>>, count: nat)
    requires
        forall|i: int, j: int|
            0 <= i < logs.len() && 0 <= j < logs[i].len() ==> #[trigger] logs[i][j] < count,
    ensures
        entries(logs) == all_below(logs, count),
    decreases logs.len(),
{
    if logs.len() > 0 {
        let before = logs.drop_last();
        assert forall|i: int, j: int| 0 <= i < before.len() && 0 <= j < before[i].len() implies
            #[trigger] before[i][j] < count by {
            assert(before[i] == logs[i]);
        }
        lemma_entries_are_below(before, count);
        let last = logs.len() - 1;
        assert forall|j: int| 0 <= j < logs.last().len() implies #[trigger] logs.last()[j]
            < count by {
            assert(logs[last][j] < count);
        }
        lemma_all_are_below(logs.last(), count);
    }
}

/// No more positions of the logs come before one than there are.
pub proof fn lemma_no_more_are_below_than_there_are(logs: Seq<Seq<nat>>, position: nat)
    ensures
        all_below(logs, position) <= entries(logs),
    decreases logs.len(),
{
    if logs.len() > 0 {
        lemma_no_more_are_below_than_there_are(logs.drop_last(), position);
        lemma_log_has_no_more_below(logs.last(), position);
    }
}

proof fn lemma_log_has_no_more_below(log: Seq<nat>, position: nat)
    ensures
        below(log, position) <= log.len(),
    decreases log.len(),
{
    if log.len() > 0 {
        lemma_log_has_no_more_below(log.drop_last(), position);
    }
}

/// If no log holds more than one position, and there are as many positions before this one as there
/// are logs, every log holds one that comes before it.
pub proof fn lemma_every_log_has_one(logs: Seq<Seq<nat>>, position: nat)
    requires
        forall|i: int| 0 <= i < logs.len() ==> (#[trigger] logs[i]).len() <= 1,
    ensures
        all_below(logs, position) <= logs.len(),
        all_below(logs, position) == logs.len() ==> forall|i: int|
            0 <= i < logs.len() ==> (#[trigger] logs[i]).len() == 1 && logs[i][0] < position,
    decreases logs.len(),
{
    if logs.len() > 0 {
        let before = logs.drop_last();
        let last = logs.len() - 1;
        assert forall|i: int| 0 <= i < before.len() implies (#[trigger] before[i]).len() <= 1 by {
            assert(before[i] == logs[i]);
        }
        lemma_every_log_has_one(before, position);
        assert(logs[last].len() <= 1);
        reveal_with_fuel(below, 2);
        if all_below(logs, position) == logs.len() {
            assert forall|i: int| 0 <= i < logs.len() implies (#[trigger] logs[i]).len() == 1
                && logs[i][0] < position by {
                if i < last {
                    assert(before[i] == logs[i]);
                }
            }
        }
    }
}

/// No more logs have an odd number of positions than there are logs, and none has if all have an
/// even number.
pub proof fn lemma_odd_logs(logs: Seq<Seq<nat>>, position: nat)
    ensures
        odd_below(logs, position) <= logs.len(),
        (forall|i: int|
            0 <= i < logs.len() ==> below(#[trigger] logs[i], position) % 2 == 0) ==> odd_below(
            logs,
            position,
        ) == 0,
    decreases logs.len(),
{
    if logs.len() > 0 {
        let before = logs.drop_last();
        lemma_odd_logs(before, position);
        if forall|i: int| 0 <= i < logs.len() ==> below(#[trigger] logs[i], position) % 2 == 0 {
            assert forall|i: int| 0 <= i < before.len() implies below(#[trigger] before[i], position)
                % 2 == 0 by {
                assert(before[i] == logs[i]);
            }
            assert(below(logs[logs.len() - 1], position) % 2 == 0);
        }
    }
}

} // verus!
