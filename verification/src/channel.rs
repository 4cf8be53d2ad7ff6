//! Channels of thunks.
//!
//! Any number of threads may use a channel at the same time, so what it holds at one moment is
//! not a property of its ends. What stays true once it is true can be stated of them. The messages
//! of a channel go into it one after the other, so each has a position; which thunk is at a
//! position, and which receiver gets it, is fixed over the whole life of the channel. A receiver
//! that one thread owns has a log of the positions that it has received.

use crate::laws::{
    group_pools_are_built, group_tasks_are_submitted, group_threads_are_added, law_hire_for,
};
use crate::ledger::{extends, sharing, using};
use crate::thunk::Thunk;
use crossbeam_channel::{Receiver, Select, Sender, TrySendError};
use std::time::Duration;
use vstd::prelude::*;

verus! {

/// The sending end of a channel.
#[verifier::external_type_specification]
#[verifier::external_body]
#[verifier::reject_recursive_types(T)]
pub struct ExSender<T>(crossbeam_channel::Sender<T>);

/// The receiving end of a channel.
#[verifier::external_type_specification]
#[verifier::external_body]
#[verifier::reject_recursive_types(T)]
pub struct ExReceiver<T>(crossbeam_channel::Receiver<T>);

/// The channel that a sender sends into.
pub uninterp spec fn sender_channel(sender: Sender<Thunk>) -> int;

/// The channel that a receiver receives from.
pub uninterp spec fn receiver_channel(receiver: Receiver<Thunk>) -> int;

/// How many messages the channel of a sender has room for; `None` if there is no limit.
pub uninterp spec fn sender_limit(sender: Sender<Thunk>) -> Option<nat>;

/// Tells the receivers of a channel apart.
pub uninterp spec fn receiver_id(receiver: Receiver<Thunk>) -> int;

/// The positions of the messages that have been received through this receiver.
pub uninterp spec fn received(receiver: Receiver<Thunk>) -> Seq<nat>;

/// Whether the channel takes a message in at this position at some time.
pub uninterp spec fn takes_in(channel: int, position: nat) -> bool;

/// The message at this position of the channel.
pub uninterp spec fn message(channel: int, position: nat) -> Thunk;

/// The receiver that gets the message at this position at some time; `None` if there is none.
pub uninterp spec fn taker(channel: int, position: nat) -> Option<int>;

/// Whether, at some time, this many messages have gone into the channel and this many have been
/// received.
pub uninterp spec fn stands_at(channel: int, sent: nat, taken: nat) -> bool;

/// Whether somebody looks how many messages the channel holds, and finds this many at a time when the
/// first `taken` have been received.
pub uninterp spec fn messages_read(channel: int, count: nat, taken: nat) -> bool;

/// Whether a channel does not take the thunk in at some time when it is offered, because no receiver
/// is waiting and there is no room.
pub uninterp spec fn refuses(channel: int, thunk: Thunk) -> bool;

/// Whether a sender of the channel is dropped at some time.
pub uninterp spec fn loses_sender(channel: int) -> bool;

/// Whether the channel is empty at some time when it has no sender any more.
pub uninterp spec fn ends(channel: int) -> bool;

/// How often this receiver has taken part in a wait for either of two channels.
pub uninterp spec fn waits_made(receiver: Receiver<Thunk>) -> nat;

/// Whether somebody waits for either channel, at most for so many seconds, and the wait ends in this
/// way.
pub uninterp spec fn waits_for_either(first: int, second: int, seconds: u64, wake: Wake) -> bool;

/// Whether the channel takes the thunk in from one of its senders at some time.
pub open spec fn carries(channel: int, thunk: Thunk) -> bool {
    exists|position: nat| #[trigger]
        takes_in(channel, position) && message(channel, position) == thunk
}

/// Whether the channel takes the thunk in and a receiver gets it at some time.
pub open spec fn delivers(channel: int, thunk: Thunk) -> bool {
    exists|position: nat| #[trigger]
        takes_in(channel, position) && message(channel, position) == thunk && taker(
            channel,
            position,
        ) is Some
}

/// Whether the channel holds this many messages at some time when the first `taken` have been
/// received: those that have gone in and have not been received by then. What has been received is
/// what went in first.
pub open spec fn holds_messages(channel: int, count: nat, taken: nat) -> bool {
    &&& stands_at(channel, taken + count, taken)
    &&& has_taken_in(channel, taken + count)
    &&& has_given_out(channel, taken)
}

/// Whether a look at the channel finds this many messages.
pub open spec fn finds_messages(channel: int, count: nat) -> bool {
    exists|taken: nat| #[trigger]
        messages_read(channel, count, taken) && holds_messages(channel, count, taken)
}

/// Whether the channel takes in this many messages at some time.
pub open spec fn has_taken_in(channel: int, count: nat) -> bool {
    forall|position: nat| position < count ==> #[trigger] takes_in(channel, position)
}

/// Whether the first messages of the channel, this many, are received at some time.
pub open spec fn has_given_out(channel: int, count: nat) -> bool {
    forall|position: nat|
        position < count ==> takes_in(channel, position) && #[trigger] taker(channel, position)
            is Some
}

/// Whether every message that ever goes into the channel is received at some time.
pub open spec fn exhausted(channel: int) -> bool {
    forall|position: nat| #[trigger]
        takes_in(channel, position) ==> taker(channel, position) is Some
}

/// What a receiver is: an end of a channel, what has come out of it, and how often it has taken part
/// in a wait for either of two channels.
pub struct ReceiverView {
    pub channel: int,
    pub id: int,
    pub taken: Seq<nat>,
    pub waits: nat,
}

impl ReceiverView {
    /// The receiver after one more wait.
    pub open spec fn waited(self) -> ReceiverView {
        ReceiverView { waits: self.waits + 1, ..self }
    }

    /// Whether the receiver gets the message at this position, and nothing else. Messages come out
    /// in the order in which they went in: all that went in before have a receiver already.
    pub open spec fn gets_at(self, after: ReceiverView, position: nat) -> bool {
        &&& after.channel == self.channel
        &&& after.id == self.id
        &&& after.waits == self.waits
        &&& extends(self.taken, after.taken, position)
        &&& takes_in(self.channel, position)
        &&& taker(self.channel, position) == Some(self.id)
        &&& has_given_out(self.channel, position)
    }

    /// Whether the channel has no sender any more, and everything that ever went in has been
    /// received.
    pub open spec fn is_closed(self) -> bool {
        ends(self.channel) && exhausted(self.channel)
    }

    /// Whether the receiver gets the thunk, and nothing else.
    pub open spec fn gets(self, after: ReceiverView, thunk: Thunk) -> bool {
        exists|position: nat| #[trigger]
            self.gets_at(after, position) && message(self.channel, position) == thunk
    }
}

/// What a receiver is.
pub open spec fn receiver_view(receiver: Receiver<Thunk>) -> ReceiverView {
    ReceiverView {
        channel: receiver_channel(receiver),
        id: receiver_id(receiver),
        taken: received(receiver),
        waits: waits_made(receiver),
    }
}

/// How many bytes a place for one message takes at most: a stamp of 8 bytes, and a thunk, which is
/// two words.
pub open spec fn place_size() -> int {
    8 + usize::BITS as int / 4
}

/// Whether room for this many messages can be had at all. No block of memory is larger than
/// `isize::MAX` bytes.
pub open spec fn limit_fits(limit: usize) -> bool {
    limit * place_size() <= isize::MAX
}

proof fn lemma_fits_by_division(count: int, size: int, room: int)
    by (nonlinear_arith)
    requires
        size > 0,
        count >= 0,
        room >= 0,
    ensures
        count <= room / size <==> count * size <= room,
{
}

/// Says whether room for this many messages can be had at all.
pub fn is_possible_limit(limit: usize) -> (possible: bool)
    ensures
        possible == limit_fits(limit),
{
    let size: usize = 8 + usize::BITS as usize / 4;
    let most: usize = isize::MAX as usize / size;
    proof {
        lemma_fits_by_division(limit as int, size as int, isize::MAX as int);
    }
    limit <= most
}

/// Why a thunk could not be sent at once. The thunk comes back.
pub enum Refused {
    /// No receiver is waiting and there is no room.
    Full(Thunk),
    /// There is no receiver any more.
    Disconnected(Thunk),
}

/// How the wait for a thunk ended.
pub enum Wake {
    /// A thunk came in.
    Received(Thunk),
    /// One of the channels is empty and has no sender any more.
    Disconnected,
    /// Nothing happened for the time that was given.
    TimedOut,
}

/// Calls `crossbeam_channel::bounded`: the ends belong to one new channel, which is empty and has
/// the capacity `limit`. The call panics if the buffer cannot be allocated.
#[verifier::external_body]
pub(crate) fn bounded(limit: usize) -> (ends: (Sender<Thunk>, Receiver<Thunk>))
    requires
        limit_fits(limit),
    ensures
        sender_channel(ends.0) == receiver_channel(ends.1),
        sender_limit(ends.0) == Some(limit as nat),
        stands_at(sender_channel(ends.0), 0, 0),
        received(ends.1) == Seq::<nat>::empty(),
{
    crossbeam_channel::bounded(limit)
}

/// Calls `crossbeam_channel::unbounded`: the ends belong to one new channel, which is empty and
/// has no limit.
#[verifier::external_body]
pub(crate) fn unbounded() -> (ends: (Sender<Thunk>, Receiver<Thunk>))
    ensures
        sender_channel(ends.0) == receiver_channel(ends.1),
        sender_limit(ends.0) is None,
        stands_at(sender_channel(ends.0), 0, 0),
        received(ends.1) == Seq::<nat>::empty(),
{
    crossbeam_channel::unbounded()
}

/// Calls `Receiver::clone`: the clone receives from the same channel, and nothing has been
/// received through it.
#[verifier::external_body]
fn clone_receiver(receiver: &Receiver<Thunk>) -> (clone: Receiver<Thunk>)
    ensures
        receiver_channel(clone) == receiver_channel(*receiver),
        received(clone) == Seq::<nat>::empty(),
    opens_invariants [sharing()]
{
    receiver.clone()
}

/// Drops the `Sender` of the two ends, which closes the channel if it has no other, and keeps the
/// `Receiver`.
#[verifier::external_body]
fn drop_sender(ends: (Sender<Thunk>, Receiver<Thunk>)) -> (receiver: Receiver<Thunk>)
    requires
        sender_channel(ends.0) == receiver_channel(ends.1),
    ensures
        receiver == ends.1,
        loses_sender(receiver_channel(receiver)),
{
    drop(ends.0);
    ends.1
}

/// Closes the channel in which tasks are queued.
pub(crate) fn close_queue(ends: (Sender<Thunk>, Receiver<Thunk>)) -> (receiver: Receiver<Thunk>)
    requires
        sender_channel(ends.0) == receiver_channel(ends.1),
    ensures
        receiver == ends.1,
        loses_sender(receiver_channel(receiver)),
{
    drop_sender(ends)
}

/// Shows that the queue of a pool was closed before the other channel.
pub(crate) struct ClosedInOrder {
    _closed: (),
}

/// Closes the channel on which tasks are handed to workers that wait, which holds none. The queue has
/// to be closed before.
pub(crate) fn close_immediate(
    ends: (Sender<Thunk>, Receiver<Thunk>),
    _queue: &Receiver<Thunk>,
) -> (closed: (Receiver<Thunk>, ClosedInOrder))
    requires
        sender_channel(ends.0) == receiver_channel(ends.1),
        sender_limit(ends.0) == Some(0nat),
        loses_sender(receiver_channel(*_queue)),
    ensures
        closed.0 == ends.1,
        loses_sender(receiver_channel(closed.0)),
{
    (drop_sender(ends), ClosedInOrder { _closed: () })
}

/// Calls `Sender::len`: the channel holds that many messages at the time of the look, and if it has a
/// limit, never more than that. Which time that is depends on the other threads.
#[verifier::external_body]
fn len(sender: &Sender<Thunk>) -> (count: usize)
    ensures
        exists|taken: nat| #[trigger]
            messages_read(sender_channel(*sender), count as nat, taken) && holds_messages(
                sender_channel(*sender),
                count as nat,
                taken,
            ),
        sender_limit(*sender) matches Some(limit) ==> count <= limit,
    opens_invariants none
{
    sender.len()
}

/// Calls `Sender::try_send`: the thunk goes into the channel, or it comes back. A channel that holds
/// no messages takes one in only if a receiver is waiting for it. A channel is not disconnected while
/// it has a receiver, which `_receiver` shows.
#[verifier::external_body]
pub(crate) fn try_send(
    sender: &Sender<Thunk>,
    _receiver: &Receiver<Thunk>,
    thunk: Thunk,
) -> (sent: Result<(), Refused>)
    requires
        sender_channel(*sender) == receiver_channel(*_receiver),
    ensures
        match sent {
            Ok(_) => exists|position: nat| #[trigger]
                takes_in(sender_channel(*sender), position) && message(
                    sender_channel(*sender),
                    position,
                ) == thunk && (sender_limit(*sender) == Some(0nat) ==> taker(
                    sender_channel(*sender),
                    position,
                ) is Some),
            Err(Refused::Full(back)) => back == thunk && refuses(sender_channel(*sender), thunk),
            Err(Refused::Disconnected(_)) => false,
        },
{
    match sender.try_send(thunk) {
        Ok(()) => Ok(()),
        Err(TrySendError::Full(back)) => Err(Refused::Full(back)),
        Err(TrySendError::Disconnected(back)) => Err(Refused::Disconnected(back)),
    }
}

/// Calls `Sender::send`, which blocks until there is room: the thunk goes into the channel. The
/// call fails only if the channel has no receiver, and `_receiver` is one.
#[verifier::external_body]
pub(crate) fn send(
    sender: &Sender<Thunk>,
    _receiver: &Receiver<Thunk>,
    thunk: Thunk,
) -> (sent: Result<(), Thunk>)
    requires
        sender_channel(*sender) == receiver_channel(*_receiver),
    ensures
        match sent {
            Ok(_) => carries(sender_channel(*sender), thunk),
            Err(_) => false,
        },
{
    sender.send(thunk).map_err(|error| error.into_inner())
}

/// Calls `Receiver::recv`, which blocks until there is a message or no sender: the thunk that comes
/// out, if any, is the first of those that went into the channel and have no receiver yet. Nothing
/// comes out only if the channel is empty and has no sender any more, so every message that ever went
/// in has been received.
#[verifier::external_body]
fn recv(receiver: &mut Receiver<Thunk>) -> (thunk: Option<Thunk>)
    ensures
        match thunk {
            Some(thunk) => exists|position: nat| #[trigger]
                takes_in(receiver_channel(*old(receiver)), position) && message(
                    receiver_channel(*old(receiver)),
                    position,
                ) == thunk && taker(receiver_channel(*old(receiver)), position) == Some(
                    receiver_id(*old(receiver)),
                ) && receiver_view(*old(receiver)).gets_at(receiver_view(*final(receiver)), position),
            None => {
                &&& *final(receiver) == *old(receiver)
                &&& ends(receiver_channel(*old(receiver)))
                &&& exhausted(receiver_channel(*old(receiver)))
            },
        },
    opens_invariants [using()]
{
    receiver.recv().ok()
}

/// Calls `Select::select_timeout` for a receive operation on each of the two channels, which waits
/// once, for both of them and at most for so many seconds: one receiver gets the first message that
/// has no receiver yet, or a receive operation fails because its channel is empty and has no sender,
/// or neither happens for the whole time. Which channel is taken if both are ready is left to chance.
#[verifier::external_body]
fn recv_either(
    first: &mut Receiver<Thunk>,
    second: &mut Receiver<Thunk>,
    seconds: u64,
) -> (wake: Wake)
    ensures
        waits_for_either(
            receiver_channel(*old(first)),
            receiver_channel(*old(second)),
            seconds,
            wake,
        ),
        waits_made(*final(first)) == waits_made(*old(first)) + 1,
        waits_made(*final(second)) == waits_made(*old(second)) + 1,
        match wake {
            Wake::Received(thunk) => {
                ||| receiver_view(*old(first)).waited().gets(receiver_view(*final(first)), thunk)
                    && receiver_view(*final(second)) == receiver_view(*old(second)).waited()
                ||| receiver_view(*old(second)).waited().gets(receiver_view(*final(second)), thunk)
                    && receiver_view(*final(first)) == receiver_view(*old(first)).waited()
            },
            Wake::Disconnected => {
                &&& receiver_view(*final(first)) == receiver_view(*old(first)).waited()
                &&& receiver_view(*final(second)) == receiver_view(*old(second)).waited()
                &&& {
                    ||| ends(receiver_channel(*old(first))) && exhausted(
                        receiver_channel(*old(first)),
                    )
                    ||| ends(receiver_channel(*old(second))) && exhausted(
                        receiver_channel(*old(second)),
                    )
                }
            },
            Wake::TimedOut => {
                &&& receiver_view(*final(first)) == receiver_view(*old(first)).waited()
                &&& receiver_view(*final(second)) == receiver_view(*old(second)).waited()
            },
        },
    opens_invariants [using()]
{
    let receivers = [&*first, &*second];
    let mut select = Select::new();
    select.recv(receivers[0]);
    select.recv(receivers[1]);
    match select.select_timeout(Duration::from_secs(seconds)) {
        Ok(operation) => {
            let index = operation.index();
            operation.recv(receivers[index]).map_or(Wake::Disconnected, Wake::Received)
        },
        Err(_) => Wake::TimedOut,
    }
}

/// Counts the messages that the channel holds. No pool is built and no task is submitted by looking
/// at that.
pub(crate) fn count_messages(sender: &Sender<Thunk>) -> (count: usize)
    ensures
        finds_messages(sender_channel(*sender), count as nat),
        sender_limit(*sender) matches Some(limit) ==> count <= limit,
    opens_invariants none
{
    broadcast use group_pools_are_built, group_tasks_are_submitted, group_threads_are_added;

    len(sender)
}

/// A receiving end that one worker owns: whatever comes out of it is in its log.
pub struct Inlet {
    receiver: Receiver<Thunk>,
}

impl View for Inlet {
    type V = ReceiverView;

    closed spec fn view(&self) -> ReceiverView {
        receiver_view(self.receiver)
    }
}

impl Inlet {
    /// A new end of the channel that a receiver receives from.
    pub(crate) fn of(receiver: &Receiver<Thunk>) -> (inlet: Self)
        ensures
            inlet@.channel == receiver_channel(*receiver),
            inlet@.taken == Seq::<nat>::empty(),
        opens_invariants [sharing()]
    {
        Inlet { receiver: clone_receiver(receiver) }
    }

    /// Takes the next thunk out of the channel, and waits for it if there is none. Returns `None` if
    /// there will be none.
    pub(crate) fn next(&mut self) -> (thunk: Option<Thunk>)
        ensures
            match thunk {
                Some(thunk) => old(self)@.gets(final(self)@, thunk),
                None => final(self)@ == old(self)@ && old(self)@.is_closed(),
            },
        opens_invariants [using()]
    {
        broadcast use group_pools_are_built, group_tasks_are_submitted, group_threads_are_added;
        broadcast use law_hire_for;

        recv(&mut self.receiver)
    }

    /// Waits for a thunk from either channel, at most for so many seconds.
    pub(crate) fn next_of_either(&mut self, other: &mut Inlet, seconds: u64) -> (wake: Wake)
        ensures
            waits_for_either(old(self)@.channel, old(other)@.channel, seconds, wake),
            match wake {
                Wake::Received(thunk) => {
                    ||| old(self)@.waited().gets(final(self)@, thunk) && final(other)@ == old(
                        other,
                    )@.waited()
                    ||| old(other)@.waited().gets(final(other)@, thunk) && final(self)@ == old(
                        self,
                    )@.waited()
                },
                _ => {
                    &&& final(self)@ == old(self)@.waited()
                    &&& final(other)@ == old(other)@.waited()
                    &&& wake is Disconnected ==> old(self)@.is_closed() || old(other)@.is_closed()
                },
            },
        opens_invariants [using()]
    {
        broadcast use group_pools_are_built, group_tasks_are_submitted, group_threads_are_added;
        broadcast use law_hire_for;

        recv_either(&mut self.receiver, &mut other.receiver, seconds)
    }
}

/// A limit fits exactly if that many places, of 24 bytes on a machine with words of 64 bits and of 16
/// on one with words of 32, are no larger than a block of memory can be. Less fits where more does.
pub proof fn lemma_limits(limit: usize, less: usize)
    requires
        less <= limit,
    ensures
        usize::BITS == 64 ==> (limit_fits(limit) <==> limit * 24 <= isize::MAX),
        usize::BITS == 32 ==> (limit_fits(limit) <==> limit * 16 <= isize::MAX),
        limit_fits(limit) ==> limit_fits(less),
        limit_fits(0),
{
    assert(less * place_size() <= limit * place_size()) by (nonlinear_arith)
        requires
            less <= limit,
            place_size() >= 0,
    ;
}

} // verus!
