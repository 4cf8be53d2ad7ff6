use crate::channel;
use crate::channel::{Inlet, ReceiverView, Wake};
use crate::counter::{count_move, total_move, Move};
use crate::ledger::{ascending, extends, lemma_extended_log_is_ascending};
use crate::roster::{change_at, Change};
use crate::shared::{Handle, SharedView};
use crate::thunk::tally::Record;
use crate::thunk::Thunk;
use vstd::prelude::*;

verus! {

/// What a worker is doing.
#[derive(Copy, Clone, Debug, PartialEq, Eq, Structural)]
pub enum Phase {
    /// It waits for tasks.
    Listening,
    /// The pool is shutting down, and it executes the tasks that are still queued.
    Draining,
    /// It has stopped.
    Finished,
}

/// What a worker meets when it looks for a task.
pub enum Event {
    /// A task came in.
    Task(Thunk),
    /// The pool is shutting down.
    Disconnected,
    /// No task came in for the idle time, and the pool does not need the worker any more.
    Retired,
    /// No task came in for the idle time, but the pool keeps the worker as a core thread.
    Kept,
    /// No task is queued, and none will be.
    Drained,
}

/// What an event makes of a worker, and the task that the worker is to execute.
pub open spec fn reaction(phase: Phase, event: Event) -> (Phase, Option<Thunk>) {
    match (phase, event) {
        (Phase::Listening, Event::Task(thunk)) => (Phase::Listening, Some(thunk)),
        (Phase::Listening, Event::Kept) => (Phase::Listening, None),
        (Phase::Listening, Event::Disconnected) => (Phase::Draining, None),
        (Phase::Draining, Event::Task(thunk)) => (Phase::Draining, Some(thunk)),
        _ => (Phase::Finished, None),
    }
}

/// Whether every message that has been received is a task that has been executed, and the messages
/// came in the order in which they went into the channel, each once.
pub open spec fn all_done(inlet: ReceiverView) -> bool {
    &&& ascending(inlet.taken)
    &&& forall|i: int|
        0 <= i < inlet.taken.len() ==> {
            &&& channel::takes_in(inlet.channel, #[trigger] inlet.taken[i])
            &&& channel::taker(inlet.channel, inlet.taken[i]) == Some(inlet.id)
            &&& channel::has_given_out(inlet.channel, inlet.taken[i])
            &&& channel::message(inlet.channel, inlet.taken[i]).done()
        }
}

/// What a worker is.
pub struct WorkerView {
    /// The task that it executes first.
    pub initial_thunk: Option<Thunk>,
    /// Where tasks are handed to it while it waits.
    pub immediate: ReceiverView,
    /// Where it takes tasks that are queued.
    pub overflow: ReceiverView,
    /// The state of the pool that it belongs to.
    pub shared: SharedView,
    /// The positions of the changes that it has made to the roster of the pool.
    pub changes: Seq<nat>,
    /// The tasks that it has counted.
    pub record: Record,
    /// What it is doing.
    pub phase: Phase,
    /// Whether it counts as one of the pool's threads.
    pub enlisted: bool,
}

impl WorkerView {
    /// The worker has not run yet, and is counted.
    pub open spec fn fresh(self) -> bool {
        &&& self.immediate.taken == Seq::<nat>::empty()
        &&& self.overflow.taken == Seq::<nat>::empty()
        &&& self.record == Record::empty()
        &&& self.phase == Phase::Listening
        &&& self.enlisted
    }

    /// Whether this is the same worker at another time.
    pub open spec fn same_worker(self, other: WorkerView) -> bool {
        &&& self.immediate.channel == other.immediate.channel
        &&& self.immediate.id == other.immediate.id
        &&& self.overflow.channel == other.overflow.channel
        &&& self.overflow.id == other.overflow.id
        &&& self.shared == other.shared
    }

    /// Whether a wait for a task from either channel, for at most the idle time, ends in this way.
    pub open spec fn waits(self, wake: Wake) -> bool {
        channel::waits_for_either(
            self.immediate.channel,
            self.overflow.channel,
            self.shared.idle_timeout,
            wake,
        )
    }

    /// The worker after one wait.
    pub open spec fn waited(self) -> WorkerView {
        WorkerView {
            immediate: self.immediate.waited(),
            overflow: self.overflow.waited(),
            ..self
        }
    }

    /// Whether the worker meets the event when it looks for a task, and `after` is what it is then.
    /// A worker that listens waits once, for both channels and at most for the idle time, and the
    /// event is how the wait ends. A task that it meets is the one message that it receives. It
    /// learns from the channels that the pool is shutting down, and from the roster whether it
    /// retires when it is idle. One that drains the queue goes on until the queue is empty and
    /// closed.
    pub open spec fn meets(self, event: Event, after: WorkerView) -> bool {
        let waited = self.waited();
        match (self.phase, event) {
            (Phase::Listening, Event::Task(thunk)) => {
                &&& self.waits(Wake::Received(thunk))
                &&& {
                    ||| after == (WorkerView { immediate: after.immediate, ..waited })
                        && waited.immediate.gets(after.immediate, thunk)
                    ||| after == (WorkerView { overflow: after.overflow, ..waited })
                        && waited.overflow.gets(after.overflow, thunk)
                }
            },
            (Phase::Listening, Event::Disconnected) => {
                &&& self.waits(Wake::Disconnected)
                &&& after == waited
                &&& self.immediate.is_closed() || self.overflow.is_closed()
            },
            (Phase::Listening, Event::Retired) => {
                &&& self.waits(Wake::TimedOut)
                &&& after == (WorkerView { changes: after.changes, enlisted: false, ..waited })
                &&& if self.enlisted {
                    self.shared.logs_change(self.changes, after.changes, Change::Retire)
                } else {
                    after.changes == self.changes
                }
            },
            (Phase::Listening, Event::Kept) => {
                &&& self.waits(Wake::TimedOut)
                &&& after == waited
                &&& self.shared.denies(Change::Retire)
            },
            (Phase::Draining, Event::Task(thunk)) => {
                &&& after == (WorkerView { overflow: after.overflow, ..self })
                &&& self.overflow.gets(after.overflow, thunk)
            },
            (Phase::Draining, Event::Drained) => after == self && self.overflow.is_closed(),
            _ => false,
        }
    }

    /// Whether `after` is what the event makes of the worker.
    pub open spec fn reacts(self, event: Event, after: WorkerView) -> bool {
        after == (WorkerView { phase: reaction(self.phase, event).0, ..self })
    }

    /// Whether the worker meets the event and goes on as it asks for.
    pub open spec fn steps(self, event: Event, after: WorkerView) -> bool {
        let between = WorkerView { phase: self.phase, ..after };
        &&& self.meets(event, between)
        &&& between.reacts(event, after)
    }

    /// Whether `after` is what is left of the worker once it has looked for a task, and `found`
    /// what it found. The task that it was started with comes before all others, and a worker that
    /// has stopped looks no more. What the worker receives is what it found, and nothing else.
    pub open spec fn advances(self, after: WorkerView, found: Option<Thunk>) -> bool {
        if self.initial_thunk is Some {
            &&& after == (WorkerView { initial_thunk: None, ..self })
            &&& found == self.initial_thunk
        } else if self.phase == Phase::Finished {
            &&& after == self
            &&& found is None
        } else {
            exists|event: Event| #[trigger]
                self.steps(event, after) && found == reaction(self.phase, event).1
        }
    }

    /// Whether the worker executes what it found, if anything, and counts it once.
    pub open spec fn executes(self, found: Option<Thunk>, after: WorkerView) -> bool {
        match found {
            Some(thunk) => {
                &&& thunk.done()
                &&& after == (WorkerView { record: after.record, ..self })
                &&& self.record.counts(
                    after.record,
                    self.shared.running,
                    self.shared.completed,
                    thunk,
                )
            },
            None => after == self,
        }
    }

    /// Whether the worker looks for a task and executes what it found.
    pub open spec fn runs(self, after: WorkerView) -> bool {
        exists|between: WorkerView, found: Option<Thunk>| #[trigger]
            self.advances(between, found) && between.executes(found, after)
    }

    /// How many tasks a worker that was started with `first` has taken.
    pub open spec fn tasks(self, first: Option<Thunk>) -> nat {
        self.immediate.taken.len() + self.overflow.taken.len() + if first is Some
            && self.initial_thunk is None {
            1nat
        } else {
            0nat
        }
    }

    /// Whether a worker that was started as `start` has executed every task that it took, once and
    /// in order, has counted each of them once as running, as no longer running and as completed, is
    /// still counted itself unless it has retired, and has stopped otherwise only if the queue was
    /// empty and closed.
    pub open spec fn accounts(self, start: WorkerView) -> bool {
        &&& self.initial_thunk is Some ==> self == start && self.fresh()
        &&& self.initial_thunk is None ==> (start.initial_thunk matches Some(thunk)
            ==> thunk.done())
        &&& all_done(self.immediate)
        &&& all_done(self.overflow)
        &&& self.record.tasks.len() == self.tasks(start.initial_thunk)
        &&& forall|i: int|
            0 <= i < self.record.tasks.len() ==> (#[trigger] self.record.tasks[i]).done()
        &&& ascending(self.record.running)
        &&& self.record.running.len() == 2 * self.record.tasks.len()
        &&& self.shared.starts_and_stops(self.record.running)
        &&& ascending(self.record.completed)
        &&& self.record.completed.len() == self.record.tasks.len()
        &&& self.shared.completes(self.record.completed)
        &&& if self.enlisted {
            &&& self.changes == start.changes
            &&& self.phase != Phase::Listening ==> self.immediate.is_closed()
                || self.overflow.is_closed()
            &&& self.phase == Phase::Finished ==> self.overflow.is_closed()
        } else {
            &&& self.phase == Phase::Finished
            &&& self.shared.logs_change(start.changes, self.changes, Change::Retire)
        }
    }

    /// Whether `after` is what is left of the worker when it has left the pool.
    pub open spec fn leaves(self, after: WorkerView) -> bool {
        &&& after == (WorkerView { enlisted: false, changes: after.changes, ..self })
        &&& if self.enlisted {
            self.shared.logs_change(self.changes, after.changes, Change::Leave)
        } else {
            after.changes == self.changes
        }
    }
}

/// A thread's part in a pool.
pub struct Worker {
    initial_thunk: Option<Thunk>,
    immediate: Inlet,
    overflow: Inlet,
    handle: Handle,
    phase: Phase,
}

impl View for Worker {
    type V = WorkerView;

    closed spec fn view(&self) -> WorkerView {
        WorkerView {
            initial_thunk: self.initial_thunk,
            immediate: self.immediate@,
            overflow: self.overflow@,
            shared: self.handle.shared(),
            changes: self.handle.changes(),
            record: self.handle.record(),
            phase: self.phase,
            enlisted: self.handle.enlisted(),
        }
    }
}

impl Worker {
    pub(crate) fn new(
        initial_thunk: Option<Thunk>,
        immediate: Inlet,
        overflow: Inlet,
        handle: Handle,
    ) -> (worker: Self)
        ensures
            worker@ == (WorkerView {
                initial_thunk,
                immediate: immediate@,
                overflow: overflow@,
                shared: handle.shared(),
                changes: handle.changes(),
                record: handle.record(),
                phase: Phase::Listening,
                enlisted: handle.enlisted(),
            }),
        opens_invariants none
    {
        Worker { initial_thunk, immediate, overflow, handle, phase: Phase::Listening }
    }

    /// Waits for a task, or takes one that is queued if the pool is shutting down.
    fn next_event(&mut self) -> (event: Event)
        requires
            old(self)@.phase != Phase::Finished,
        ensures
            old(self)@.meets(event, final(self)@),
    {
        match self.phase {
            Phase::Listening => {
                let idle_timeout: u64 = self.handle.idle_seconds();
                match self.immediate.next_of_either(&mut self.overflow, idle_timeout) {
                    Wake::Received(thunk) => Event::Task(thunk),
                    Wake::Disconnected => Event::Disconnected,
                    Wake::TimedOut => if !self.handle.is_enlisted() || self.handle.retire() {
                        Event::Retired
                    } else {
                        Event::Kept
                    },
                }
            },
            _ => match self.overflow.next() {
                Some(thunk) => Event::Task(thunk),
                None => Event::Drained,
            },
        }
    }

    /// Goes on as the event asks for, and returns the task that it brought.
    pub fn react(&mut self, event: Event) -> (thunk: Option<Thunk>)
        ensures
            old(self)@.reacts(event, final(self)@),
            thunk == reaction(old(self)@.phase, event).1,
        opens_invariants none
    {
        match (self.phase, event) {
            (Phase::Listening, Event::Task(thunk)) => Some(thunk),
            (Phase::Listening, Event::Kept) => None,
            (Phase::Listening, Event::Disconnected) => {
                self.phase = Phase::Draining;
                None
            },
            (Phase::Draining, Event::Task(thunk)) => Some(thunk),
            _ => {
                self.phase = Phase::Finished;
                None
            },
        }
    }

    /// Looks for a task to execute.
    pub fn next_thunk(&mut self) -> (thunk: Option<Thunk>)
        ensures
            old(self)@.advances(final(self)@, thunk),
    {
        match self.initial_thunk.take() {
            Some(thunk) => Some(thunk),
            None => match self.phase {
                Phase::Finished => None,
                _ => {
                    let event = self.next_event();
                    let ghost between = self@;
                    let thunk = self.react(event);
                    assert(between == (WorkerView { phase: old(self)@.phase, ..self@ }));
                    assert(old(self)@.steps(event, self@));
                    thunk
                },
            },
        }
    }

    /// Executes a task and counts it: as running before, and as completed after, which the types of
    /// a [started](crate::thunk::tally::Started) task and of an executed one see to.
    pub fn execute_thunk(&mut self, thunk: Thunk)
        ensures
            old(self)@.executes(Some(thunk), final(self)@),
    {
        let started = self.handle.start_task(thunk);
        let executed = started.execute();
        self.handle.complete_task(executed);
    }

    /// Looks for a task and executes what it found. Returns whether to go on: a worker runs by
    /// repeating this until it returns `false`.
    pub fn run_step(&mut self) -> (running: bool)
        ensures
            running <==> final(self)@.phase != Phase::Finished,
            old(self)@.runs(final(self)@),
    {
        let next = self.next_thunk();
        let ghost between = self@;
        let ghost found = next;
        assert(old(self)@.advances(between, found));
        if let Some(thunk) = next {
            self.execute_thunk(thunk);
        }
        assert(between.executes(found, self@));
        self.phase != Phase::Finished
    }

    /// Takes the worker off the count of the pool's threads, unless that is done already.
    pub fn leave(&mut self)
        ensures
            old(self)@.leaves(final(self)@),
    {
        if self.handle.is_enlisted() {
            self.handle.leave();
        }
    }
}

/// Whether a worker goes through these states by one [`Worker::run_step`] after the other.
pub open spec fn is_run(trace: Seq<WorkerView>) -> bool {
    &&& trace.len() > 0
    &&& forall|i: int| 0 <= i < trace.len() - 1 ==> (#[trigger] trace[i]).runs(trace[i + 1])
}

/// What a worker that starts in this phase is doing after the events.
pub open spec fn phase_after(phase: Phase, events: Seq<Event>) -> Phase
    decreases events.len(),
{
    if events.len() == 0 {
        phase
    } else {
        reaction(phase_after(phase, events.drop_last()), events.last()).0
    }
}

/// The tasks that a worker that starts in this phase executes because of the events.
pub open spec fn executed(phase: Phase, events: Seq<Event>) -> Seq<Thunk>
    decreases events.len(),
{
    if events.len() == 0 {
        Seq::empty()
    } else {
        let before = executed(phase, events.drop_last());
        match reaction(phase_after(phase, events.drop_last()), events.last()).1 {
            Some(thunk) => before.push(thunk),
            None => before,
        }
    }
}

/// The tasks that the events bring.
pub open spec fn tasks_of(events: Seq<Event>) -> Seq<Thunk>
    decreases events.len(),
{
    if events.len() == 0 {
        Seq::empty()
    } else {
        let before = tasks_of(events.drop_last());
        match events.last() {
            Event::Task(thunk) => before.push(thunk),
            _ => before,
        }
    }
}

/// Whether a worker in this phase can meet such an event: one that listens waits until something
/// happens, and one that drains the queue only looks into the queue.
pub open spec fn possible(phase: Phase, event: Event) -> bool {
    match phase {
        Phase::Listening => !(event is Drained),
        Phase::Draining => event is Task || event is Drained,
        Phase::Finished => false,
    }
}

/// Whether these events can come one after the other to a worker that starts in this phase.
pub open spec fn possible_run(phase: Phase, events: Seq<Event>) -> bool
    decreases events.len(),
{
    events.len() > 0 ==> {
        &&& possible_run(phase, events.drop_last())
        &&& possible(phase_after(phase, events.drop_last()), events.last())
    }
}

proof fn lemma_gets_keeps_all_done(before: ReceiverView, after: ReceiverView, thunk: Thunk)
    requires
        all_done(before),
        before.gets(after, thunk),
        thunk.done(),
    ensures
        all_done(after),
        after.channel == before.channel,
        after.id == before.id,
        after.taken.len() == before.taken.len() + 1,
{
    let position = choose|position: nat| #[trigger]
        before.gets_at(after, position) && channel::message(before.channel, position) == thunk;
    lemma_extended_log_is_ascending(before.taken, after.taken, position);
    assert forall|i: int| 0 <= i < after.taken.len() implies {
        &&& channel::takes_in(after.channel, #[trigger] after.taken[i])
        &&& channel::taker(after.channel, after.taken[i]) == Some(after.id)
        &&& channel::has_given_out(after.channel, after.taken[i])
        &&& channel::message(after.channel, after.taken[i]).done()
    } by {
        if i < before.taken.len() {
            assert(after.taken[i] == before.taken[i]);
        } else {
            assert(after.taken[i] == position);
        }
    }
}

proof fn lemma_task_is_counted_once(
    before: Record,
    after: Record,
    shared: SharedView,
    thunk: Thunk,
)
    requires
        before.counts(after, shared.running, shared.completed, thunk),
        ascending(before.running),
        ascending(before.completed),
        shared.starts_and_stops(before.running),
        shared.completes(before.completed),
        before.running.len() % 2 == 0,
    ensures
        after.tasks == before.tasks.push(thunk),
        ascending(after.running),
        ascending(after.completed),
        shared.starts_and_stops(after.running),
        shared.completes(after.completed),
        after.running.len() == before.running.len() + 2,
        after.completed.len() == before.completed.len() + 1,
{
    let (started, between, stopped, counted) = choose|
        started: nat,
        between: Record,
        stopped: nat,
        counted: nat,
    |
        #![trigger before.starts(between, shared.running, started), between.finishes(after, shared.running, shared.completed, thunk, stopped, counted)]
        before.starts(between, shared.running, started) && between.finishes(
            after,
            shared.running,
            shared.completed,
            thunk,
            stopped,
            counted,
        );
    lemma_extended_log_is_ascending(before.running, between.running, started);
    lemma_extended_log_is_ascending(between.running, after.running, stopped);
    lemma_extended_log_is_ascending(before.completed, after.completed, counted);
}

/// One step of a worker keeps its accounts in order.
pub proof fn lemma_step_keeps_accounts(before: WorkerView, after: WorkerView, start: WorkerView)
    requires
        before.accounts(start),
        before.runs(after),
    ensures
        after.accounts(start),
        after.same_worker(before),
        after.initial_thunk is None,
{
    let (between, found) = choose|between: WorkerView, found: Option<Thunk>| #[trigger]
        before.advances(between, found) && between.executes(found, after);
    if let Some(thunk) = found {
        lemma_task_is_counted_once(between.record, after.record, before.shared, thunk);
    }
    if before.initial_thunk is None && before.phase != Phase::Finished {
        let event = choose|event: Event| #[trigger]
            before.steps(event, between) && found == reaction(before.phase, event).1;
        if let Event::Task(thunk) = event {
            let waited = before.waited();
            if before.phase == Phase::Draining {
                lemma_gets_keeps_all_done(before.overflow, between.overflow, thunk);
            } else if waited.immediate.gets(between.immediate, thunk) && between.overflow
                == waited.overflow {
                lemma_gets_keeps_all_done(waited.immediate, between.immediate, thunk);
            } else {
                lemma_gets_keeps_all_done(waited.overflow, between.overflow, thunk);
            }
        }
    }
}

/// However long a worker has run, it has executed every task that it took, once and in order, and
/// counted each of them once.
pub proof fn lemma_worker_executes_every_task_that_it_takes(trace: Seq<WorkerView>)
    requires
        is_run(trace),
        trace[0].fresh(),
    ensures
        trace.last().accounts(trace[0]),
        trace.last().same_worker(trace[0]),
        trace.len() > 1 ==> trace.last().initial_thunk is None,
    decreases trace.len(),
{
    if trace.len() > 1 {
        let before = trace.drop_last();
        assert forall|i: int| 0 <= i < before.len() - 1 implies (#[trigger] before[i]).runs(
            before[i + 1],
        ) by {
            assert(trace[i].runs(trace[i + 1]));
        }
        lemma_worker_executes_every_task_that_it_takes(before);
        let last = trace.len() - 1;
        assert(trace[last - 1].runs(trace[last - 1 + 1]));
        lemma_step_keeps_accounts(before.last(), trace.last(), trace[0]);
    }
}

/// A worker that has begun to execute a task and has not finished it has counted it as running, and
/// all other tasks that it took as completed, and is counted itself.
pub proof fn lemma_busy_worker_has_counted_its_task(
    before: WorkerView,
    start: WorkerView,
    between: WorkerView,
    thunk: Thunk,
    started: nat,
    busy: WorkerView,
)
    requires
        before.accounts(start),
        before.advances(between, Some(thunk)),
        between.record.starts(busy.record, between.shared.running, started),
        busy == (WorkerView { record: busy.record, ..between }),
    ensures
        busy.tasks(start.initial_thunk) == busy.record.completed.len() + 1,
        busy.record.running.len() == 2 * busy.record.completed.len() + 1,
        ascending(busy.record.running),
        busy.shared.starts_and_stops(busy.record.running),
        ascending(busy.record.completed),
        busy.shared.completes(busy.record.completed),
        busy.enlisted,
{
    lemma_extended_log_is_ascending(between.record.running, busy.record.running, started);
    if before.initial_thunk is None && before.phase != Phase::Finished {
        let event = choose|event: Event| #[trigger]
            before.steps(event, between) && Some(thunk) == reaction(before.phase, event).1;
        assert(event == Event::Task(thunk));
        lemma_task_is_in_one_log(before, event, between, thunk);
    }
}

/// A task that a worker meets makes one of its logs longer by one.
proof fn lemma_task_is_in_one_log(
    before: WorkerView,
    event: Event,
    between: WorkerView,
    thunk: Thunk,
)
    requires
        before.steps(event, between),
        event == Event::Task(thunk),
    ensures
        between.immediate.taken.len() + between.overflow.taken.len()
            == before.immediate.taken.len() + before.overflow.taken.len() + 1,
        before.overflow.taken.is_prefix_of(between.overflow.taken),
{
    let waited = if before.phase == Phase::Listening {
        before.waited()
    } else {
        before
    };
    if between.overflow == waited.overflow && waited.immediate.gets(between.immediate, thunk) {
        let position = choose|position: nat| #[trigger]
            waited.immediate.gets_at(between.immediate, position);
        assert(extends(waited.immediate.taken, between.immediate.taken, position));
    } else {
        let position = choose|position: nat| #[trigger]
            waited.overflow.gets_at(between.overflow, position);
        assert(extends(waited.overflow.taken, between.overflow.taken, position));
    }
}

proof fn lemma_log_only_grows(trace: Seq<WorkerView>, i: int, j: int)
    requires
        is_run(trace),
        0 <= i <= j < trace.len(),
    ensures
        trace[i].overflow.taken.is_prefix_of(trace[j].overflow.taken),
    decreases j - i,
{
    if i < j {
        lemma_log_only_grows(trace, i, j - 1);
        let before = trace[j - 1];
        let after = trace[j];
        assert(trace[j - 1].runs(trace[j - 1 + 1]));
        let (between, found) = choose|between: WorkerView, found: Option<Thunk>| #[trigger]
            before.advances(between, found) && between.executes(found, after);
        assert(after.overflow == between.overflow);
        if before.initial_thunk is None && before.phase != Phase::Finished {
            let event = choose|event: Event| #[trigger]
                before.steps(event, between) && found == reaction(before.phase, event).1;
            if let Event::Task(thunk) = event {
                lemma_task_is_in_one_log(before, event, between, thunk);
            }
        }
    }
}

/// The queue is first in, first out: of two queued tasks that a worker executes, the one that went
/// into the queue first is executed first, and by the time a worker gets a queued task, all that
/// were queued before have a worker.
pub proof fn lemma_queued_tasks_are_executed_in_order(
    trace: Seq<WorkerView>,
    i: int,
    earlier: nat,
    j: int,
    later: nat,
)
    requires
        is_run(trace),
        trace[0].fresh(),
        0 <= i < j < trace.len() - 1,
        trace[i + 1].overflow.taken == trace[i].overflow.taken.push(earlier),
        trace[j + 1].overflow.taken == trace[j].overflow.taken.push(later),
    ensures
        earlier < later,
        channel::has_given_out(trace[0].overflow.channel, later),
        channel::message(trace[0].overflow.channel, earlier).done(),
        channel::message(trace[0].overflow.channel, later).done(),
{
    lemma_log_only_grows(trace, i + 1, j);
    lemma_log_only_grows(trace, j + 1, trace.len() - 1);
    lemma_worker_executes_every_task_that_it_takes(trace);
    let log = trace.last().overflow.taken;
    let first = trace[i].overflow.taken.len() as int;
    let second = trace[j].overflow.taken.len() as int;
    assert(trace[i + 1].overflow.taken[first] == earlier);
    assert(trace[j].overflow.taken[first] == earlier);
    assert(trace[j + 1].overflow.taken[first] == earlier);
    assert(trace[j + 1].overflow.taken[second] == later);
    assert(log[first] == earlier && log[second] == later);
}

/// The events that a worker meets while it runs are possible, lead it to the phase that it is in,
/// and bring exactly the tasks that it has executed and counted, in that order.
pub proof fn lemma_run_follows_possible_events(trace: Seq<WorkerView>) -> (events: Seq<Event>)
    requires
        is_run(trace),
        trace[0].fresh(),
    ensures
        possible_run(Phase::Listening, events),
        phase_after(Phase::Listening, events) == trace.last().phase,
        executed(Phase::Listening, events) == tasks_of(events),
        tasks_of(events) == trace.last().record.tasks,
        forall|i: int| 0 <= i < tasks_of(events).len() ==> (#[trigger] tasks_of(events)[i]).done(),
    decreases trace.len(),
{
    if trace.len() == 1 {
        Seq::empty()
    } else {
        let trace_before = trace.drop_last();
        assert forall|i: int| 0 <= i < trace_before.len() - 1 implies (
        #[trigger] trace_before[i]).runs(trace_before[i + 1]) by {
            assert(trace[i].runs(trace[i + 1]));
        }
        let events = lemma_run_follows_possible_events(trace_before);
        lemma_worker_executes_every_task_that_it_takes(trace_before);
        lemma_worker_executes_every_task_that_it_takes(trace);
        let before = trace_before.last();
        let after = trace.last();
        let last = trace.len() - 1;
        assert(trace[last - 1].runs(trace[last - 1 + 1]));
        let (between, found) = choose|between: WorkerView, found: Option<Thunk>| #[trigger]
            before.advances(between, found) && between.executes(found, after);
        if let Some(thunk) = found {
            lemma_task_is_counted_once(between.record, after.record, before.shared, thunk);
        }
        if before.initial_thunk is None && before.phase == Phase::Finished {
            events
        } else {
            let event = if before.initial_thunk is Some {
                Event::Task(before.initial_thunk.unwrap())
            } else {
                choose|event: Event| #[trigger]
                    before.steps(event, between) && found == reaction(before.phase, event).1
            };
            let more = events.push(event);
            assert(more.drop_last() =~= events);
            assert(more.last() == event);
            assert(possible(before.phase, event));
            assert(reaction(before.phase, event).1 == found);
            assert(event is Task <==> found is Some);
            more
        }
    }
}

/// Every task that possible events bring to a worker it executes once, in the order in which they
/// come.
pub proof fn lemma_tasks_are_executed_in_order(phase: Phase, events: Seq<Event>)
    requires
        possible_run(phase, events),
    ensures
        executed(phase, events) == tasks_of(events),
    decreases events.len(),
{
    if events.len() > 0 {
        lemma_tasks_are_executed_in_order(phase, events.drop_last());
    }
}

/// A worker that has stopped does nothing more.
pub proof fn lemma_finished_worker_does_nothing(before: WorkerView, after: WorkerView)
    requires
        before.initial_thunk is None,
        before.phase == Phase::Finished,
        before.runs(after),
    ensures
        after == before,
{
}

/// A worker stops only if the pool does not need it any more, or if the queue of the pool is empty
/// and has no sender any more.
pub proof fn lemma_worker_stops_only_when_retired_or_drained(trace: Seq<WorkerView>)
    requires
        is_run(trace),
        trace[0].fresh(),
        trace.last().phase == Phase::Finished,
    ensures
        if trace.last().enlisted {
            trace.last().overflow.is_closed()
        } else {
            trace.last().shared.sees(Change::Retire)
        },
{
    lemma_worker_executes_every_task_that_it_takes(trace);
}

/// A worker goes from the count of the pool's threads once: when it retires, or when it leaves. One
/// that has run to its end leaves only when the queue is empty and has no sender any more.
pub proof fn lemma_worker_goes_once(trace: Seq<WorkerView>, gone: WorkerView)
    requires
        is_run(trace),
        trace[0].fresh(),
        trace.last().leaves(gone),
    ensures
        gone.shared.logs_change(
            trace[0].changes,
            gone.changes,
            if trace.last().enlisted {
                Change::Leave
            } else {
                Change::Retire
            },
        ),
        trace.last().enlisted && trace.last().phase == Phase::Finished
            ==> trace.last().overflow.is_closed(),
{
    lemma_worker_executes_every_task_that_it_takes(trace);
}

/// A worker that listens executes every task that comes, starts to drain the queue when the pool is
/// shutting down, goes on when it is kept, and stops otherwise. One that drains the queue executes
/// every task that it finds, and stops otherwise.
pub proof fn lemma_reaction(event: Event)
    ensures
        event matches Event::Task(thunk) ==> reaction(Phase::Listening, event) == (
            Phase::Listening,
            Some(thunk),
        ) && reaction(Phase::Draining, event) == (Phase::Draining, Some(thunk)),
        reaction(Phase::Listening, Event::Kept) == (Phase::Listening, None::<Thunk>),
        reaction(Phase::Listening, Event::Disconnected) == (Phase::Draining, None::<Thunk>),
        reaction(Phase::Listening, Event::Retired) == (Phase::Finished, None::<Thunk>),
        reaction(Phase::Listening, Event::Drained) == (Phase::Finished, None::<Thunk>),
        !(event is Task) ==> reaction(Phase::Draining, event) == (Phase::Finished, None::<Thunk>),
        reaction(Phase::Finished, event) == (Phase::Finished, None::<Thunk>),
{
}

/// A worker that was started with a task finds that one first, and takes nothing from the channels.
pub proof fn lemma_initial_task_comes_first(
    before: WorkerView,
    after: WorkerView,
    found: Option<Thunk>,
)
    requires
        before.initial_thunk is Some,
        before.advances(after, found),
    ensures
        found == before.initial_thunk,
        after.initial_thunk is None,
        after.immediate == before.immediate,
        after.overflow == before.overflow,
        after.phase == before.phase,
        after.enlisted == before.enlisted,
{
}

/// Whether the receiver has received one message more, which is the thunk, and which no other receiver
/// gets.
pub open spec fn is_next_message(before: ReceiverView, after: ReceiverView, thunk: Thunk) -> bool {
    &&& after.taken.len() == before.taken.len() + 1
    &&& channel::message(before.channel, after.taken.last()) == thunk
    &&& channel::taker(before.channel, after.taken.last()) == Some(before.id)
}

/// A worker that listens and has no task waits once, for both channels of its pool and at most for
/// the idle time. It takes at most one message, which is the task that it finds, and it stops only if
/// the wait timed out and it is taken off the count.
pub proof fn lemma_listening_worker_waits_for_both_channels(
    before: WorkerView,
    after: WorkerView,
    found: Option<Thunk>,
)
    requires
        before.initial_thunk is None,
        before.phase == Phase::Listening,
        before.enlisted,
        before.advances(after, found),
    ensures
        exists|wake: Wake| #[trigger]
            channel::waits_for_either(
                before.immediate.channel,
                before.overflow.channel,
                before.shared.idle_timeout,
                wake,
            ) && match wake {
                Wake::Received(thunk) => {
                    &&& found == Some(thunk)
                    &&& is_next_message(before.immediate, after.immediate, thunk)
                        || is_next_message(before.overflow, after.overflow, thunk)
                    &&& after.phase == Phase::Listening
                    &&& after.enlisted
                },
                Wake::Disconnected => {
                    &&& found is None
                    &&& channel::exhausted(before.immediate.channel) || channel::exhausted(
                        before.overflow.channel,
                    )
                    &&& after.phase == Phase::Draining
                    &&& after.enlisted
                },
                Wake::TimedOut => {
                    &&& found is None
                    &&& after.phase == if after.enlisted {
                        Phase::Listening
                    } else {
                        Phase::Finished
                    }
                    &&& !after.enlisted ==> after.changes.len() == before.changes.len() + 1
                        && before.shared.sees_at(after.changes.last(), Change::Retire)
                    &&& after.enlisted ==> before.shared.denies(Change::Retire)
                },
            },
        after.immediate.waits == before.immediate.waits + 1,
        after.overflow.waits == before.overflow.waits + 1,
        after.immediate.taken.len() + after.overflow.taken.len() == before.immediate.taken.len()
            + before.overflow.taken.len() + if found is Some {
            1nat
        } else {
            0nat
        },
{
    let event = choose|event: Event| #[trigger]
        before.steps(event, after) && found == reaction(before.phase, event).1;
    let wake = match event {
        Event::Task(thunk) => Wake::Received(thunk),
        Event::Disconnected => Wake::Disconnected,
        _ => Wake::TimedOut,
    };
    assert(before.waits(wake));
    if let Event::Task(thunk) = event {
        lemma_task_is_in_one_log(before, event, after, thunk);
        let waited = before.waited();
        if waited.immediate.gets(after.immediate, thunk) {
            let position = choose|position: nat| #[trigger]
                waited.immediate.gets_at(after.immediate, position) && channel::message(
                    waited.immediate.channel,
                    position,
                ) == thunk;
            assert(after.immediate.taken.last() == position);
        } else {
            let position = choose|position: nat| #[trigger]
                waited.overflow.gets_at(after.overflow, position) && channel::message(
                    waited.overflow.channel,
                    position,
                ) == thunk;
            assert(after.overflow.taken.last() == position);
        }
    }
    if event is Retired {
        let position = choose|position: nat| #[trigger]
            extends(before.changes, after.changes, position) && before.shared.sees_at(
                position,
                Change::Retire,
            );
        assert(after.changes.last() == position);
    }
}

/// A worker that drains the queue takes one task out of it, or stops because it is empty and closed.
pub proof fn lemma_draining_worker_empties_the_queue(
    before: WorkerView,
    after: WorkerView,
    found: Option<Thunk>,
)
    requires
        before.initial_thunk is None,
        before.phase == Phase::Draining,
        before.advances(after, found),
    ensures
        after.immediate == before.immediate,
        after.enlisted == before.enlisted,
        match found {
            Some(thunk) => {
                &&& after.phase == Phase::Draining
                &&& after.overflow.taken.len() == before.overflow.taken.len() + 1
                &&& channel::message(before.overflow.channel, after.overflow.taken.last()) == thunk
            },
            None => {
                &&& after.phase == Phase::Finished
                &&& after.overflow == before.overflow
                &&& channel::ends(before.overflow.channel)
                &&& channel::exhausted(before.overflow.channel)
            },
        },
{
    let event = choose|event: Event| #[trigger]
        before.steps(event, after) && found == reaction(before.phase, event).1;
    if let Event::Task(thunk) = event {
        let position = choose|position: nat| #[trigger]
            before.overflow.gets_at(after.overflow, position) && channel::message(
                before.overflow.channel,
                position,
            ) == thunk;
        assert(after.overflow.taken.last() == position);
    }
}

/// Executing a task completes it and counts it once: up, down and as completed. Nothing else of the
/// worker changes.
pub proof fn lemma_executed_task_is_counted(
    before: WorkerView,
    after: WorkerView,
    thunk: Thunk,
)
    requires
        before.executes(Some(thunk), after),
    ensures
        thunk.done(),
        after.record.tasks == before.record.tasks.push(thunk),
        after.record.running.len() == before.record.running.len() + 2,
        count_move(
            before.shared.running,
            after.record.running[before.record.running.len() as int],
        ) == Move::Up(1),
        count_move(
            before.shared.running,
            after.record.running[before.record.running.len() as int + 1],
        ) == Move::Down(1),
        after.record.completed.len() == before.record.completed.len() + 1,
        total_move(before.shared.completed, after.record.completed.last()) == 1,
        after.initial_thunk == before.initial_thunk,
        after.immediate == before.immediate,
        after.overflow == before.overflow,
        after.changes == before.changes,
        after.phase == before.phase,
        after.enlisted == before.enlisted,
{
    let running = before.shared.running;
    let completed = before.shared.completed;
    let (started, between, stopped, counted) = choose|
        started: nat,
        between: Record,
        stopped: nat,
        counted: nat,
    |
        #![trigger before.record.starts(between, running, started), between.finishes(after.record, running, completed, thunk, stopped, counted)]
        before.record.starts(between, running, started) && between.finishes(
            after.record,
            running,
            completed,
            thunk,
            stopped,
            counted,
        );
    assert(after.record.running == before.record.running.push(started).push(stopped));
}

/// A worker that is counted leaves by one change of the roster, one that is not by none.
pub proof fn lemma_leaving(before: WorkerView, after: WorkerView)
    requires
        before.leaves(after),
    ensures
        !after.enlisted,
        after.record == before.record,
        after.phase == before.phase,
        after.overflow == before.overflow,
        after.immediate == before.immediate,
        before.enlisted ==> after.changes.len() == before.changes.len() + 1 && change_at(
            before.shared.roster,
            after.changes.last(),
        ) == Change::Leave,
        !before.enlisted ==> after.changes == before.changes,
{
    if before.enlisted {
        let position = choose|position: nat| #[trigger]
            extends(before.changes, after.changes, position) && before.shared.sees_at(
                position,
                Change::Leave,
            );
        assert(after.changes.last() == position);
    }
}

} // verus!
