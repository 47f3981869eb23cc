use vstd::prelude::*;

use crate::report::{outcome_spec, report_text, stream_of};

verus! {

/// What reaches the event loop: a new unit of work (one line of input),
/// the end of the input, or the interrupt signal.
pub enum Event {
    Line(String),
    Interrupt,
    Eof,
}

/// The mathematical view of an [`Event`].
pub enum EventView {
    Line(Seq<char>),
    Interrupt,
    Eof,
}

impl View for Event {
    type V = EventView;

    open spec fn view(&self) -> EventView {
        match self {
            Event::Line(s) => EventView::Line(s@),
            Event::Interrupt => EventView::Interrupt,
            Event::Eof => EventView::Eof,
        }
    }
}

/// The event loop's state: it accepts work while `Running`, waits for the
/// jobs in flight once the input has ended (`Draining`), and has stopped for
/// good after an interrupt (`Stopped`).
#[derive(PartialEq, Eq, Structural, Clone, Copy, Debug)]
pub enum LoopState {
    Running,
    Draining,
    Stopped,
}

/// A unit of work handed to the worker pool: its id and its input.
pub struct Job {
    pub id: usize,
    pub input: String,
}

/// What the event loop does in answer to one event.
pub enum Action {
    /// Hand this job to the worker pool.
    Submit(Job),
    /// Stop receiving events, wait until no job is running, and return.
    Drain,
    /// Nothing to do.
    Ignore,
}

/// The mathematical view of an [`Action`].
pub enum ActionView {
    Submit(nat, Seq<char>),
    Drain,
    Ignore,
}

impl View for Action {
    type V = ActionView;

    open spec fn view(&self) -> ActionView {
        match self {
            Action::Submit(j) => ActionView::Submit(j.id as nat, j.input@),
            Action::Drain => ActionView::Drain,
            Action::Ignore => ActionView::Ignore,
        }
    }
}

/// The mathematical view of a [`Dispatcher`]: its state and the id that the
/// next job will get.
pub struct DispatcherView {
    pub state: LoopState,
    pub next_id: nat,
}

/// The event loop's decision point. Ids are handed out in arrival order
/// from 0, one per accepted line, and never reused or skipped.
pub struct Dispatcher {
    state: LoopState,
    next_id: usize,
}

impl View for Dispatcher {
    type V = DispatcherView;

    closed spec fn view(&self) -> DispatcherView {
        DispatcherView { state: self.state, next_id: self.next_id as nat }
    }
}

/// A dispatcher that has not seen any event.
pub open spec fn initial() -> DispatcherView {
    DispatcherView { state: LoopState::Running, next_id: 0 }
}

/// One transition of the event loop: the next state and the action taken.
pub open spec fn step(d: DispatcherView, e: EventView) -> (DispatcherView, ActionView) {
    match d.state {
        LoopState::Running => match e {
            EventView::Line(s) => (
                DispatcherView { state: LoopState::Running, next_id: d.next_id + 1 },
                ActionView::Submit(d.next_id, s),
            ),
            EventView::Eof => (
                DispatcherView { state: LoopState::Draining, next_id: d.next_id },
                ActionView::Drain,
            ),
            EventView::Interrupt => (
                DispatcherView { state: LoopState::Stopped, next_id: d.next_id },
                ActionView::Drain,
            ),
        },
        LoopState::Draining => match e {
            EventView::Interrupt => (
                DispatcherView { state: LoopState::Stopped, next_id: d.next_id },
                ActionView::Ignore,
            ),
            _ => (d, ActionView::Ignore),
        },
        LoopState::Stopped => (d, ActionView::Ignore),
    }
}

/// Whether a dispatcher in state `d` can take event `e` without running out
/// of job ids.
pub open spec fn has_id_for(d: DispatcherView, e: EventView) -> bool {
    d.state == LoopState::Running && e is Line ==> d.next_id < usize::MAX
}

/// Feeds `events` to a dispatcher in state `d`, in order: the final state
/// and one action per event.
pub open spec fn run(d: DispatcherView, events: Seq<EventView>) -> (DispatcherView, Seq<ActionView>)
    decreases events.len(),
{
    if events.len() == 0 {
        (d, Seq::empty())
    } else {
        let (before, actions) = run(d, events.drop_last());
        let (after, a) = step(before, events.last());
        (after, actions.push(a))
    }
}

/// Whether `events` holds an end of input or an interrupt.
pub open spec fn has_stop(events: Seq<EventView>) -> bool {
    exists|i: int| 0 <= i < events.len() && !(#[trigger] events[i] is Line)
}

/// The lines that arrive before the first end of input or interrupt.
pub open spec fn lines_before_stop(events: Seq<EventView>) -> Seq<Seq<char>>
    decreases events.len(),
{
    if events.len() == 0 {
        Seq::empty()
    } else if has_stop(events.drop_last()) {
        lines_before_stop(events.drop_last())
    } else {
        match events.last() {
            EventView::Line(s) => lines_before_stop(events.drop_last()).push(s),
            _ => lines_before_stop(events.drop_last()),
        }
    }
}

/// The jobs that `actions` submit, as (id, input) pairs, in order.
pub open spec fn submitted(actions: Seq<ActionView>) -> Seq<(nat, Seq<char>)>
    decreases actions.len(),
{
    if actions.len() == 0 {
        Seq::empty()
    } else {
        match actions.last() {
            ActionView::Submit(id, s) => submitted(actions.drop_last()).push((id, s)),
            _ => submitted(actions.drop_last()),
        }
    }
}

/// Numbers `lines` from 0 in order.
pub open spec fn numbered(lines: Seq<Seq<char>>) -> Seq<(nat, Seq<char>)> {
    Seq::new(lines.len(), |i: int| (i as nat, lines[i]))
}

proof fn lemma_run_state(events: Seq<EventView>)
    ensures
        run(initial(), events).1.len() == events.len(),
        run(initial(), events).0.next_id == lines_before_stop(events).len(),
        (run(initial(), events).0.state == LoopState::Running) == !has_stop(events),
        (exists|i: int| 0 <= i < events.len() && #[trigger] events[i] is Interrupt)
            ==> run(initial(), events).0.state == LoopState::Stopped,
        submitted(run(initial(), events).1) == numbered(lines_before_stop(events)),
    decreases events.len(),
{
    if events.len() > 0 {
        let prev = events.drop_last();
        lemma_run_state(prev);
        let (before, actions) = run(initial(), prev);
        let (after, a) = step(before, events.last());
        assert(run(initial(), events) == (after, actions.push(a)));
        assert(actions.push(a).drop_last() =~= actions);
        assert(has_stop(events) == (has_stop(prev) || !(events.last() is Line))) by {
            if has_stop(prev) {
                let i = choose|i: int| 0 <= i < prev.len() && !(#[trigger] prev[i] is Line);
                assert(events[i] == prev[i]);
            }
            if has_stop(events) && !has_stop(prev) {
                let i = choose|i: int| 0 <= i < events.len() && !(#[trigger] events[i] is Line);
                if i < prev.len() {
                    assert(prev[i] == events[i]);
                }
            }
        }
        if exists|i: int| 0 <= i < events.len() && #[trigger] events[i] is Interrupt {
            let i = choose|i: int| 0 <= i < events.len() && #[trigger] events[i] is Interrupt;
            if i < prev.len() {
                assert(prev[i] == events[i]);
                assert(before.state == LoopState::Stopped);
            }
        }
        let lines = lines_before_stop(prev);
        assert(submitted(actions.push(a)) =~= numbered(lines_before_stop(events))) by {
            if let ActionView::Submit(id, s) = a {
                assert(lines_before_stop(events) == lines.push(s));
                assert(numbered(lines.push(s)) =~= numbered(lines).push((id, s)));
            }
        }
    }
}

/// Job ids follow arrival order: over any sequence of events, a fresh
/// dispatcher submits exactly the lines that arrive before the first end of
/// input or interrupt, each once, in arrival order, numbered 0, 1, 2, ...
/// with no id skipped or repeated; and it answers each event with one action.
pub proof fn lemma_ids_follow_arrival(events: Seq<EventView>)
    ensures
        submitted(run(initial(), events).1) == numbered(lines_before_stop(events)),
        run(initial(), events).1.len() == events.len(),
        run(initial(), events).0.next_id == lines_before_stop(events).len(),
{
    lemma_run_state(events);
}

/// An interrupt ends submission: once the interrupt has arrived, no later
/// event leads to a submission, whatever work was still queued, and the loop
/// ends in the `Stopped` state.
pub proof fn lemma_interrupt_stops_submission(events: Seq<EventView>, j: int)
    requires
        0 <= j < events.len(),
        events[j] is Interrupt,
    ensures
        forall|i: int| j <= i < events.len() ==> !(#[trigger] run(initial(), events).1[i] is Submit),
        run(initial(), events).0.state == LoopState::Stopped,
    decreases events.len(),
{
    let prev = events.drop_last();
    lemma_run_state(prev);
    lemma_run_state(events);
    let (before, actions) = run(initial(), prev);
    let (after, a) = step(before, events.last());
    assert(run(initial(), events).1 == actions.push(a));
    if j < prev.len() {
        assert(prev[j] == events[j]);
        lemma_interrupt_stops_submission(prev, j);
        assert(before.state == LoopState::Stopped);
        assert forall|i: int| j <= i < events.len() implies !(#[trigger] run(initial(), events).1[i] is Submit) by {
            if i < prev.len() {
                assert(actions.push(a)[i] == actions[i]);
            }
        }
    }
}

/// Re-running is deterministic from the coordinator's side: fed the same
/// input, every run submits the `i`-th line as job `i`, and when the
/// executor gives the same result for it, without interrupt, the job's report
/// is the same line on the same stream in both runs.
pub proof fn lemma_rerun_reports_alike(
    events: Seq<EventView>,
    i: int,
    first: Result<Seq<char>, Seq<char>>,
    second: Result<Seq<char>, Seq<char>>,
)
    requires
        0 <= i < lines_before_stop(events).len(),
        first == second,
    ensures
        submitted(run(initial(), events).1)[i] == (i as nat, lines_before_stop(events)[i]),
        report_text(i as nat, outcome_spec(first, false))
            == report_text(i as nat, outcome_spec(second, false)),
        stream_of(outcome_spec(first, false)) == stream_of(outcome_spec(second, false)),
{
    lemma_run_state(events);
}

impl Dispatcher {
    /// A dispatcher that accepts work and will give the first job id 0.
    pub fn new() -> (r: Dispatcher)
        ensures
            r@ == initial(),
    {
        Dispatcher { state: LoopState::Running, next_id: 0 }
    }

    /// The current state of the loop.
    pub fn state(&self) -> (r: LoopState)
        ensures
            r == self@.state,
    {
        self.state
    }

    /// The id that the next accepted line will get; also the number of jobs
    /// submitted so far.
    pub fn next_id(&self) -> (r: usize)
        ensures
            r == self@.next_id,
    {
        self.next_id
    }

    /// Takes one event and decides what the loop does.
    pub fn handle(&mut self, event: Event) -> (r: Action)
        requires
            has_id_for(old(self)@, event@),
        ensures
            (final(self)@, r@) == step(old(self)@, event@),
    {
        match self.state {
            LoopState::Running => match event {
                Event::Line(input) => {
                    let id = self.next_id;
                    self.next_id = id + 1;
                    Action::Submit(Job { id, input })
                },
                Event::Eof => {
                    self.state = LoopState::Draining;
                    Action::Drain
                },
                Event::Interrupt => {
                    self.state = LoopState::Stopped;
                    Action::Drain
                },
            },
            LoopState::Draining => {
                if let Event::Interrupt = event {
                    self.state = LoopState::Stopped;
                }
                Action::Ignore
            },
            LoopState::Stopped => Action::Ignore,
        }
    }
}

} // verus!
