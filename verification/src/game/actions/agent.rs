//! The queue of an agent: which step runs, and which comes next.
//!
//! An agent runs one step at a time. What a step does, it does in the world
//! outside; the agent only decides what is to happen next. It is told what
//! has happened by an [`Event`] and answers with a [`Directive`]: the next
//! thing to do to a step. Whoever drives the agent does that thing and
//! reports back, until the agent answers [`Directive::Poll`] or
//! [`Directive::Rest`].

use std::collections::VecDeque;

use vstd::prelude::*;

use crate::game::actions::{AddOrder, DropReason, StopReason};

verus! {

/// What has happened to the agent or to the step it has handed out.
#[derive(Debug)]
pub enum Event<A> {
    /// The agent is asked to get on with its queue.
    Wake,
    /// `on_start` has been called on the step that [`Directive::Start`]
    /// handed out. The step comes back with what the call returned: whether
    /// the step is done already.
    Started(A, bool),
    /// `is_finished` has been asked of the running step, with this answer.
    Polled(bool),
    /// The running step is to be paused.
    Pause,
    /// The running step is to be canceled.
    Cancel,
    /// `on_stop` has been called on the step that [`Directive::Stop`]
    /// handed out, and the step comes back.
    Stopped(A),
    /// `on_remove` and `on_drop` have been called on the step that
    /// [`Directive::Drop`] handed out.
    Dropped,
}

/// What is to be done next.
#[derive(Debug)]
pub enum Directive<A> {
    /// Nothing: the agent has no step to run, or has been told to pause or
    /// to cancel and waits to be woken.
    Rest,
    /// Nothing for now: a step is running. Ask it at the next tick whether
    /// it has finished, and report with [`Event::Polled`].
    Poll,
    /// Call `on_start` on this step and report with [`Event::Started`].
    Start(A),
    /// Call `on_stop` on this step, with this reason, and report with
    /// [`Event::Stopped`].
    Stop(A, StopReason),
    /// Call `on_remove` and then `on_drop` on this step, with this reason.
    /// If the step had been stopped before, report with [`Event::Dropped`].
    Drop(A, DropReason),
}

/// Where the agent stands with the step whose turn it is.
#[derive(Debug)]
pub enum Phase<A> {
    /// No step has its turn.
    Idle,
    /// A step has been handed out to be started.
    Starting,
    /// This step has been started and has not finished.
    Running(A),
    /// A step has been handed out to be stopped, for this reason.
    Stopping(StopReason),
    /// A step that had been stopped for this reason has been handed out to
    /// be dropped.
    Dropping(StopReason),
}

/// The state of an agent: the steps that wait, first to last, and where the
/// agent stands with the step whose turn it is.
pub struct AgentView<A> {
    pub queue: Seq<A>,
    pub phase: Phase<A>,
}

/// An agent of nothing: no step waits, none has its turn.
pub open spec fn idle<A>(queue: Seq<A>) -> AgentView<A> {
    AgentView { queue, phase: Phase::Idle }
}

/// What becomes of an idle agent that gets on with its queue: it hands out
/// its first step to be started, or rests if it has none.
pub open spec fn proceed<A>(queue: Seq<A>) -> (AgentView<A>, Directive<A>) {
    if queue.len() == 0 {
        (idle(queue), Directive::Rest)
    } else {
        (AgentView { queue: queue.skip(1), phase: Phase::Starting }, Directive::Start(queue[0]))
    }
}

/// The state that follows `agent` on `event`, and what is to be done next.
///
/// A step is handed out to be started only when none has its turn. It keeps
/// its turn until it is reported finished, or is paused or canceled; then it
/// is stopped, and, but for a pause, dropped. When a finished step has been
/// dropped, the next is started; after a cancellation the agent waits to be
/// woken. A paused step goes back to the front of the queue and is started
/// afresh when the agent is woken.
///
/// An event that does not fit the state changes nothing. If it brings a
/// step, the step is handed back to be dropped as skipped.
pub open spec fn step<A>(agent: AgentView<A>, event: Event<A>) -> (AgentView<A>, Directive<A>) {
    let queue = agent.queue;
    match (agent.phase, event) {
        (Phase::Idle, Event::Wake) => proceed(queue),
        (Phase::Starting, Event::Started(step, finished)) => if finished {
            (
                AgentView { queue, phase: Phase::Stopping(StopReason::Finished) },
                Directive::Stop(step, StopReason::Finished),
            )
        } else {
            (AgentView { queue, phase: Phase::Running(step) }, Directive::Poll)
        },
        (Phase::Running(step), Event::Polled(finished)) => if finished {
            (
                AgentView { queue, phase: Phase::Stopping(StopReason::Finished) },
                Directive::Stop(step, StopReason::Finished),
            )
        } else {
            (agent, Directive::Poll)
        },
        (Phase::Running(step), Event::Pause) => (
            AgentView { queue, phase: Phase::Stopping(StopReason::Paused) },
            Directive::Stop(step, StopReason::Paused),
        ),
        (Phase::Running(step), Event::Cancel) => (
            AgentView { queue, phase: Phase::Stopping(StopReason::Canceled) },
            Directive::Stop(step, StopReason::Canceled),
        ),
        (Phase::Stopping(reason), Event::Stopped(step)) => if reason == StopReason::Paused {
            (idle(seq![step] + queue), Directive::Rest)
        } else {
            (
                AgentView { queue, phase: Phase::Dropping(reason) },
                Directive::Drop(step, DropReason::Done),
            )
        },
        (Phase::Dropping(reason), Event::Dropped) => if reason == StopReason::Finished {
            proceed(queue)
        } else {
            (idle(queue), Directive::Rest)
        },
        (_, Event::Started(step, _)) => (agent, Directive::Drop(step, DropReason::Skipped)),
        (_, Event::Stopped(step)) => (agent, Directive::Drop(step, DropReason::Skipped)),
        (Phase::Running(_), _) => (agent, Directive::Poll),
        (_, _) => (agent, Directive::Rest),
    }
}

/// The queue `queue` with `step` added at the end that `order` names.
pub open spec fn added<A>(queue: Seq<A>, step: A, order: AddOrder) -> Seq<A> {
    match order {
        AddOrder::Back => queue.push(step),
        AddOrder::Front => seq![step] + queue,
    }
}

/// The queue `queue` with `steps` added at the end that `order` names, in
/// the order in which they stand in `steps`.
pub open spec fn added_all<A>(queue: Seq<A>, steps: Seq<A>, order: AddOrder) -> Seq<A> {
    match order {
        AddOrder::Back => queue + steps,
        AddOrder::Front => steps + queue,
    }
}

/// The queue of steps of one agent, and the step whose turn it is.
pub struct Agent<A> {
    queue: VecDeque<A>,
    phase: Phase<A>,
}

impl<A> Agent<A> {
    pub closed spec fn view(&self) -> AgentView<A> {
        AgentView { queue: self.queue@, phase: self.phase }
    }

    /// An agent with nothing to do.
    pub fn new() -> (agent: Self)
        ensures
            agent@ == idle(Seq::<A>::empty()),
    {
        Agent { queue: VecDeque::new(), phase: Phase::Idle }
    }

    /// The number of steps that wait.
    pub fn len(&self) -> (len: usize)
        ensures
            len == self@.queue.len(),
    {
        self.queue.len()
    }

    /// Whether no step has its turn.
    pub fn is_idle(&self) -> (idle: bool)
        ensures
            idle == (self@.phase is Idle),
    {
        matches!(self.phase, Phase::Idle)
    }

    /// The step that is running, to ask it whether it has finished.
    pub fn current(&self) -> (current: Option<&A>)
        ensures
            match current {
                Some(step) => self@.phase == Phase::Running(*step),
                None => !(self@.phase is Running),
            },
    {
        match &self.phase {
            Phase::Running(step) => Some(step),
            _ => None,
        }
    }

    /// Adds `step` to the queue. The step does not start by this: wake the
    /// agent for that. If the step has anything to do when it is queued
    /// (`on_add`), that is the caller's to see to first.
    pub fn add(&mut self, step: A, order: AddOrder)
        ensures
            final(self)@.queue == added(old(self)@.queue, step, order),
            final(self)@.phase == old(self)@.phase,
    {
        match order {
            AddOrder::Back => self.queue.push_back(step),
            AddOrder::Front => self.queue.push_front(step),
        }
    }

    /// Adds `steps` to the queue, where they stand in the order in which
    /// they were given.
    pub fn add_all(&mut self, steps: Vec<A>, order: AddOrder)
        ensures
            final(self)@.queue == added_all(old(self)@.queue, steps@, order),
            final(self)@.phase == old(self)@.phase,
    {
        let ghost queue = self.queue@;
        let ghost all = steps@;
        let mut steps = steps;
        match order {
            AddOrder::Front => {
                while steps.len() > 0
                    invariant
                        steps@.len() <= all.len(),
                        steps@ == all.take(steps@.len() as int),
                        self.queue@ == all.skip(steps@.len() as int) + queue,
                        self.phase == old(self).phase,
                    decreases steps@.len(),
                {
                    let ghost n = steps@.len();
                    let step = steps.pop().unwrap();
                    self.queue.push_front(step);
                    proof {
                        assert(steps@ =~= all.take(n - 1));
                        assert(self.queue@ =~= all.skip(n - 1) + queue);
                    }
                }
                proof {
                    assert(self.queue@ =~= all + queue);
                }
            },
            AddOrder::Back => {
                let mut turned: Vec<A> = Vec::new();
                while steps.len() > 0
                    invariant
                        steps@.len() <= all.len(),
                        steps@ == all.take(steps@.len() as int),
                        turned@ == all.skip(steps@.len() as int).reverse(),
                    decreases steps@.len(),
                {
                    let ghost n = steps@.len();
                    let step = steps.pop().unwrap();
                    turned.push(step);
                    proof {
                        assert(steps@ =~= all.take(n - 1));
                        assert(turned@ =~= all.skip(n - 1).reverse());
                    }
                }
                proof {
                    assert(turned@ =~= all.reverse());
                }
                while turned.len() > 0
                    invariant
                        turned@.len() <= all.len(),
                        turned@ == all.reverse().take(turned@.len() as int),
                        self.queue@ == queue + all.take(all.len() - turned@.len()),
                        self.phase == old(self).phase,
                    decreases turned@.len(),
                {
                    let ghost n = turned@.len();
                    let step = turned.pop().unwrap();
                    self.queue.push_back(step);
                    proof {
                        assert(turned@ =~= all.reverse().take(n - 1));
                        assert(self.queue@ =~= queue + all.take(all.len() - (n - 1)));
                    }
                }
                proof {
                    assert(self.queue@ =~= queue + all);
                }
            },
        }
    }

    /// Takes the first of the steps that wait out of the queue, to be
    /// dropped as skipped.
    pub fn skip(&mut self) -> (skipped: Option<A>)
        ensures
            final(self)@.phase == old(self)@.phase,
            old(self)@.queue.len() == 0 ==> skipped is None && final(self)@ == old(self)@,
            old(self)@.queue.len() > 0 ==> skipped == Some(old(self)@.queue[0])
                && final(self)@.queue == old(self)@.queue.skip(1),
    {
        let skipped = self.queue.pop_front();
        proof {
            if skipped is Some {
                assert(self.queue@ =~= old(self).queue@.skip(1));
            }
        }
        skipped
    }

    /// Takes every step that waits out of the queue, to be dropped as
    /// cleared. The running step, if there is one, is to be canceled with
    /// [`Event::Cancel`].
    pub fn clear(&mut self) -> (cleared: Vec<A>)
        ensures
            cleared@ == old(self)@.queue,
            final(self)@.queue == Seq::<A>::empty(),
            final(self)@.phase == old(self)@.phase,
    {
        let mut cleared: Vec<A> = Vec::new();
        while self.queue.len() > 0
            invariant
                self.phase == old(self).phase,
                cleared@ + self.queue@ == old(self).queue@,
            decreases self.queue@.len(),
        {
            let ghost before = self.queue@;
            let step = self.queue.pop_front().unwrap();
            cleared.push(step);
            proof {
                assert(cleared@ + self.queue@ =~= cleared@.drop_last() + before);
            }
        }
        proof {
            assert(cleared@ =~= cleared@ + self.queue@);
            assert(self.queue@ =~= Seq::<A>::empty());
        }
        cleared
    }

    /// Takes note of `event` and says what is to be done next.
    pub fn handle(&mut self, event: Event<A>) -> (directive: Directive<A>)
        ensures
            (final(self)@, directive) == step(old(self)@, event),
    {
        let mut phase = Phase::Idle;
        std::mem::swap(&mut phase, &mut self.phase);
        match (phase, event) {
            (Phase::Idle, Event::Wake) => self.proceed(),
            (Phase::Starting, Event::Started(step, finished)) => {
                if finished {
                    self.phase = Phase::Stopping(StopReason::Finished);
                    Directive::Stop(step, StopReason::Finished)
                } else {
                    self.phase = Phase::Running(step);
                    Directive::Poll
                }
            },
            (Phase::Running(step), Event::Polled(finished)) => {
                if finished {
                    self.phase = Phase::Stopping(StopReason::Finished);
                    Directive::Stop(step, StopReason::Finished)
                } else {
                    self.phase = Phase::Running(step);
                    Directive::Poll
                }
            },
            (Phase::Running(step), Event::Pause) => {
                self.phase = Phase::Stopping(StopReason::Paused);
                Directive::Stop(step, StopReason::Paused)
            },
            (Phase::Running(step), Event::Cancel) => {
                self.phase = Phase::Stopping(StopReason::Canceled);
                Directive::Stop(step, StopReason::Canceled)
            },
            (Phase::Stopping(reason), Event::Stopped(step)) => {
                match reason {
                    StopReason::Paused => {
                        self.queue.push_front(step);
                        Directive::Rest
                    },
                    _ => {
                        self.phase = Phase::Dropping(reason);
                        Directive::Drop(step, DropReason::Done)
                    },
                }
            },
            (Phase::Dropping(reason), Event::Dropped) => {
                match reason {
                    StopReason::Finished => self.proceed(),
                    _ => Directive::Rest,
                }
            },
            (phase, Event::Started(step, _)) => {
                self.phase = phase;
                Directive::Drop(step, DropReason::Skipped)
            },
            (phase, Event::Stopped(step)) => {
                self.phase = phase;
                Directive::Drop(step, DropReason::Skipped)
            },
            (Phase::Running(step), _) => {
                self.phase = Phase::Running(step);
                Directive::Poll
            },
            (phase, _) => {
                self.phase = phase;
                Directive::Rest
            },
        }
    }

    /// Hands out the first step that waits, if there is one.
    fn proceed(&mut self) -> (directive: Directive<A>)
        requires
            old(self).phase is Idle,
        ensures
            (final(self)@, directive) == proceed(old(self)@.queue),
    {
        match self.queue.pop_front() {
            Some(step) => {
                self.phase = Phase::Starting;
                proof {
                    assert(self.queue@ =~= old(self).queue@.skip(1));
                }
                Directive::Start(step)
            },
            None => Directive::Rest,
        }
    }
}

/// The state of `agent` after it has taken note of `events`, in order.
pub open spec fn after<A>(agent: AgentView<A>, events: Seq<Event<A>>) -> AgentView<A>
    decreases events.len(),
{
    if events.len() == 0 {
        agent
    } else {
        step(after(agent, events.drop_last()), events.last()).0
    }
}

/// What `agent` answers to each of `events`, in order.
pub open spec fn answers<A>(agent: AgentView<A>, events: Seq<Event<A>>) -> Seq<Directive<A>>
    decreases events.len(),
{
    if events.len() == 0 {
        Seq::empty()
    } else {
        answers(agent, events.drop_last()).push(
            step(after(agent, events.drop_last()), events.last()).1,
        )
    }
}

/// A point in the life of a step: it is handed out to be started, or it is
/// handed out to be stopped because it has finished.
pub enum Mark<A> {
    Begin(A),
    End,
}

/// The beginnings and ends among `directives`, in order.
pub open spec fn marks<A>(directives: Seq<Directive<A>>) -> Seq<Mark<A>>
    decreases directives.len(),
{
    if directives.len() == 0 {
        Seq::empty()
    } else {
        let before = marks(directives.drop_last());
        match directives.last() {
            Directive::Start(step) => before.push(Mark::Begin(step)),
            Directive::Stop(_, StopReason::Finished) => before.push(Mark::End),
            _ => before,
        }
    }
}

/// Whether nothing in `events` pauses or cancels a step.
pub open spec fn undisturbed<A>(events: Seq<Event<A>>) -> bool {
    forall|i: int|
        0 <= i < events.len() ==> !(#[trigger] events[i] is Pause) && !(events[i] is Cancel)
}

/// What holds after every run of undisturbed events from an idle agent:
/// the beginnings and ends alternate, the steps begin in the order of the
/// queue, and the agent holds what has not begun.
proof fn lemma_run<A>(queue: Seq<A>, events: Seq<Event<A>>)
    requires
        undisturbed(events),
    ensures
        ({
            let now = after(idle(queue), events);
            let seen = marks(answers(idle(queue), events));
            let begun = (seen.len() + 1) / 2;
            &&& begun <= queue.len()
            &&& now.queue == queue.skip(begun as int)
            &&& seen.len() % 2 == 0 ==> (now.phase is Idle || now.phase == Phase::<A>::Stopping(
                StopReason::Finished,
            ) || now.phase == Phase::<A>::Dropping(StopReason::Finished))
            &&& seen.len() % 2 == 1 ==> (now.phase is Starting || now.phase is Running)
            &&& forall|i: int|
                0 <= i < seen.len() ==> #[trigger] seen[i] == (if i % 2 == 0 {
                    Mark::Begin(queue[i / 2])
                } else {
                    Mark::End
                })
        }),
    decreases events.len(),
{
    if events.len() == 0 {
        assert(queue.skip(0) =~= queue);
    } else {
        let earlier = events.drop_last();
        assert(undisturbed(earlier)) by {
            assert forall|i: int| 0 <= i < earlier.len() implies !(#[trigger] earlier[i] is Pause)
                && !(earlier[i] is Cancel) by {
                assert(earlier[i] == events[i]);
            }
        }
        lemma_run(queue, earlier);
        let before = after(idle(queue), earlier);
        let seen = marks(answers(idle(queue), earlier));
        let begun = (seen.len() + 1) / 2;
        let event = events.last();
        assert(!(event is Pause) && !(event is Cancel)) by {
            assert(events[events.len() - 1] == event);
        }
        let directive = step(before, event).1;
        assert(answers(idle(queue), events).drop_last() =~= answers(idle(queue), earlier));
        if directive is Start {
            assert(before.queue.len() > 0);
            assert(before.queue[0] == queue[begun as int]);
            assert(before.queue.skip(1) =~= queue.skip(begun as int + 1));
        }
    }
}

/// The steps of a queue are started in the order in which they wait, one at
/// a time: whatever the steps report and whenever the agent is woken, as
/// long as no step is paused or canceled, the first thing that happens is
/// that the first step is started, the next is that it is stopped as
/// finished, then the second step is started, and so on. No step is started
/// before the one ahead of it has finished.
pub proof fn lemma_in_order<A>(queue: Seq<A>, events: Seq<Event<A>>)
    requires
        undisturbed(events),
    ensures
        marks(answers(idle(queue), events)).len() <= 2 * queue.len(),
        forall|i: int|
            0 <= i < marks(answers(idle(queue), events)).len() ==> #[trigger] marks(
                answers(idle(queue), events),
            )[i] == (if i % 2 == 0 {
                Mark::Begin(queue[i / 2])
            } else {
                Mark::End
            }),
{
    lemma_run(queue, events);
}

/// What the agent is told when the first `k` steps of `queue` run, each
/// of them done as soon as it has started: it is woken, and for each step
/// in turn it hears that the step has started and is done, that it has been
/// stopped, and that it has been dropped.
pub open spec fn prompt_events<A>(queue: Seq<A>, k: nat) -> Seq<Event<A>>
    decreases k,
{
    if k == 0 {
        seq![Event::Wake]
    } else {
        prompt_events(queue, (k - 1) as nat).push(Event::Started(queue[k - 1], true)).push(
            Event::Stopped(queue[k - 1]),
        ).push(Event::Dropped)
    }
}

/// One more event: the state and the answers go one step further.
proof fn lemma_one_more<A>(agent: AgentView<A>, events: Seq<Event<A>>, event: Event<A>)
    ensures
        after(agent, events.push(event)) == step(after(agent, events), event).0,
        answers(agent, events.push(event)) == answers(agent, events).push(
            step(after(agent, events), event).1,
        ),
        marks(answers(agent, events.push(event))) == (match step(after(agent, events), event).1 {
            Directive::Start(begun) => marks(answers(agent, events)).push(Mark::Begin(begun)),
            Directive::Stop(_, StopReason::Finished) => marks(answers(agent, events)).push(
                Mark::End,
            ),
            _ => marks(answers(agent, events)),
        }),
{
    assert(events.push(event).drop_last() =~= events);
    let said = answers(agent, events).push(step(after(agent, events), event).1);
    assert(said.drop_last() =~= answers(agent, events));
}

/// A queue of steps that are each done as soon as they have started runs
/// to its end once the agent is woken: every step is started and stopped
/// as finished, and the agent is left with nothing to do.
pub proof fn lemma_all_run<A>(queue: Seq<A>, k: nat)
    requires
        k <= queue.len(),
    ensures
        undisturbed(prompt_events(queue, k)),
        k < queue.len() ==> after(idle(queue), prompt_events(queue, k)) == (AgentView {
            queue: queue.skip(k as int + 1),
            phase: Phase::Starting,
        }) && marks(answers(idle(queue), prompt_events(queue, k))).len() == 2 * k + 1,
        k == queue.len() ==> after(idle(queue), prompt_events(queue, k)) == idle(
            Seq::<A>::empty(),
        ) && marks(answers(idle(queue), prompt_events(queue, k))).len() == 2 * k,
    decreases k,
{
    let start = idle(queue);
    if k == 0 {
        let none = Seq::<Event<A>>::empty();
        assert(prompt_events(queue, 0) =~= none.push(Event::Wake));
        lemma_one_more(start, none, Event::Wake);
        assert(queue.len() == 0 ==> queue =~= Seq::<A>::empty());
    } else {
        lemma_all_run(queue, (k - 1) as nat);
        let told = prompt_events(queue, (k - 1) as nat);
        let current = queue[k - 1];
        let first = told.push(Event::Started(current, true));
        let second = first.push(Event::Stopped(current));
        let third = second.push(Event::Dropped);
        lemma_one_more(start, told, Event::Started(current, true));
        lemma_one_more(start, first, Event::Stopped(current));
        lemma_one_more(start, second, Event::Dropped);
        assert(prompt_events(queue, k) == third);
        assert(queue.skip(k as int).len() == 0 ==> queue.skip(k as int) =~= Seq::<A>::empty());
        assert(k < queue.len() ==> queue.skip(k as int).skip(1) =~= queue.skip(k as int + 1));
        assert forall|i: int| 0 <= i < third.len() implies !(#[trigger] third[i] is Pause) && !(
        third[i] is Cancel) by {
            if i < told.len() {
                assert(third[i] == told[i]);
            }
        }
    }
}

} // verus!
