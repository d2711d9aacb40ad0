//! The steps that the game queues, and the composite step that runs several
//! of them as one.

use vstd::prelude::*;

use bevy::ecs::entity::Entity;

use crate::game::actions::agent::{added, step, Agent, AgentView, Directive, Event, Phase};
use crate::game::actions::turn::{MovePiece, NextPlayer, SleepPieces, TimerCommand, Wait};
use crate::game::Player;
use crate::rules::variants::Index;

pub mod agent;
pub mod board;
pub mod turn;

verus! {

/// Why a step that had been started was stopped.
#[derive(Debug, Clone, Copy, PartialEq, Eq, Structural)]
pub enum StopReason {
    /// The step reported that it had finished.
    Finished,
    /// The step was canceled: what it had done so far is discarded.
    Canceled,
    /// The step was paused: it keeps what it needs to go on later.
    Paused,
}

/// Why a step left the queue for good.
#[derive(Debug, Clone, Copy, PartialEq, Eq, Structural)]
pub enum DropReason {
    /// The step had been started and was finished or canceled.
    Done,
    /// The step was skipped before it was started.
    Skipped,
    /// The queue was cleared.
    Cleared,
}

/// The end of the queue at which a step is added.
#[derive(Debug, Default, Clone, Copy, PartialEq, Eq, Structural)]
pub enum AddOrder {
    #[default]
    Back,
    Front,
}

/// A step that hands `input` to a procedure of the world outside and is done
/// as soon as the procedure has run.
#[derive(Debug, Default, Clone, Copy, PartialEq, Eq)]
pub struct RunSystem<I> {
    pub input: I,
}

impl RunSystem<()> {
    pub fn new() -> (step: Self)
        ensures
            step.input == (),
    {
        RunSystem { input: () }
    }
}

impl<I> RunSystem<I> {
    pub fn with_input(input: I) -> (step: Self)
        ensures
            step.input == input,
    {
        RunSystem { input }
    }

    /// Always true: the procedure has run when `on_start` returns.
    pub fn is_finished(&self) -> (finished: bool)
        ensures
            finished,
    {
        true
    }

    /// The input to run the procedure with, and `true` for "done at once".
    pub fn on_start(&self) -> (started: (&I, bool))
        ensures
            *started.0 == self.input,
            started.1,
    {
        (&self.input, true)
    }
}

/// Asks for the counters on screen to be read again from the board.
pub type UpdateLabels = RunSystem<()>;

/// Asks for the move from the given hole to be resolved.
pub type PlayerMove = RunSystem<Index>;

/// Asks for the given player to be shown as the winner.
pub type DeclareWinner = RunSystem<Player>;

/// Puts the board and its pieces into the world.
#[derive(Debug, Default, Clone, Copy, PartialEq, Eq, Structural)]
pub struct SpawnBoardAndPieces;

/// One unit of queued work.
#[derive(Debug, Clone, Copy, PartialEq, Eq)]
pub enum Action {
    SpawnBoardAndPieces(SpawnBoardAndPieces),
    UpdateLabels(UpdateLabels),
    PlayerMove(PlayerMove),
    MovePiece(MovePiece),
    Wait(Wait),
    NextPlayer(NextPlayer),
    DeclareWinner(DeclareWinner),
    SleepPieces(SleepPieces),
}

impl Action {
    /// Whether the action is done, given what the agent's timer shows:
    /// `None` where the agent has no timer, else whether it has run out.
    pub open spec fn spec_is_finished(self, timer: Option<bool>) -> bool {
        match self {
            Action::Wait(_) => Wait::spec_is_finished(timer),
            _ => true,
        }
    }

    /// What stopping this action asks to be done with the agent's timer.
    pub open spec fn spec_on_stop(self, agent: Option<Entity>, reason: StopReason) -> TimerCommand {
        match self {
            Action::Wait(_) => Wait::spec_on_stop(agent, reason),
            _ => TimerCommand::Leave,
        }
    }

    pub fn is_finished(&self, timer: Option<bool>) -> (finished: bool)
        ensures
            finished == self.spec_is_finished(timer),
    {
        match self {
            Action::Wait(wait) => wait.is_finished(timer),
            _ => true,
        }
    }

    /// Stops the action. Only a wait has anything to put in order.
    pub fn on_stop(&self, agent: Option<Entity>, reason: StopReason) -> (command: TimerCommand)
        ensures
            command == self.spec_on_stop(agent, reason),
    {
        match self {
            Action::Wait(wait) => wait.on_stop(agent, reason),
            _ => TimerCommand::Leave,
        }
    }
}

/// What becomes of a chain when it is dropped.
#[derive(Debug, Clone, Copy, PartialEq, Eq)]
pub enum ChainDrop<const N: usize> {
    /// The last action of the chain has run. Nothing is left to do.
    Finished,
    /// The chain was canceled, or dropped unfinished: `on_remove` is owed to
    /// each of its actions, and then the chain is gone.
    Remove(ChainActions<N>),
    /// Actions remain, but there is no agent to run them: the chain is gone.
    Orphaned,
    /// Actions remain: the chain goes back to the front of its agent's
    /// queue, to run its next action.
    Requeue(ChainActions<N>),
}

/// A step that runs the given actions in sequence, as if they were one.
///
/// Every lifecycle call goes to the action whose turn it is. When the chain
/// is dropped as done, the turn passes to the next action and the chain asks
/// to be queued again, in front of everything else.
#[derive(Debug, Clone, Copy, PartialEq, Eq)]
pub struct ChainActions<const N: usize> {
    actions: [Action; N],
    index: usize,
    canceled: bool,
}

impl<const N: usize> ChainActions<N> {
    /// The actions of the chain, in the order in which they run.
    pub closed spec fn spec_actions(&self) -> Seq<Action> {
        self.actions@
    }

    /// How many actions of the chain have been dropped.
    pub closed spec fn spec_index(&self) -> nat {
        self.index as nat
    }

    /// Whether the chain was last stopped by a cancellation.
    pub closed spec fn spec_canceled(&self) -> bool {
        self.canceled
    }

    /// The chain as `new` makes it.
    pub closed spec fn spec_new(actions: [Action; N]) -> Self {
        ChainActions { actions, index: 0, canceled: false }
    }

    /// The chain with `index` of its actions dropped, and `canceled` as
    /// given.
    pub closed spec fn spec_with(self, index: nat, canceled: bool) -> Self {
        ChainActions { actions: self.actions, index: index as usize, canceled }
    }

    /// An action is left whose turn it is.
    pub open spec fn wf(&self) -> bool {
        self.spec_index() < N
    }

    /// The action whose turn it is.
    pub open spec fn spec_current(&self) -> Action
        recommends
            self.wf(),
    {
        self.spec_actions()[self.spec_index() as int]
    }

    /// What becomes of the chain when it is dropped for `reason` while
    /// `agent` tells whether its agent is still there.
    pub open spec fn spec_on_drop(self, agent: Option<Entity>, reason: DropReason) -> ChainDrop<N> {
        let rest = self.spec_with(self.spec_index() + 1, self.spec_canceled());
        if self.spec_index() + 1 >= N {
            ChainDrop::Finished
        } else if self.spec_canceled() || reason != DropReason::Done {
            ChainDrop::Remove(rest)
        } else if agent is None {
            ChainDrop::Orphaned
        } else {
            ChainDrop::Requeue(rest)
        }
    }

    /// A new chain, seen through its three views.
    pub proof fn lemma_new(actions: [Action; N])
        ensures
            Self::spec_new(actions).spec_actions() == actions@,
            Self::spec_new(actions).spec_index() == 0,
            !Self::spec_new(actions).spec_canceled(),
    {
    }

    /// A chain that has gone on, seen through its three views.
    pub proof fn lemma_with(self, index: nat, canceled: bool)
        requires
            index <= usize::MAX,
        ensures
            self.spec_with(index, canceled).spec_actions() == self.spec_actions(),
            self.spec_with(index, canceled).spec_index() == index,
            self.spec_with(index, canceled).spec_canceled() == canceled,
            self.spec_with(self.spec_index(), self.spec_canceled()) == self,
    {
    }

    pub fn new(actions: [Action; N]) -> (chain: Self)
        ensures
            chain == Self::spec_new(actions),
            chain.spec_actions() == actions@,
            chain.spec_index() == 0,
            !chain.spec_canceled(),
    {
        Self { actions, index: 0, canceled: false }
    }

    /// Whether an action is left whose turn it is.
    pub fn has_current(&self) -> (left: bool)
        ensures
            left == self.wf(),
    {
        self.index < N
    }

    /// How many actions of the chain have been dropped.
    pub fn index(&self) -> (index: usize)
        ensures
            index == self.spec_index(),
    {
        self.index
    }

    /// Whether the chain was last stopped by a cancellation.
    pub fn canceled(&self) -> (canceled: bool)
        ensures
            canceled == self.spec_canceled(),
    {
        self.canceled
    }

    /// The actions, for the lifecycle calls that go to each of them
    /// (`on_add`, and `on_remove` after [`ChainDrop::Remove`]).
    pub fn actions(&self) -> (actions: &[Action; N])
        ensures
            actions@ == self.spec_actions(),
    {
        &self.actions
    }

    /// The action that `is_finished`, `on_start`, `on_stop` and `on_remove`
    /// go to.
    pub fn current(&self) -> (action: &Action)
        requires
            self.wf(),
        ensures
            *action == self.spec_current(),
    {
        &self.actions[self.index]
    }

    pub fn is_finished(&self, timer: Option<bool>) -> (finished: bool)
        requires
            self.wf(),
        ensures
            finished == self.spec_current().spec_is_finished(timer),
    {
        self.actions[self.index].is_finished(timer)
    }

    /// Remembers whether the chain was canceled, and hands out the action
    /// that is to be stopped for the same reason.
    pub fn on_stop(&mut self, reason: StopReason) -> (action: Action)
        requires
            old(self).wf(),
        ensures
            action == old(self).spec_current(),
            *final(self) == old(self).spec_with(
                old(self).spec_index(),
                reason == StopReason::Canceled,
            ),
    {
        self.canceled = matches!(reason, StopReason::Canceled);
        self.actions[self.index]
    }

    pub fn on_drop(self, agent: Option<Entity>, reason: DropReason) -> (outcome: ChainDrop<N>)
        requires
            self.wf(),
        ensures
            outcome == self.spec_on_drop(agent, reason),
    {
        let mut chain = self;
        chain.index += 1;

        if chain.index >= N {
            return ChainDrop::Finished;
        }
        if chain.canceled || !matches!(reason, DropReason::Done) {
            return ChainDrop::Remove(chain);
        }
        if agent.is_none() {
            return ChainDrop::Orphaned;
        }
        ChainDrop::Requeue(chain)
    }
}

/// What an agent's queue holds: one action, or a chain of two.
#[derive(Debug, Clone, Copy, PartialEq, Eq)]
pub enum Step {
    Single(Action),
    Chain(ChainActions<2>),
}

impl Step {
    /// An action is left whose turn it is.
    pub open spec fn wf(self) -> bool {
        match self {
            Step::Single(_) => true,
            Step::Chain(chain) => chain.wf(),
        }
    }

    /// The action that the lifecycle calls of the step go to.
    pub open spec fn spec_current(self) -> Action
        recommends
            self.wf(),
    {
        match self {
            Step::Single(action) => action,
            Step::Chain(chain) => chain.spec_current(),
        }
    }

    /// The step after it has been stopped for `reason`.
    pub open spec fn spec_on_stop(self, reason: StopReason) -> Step {
        match self {
            Step::Single(_) => self,
            Step::Chain(chain) => Step::Chain(
                chain.spec_with(chain.spec_index(), reason == StopReason::Canceled),
            ),
        }
    }

    /// The step that is to be queued again, in front, when this step is
    /// dropped: the rest of a chain that was dropped as done while there
    /// was an agent to run the rest.
    pub open spec fn spec_on_drop(self, agent: Option<Entity>, reason: DropReason) -> Option<Step> {
        match self {
            Step::Single(_) => None,
            Step::Chain(chain) => match chain.spec_on_drop(agent, reason) {
                ChainDrop::Requeue(rest) => Some(Step::Chain(rest)),
                _ => None,
            },
        }
    }

    /// Whether an action is left whose turn it is.
    pub fn has_current(&self) -> (left: bool)
        ensures
            left == self.wf(),
    {
        match self {
            Step::Single(_) => true,
            Step::Chain(chain) => chain.has_current(),
        }
    }

    pub fn current(&self) -> (action: Action)
        requires
            self.wf(),
        ensures
            action == self.spec_current(),
    {
        match self {
            Step::Single(action) => *action,
            Step::Chain(chain) => *chain.current(),
        }
    }

    pub fn is_finished(&self, timer: Option<bool>) -> (finished: bool)
        requires
            self.wf(),
        ensures
            finished == self.spec_current().spec_is_finished(timer),
    {
        match self {
            Step::Single(action) => action.is_finished(timer),
            Step::Chain(chain) => chain.is_finished(timer),
        }
    }

    /// Stops the step: the action whose turn it is is stopped, and a chain
    /// remembers whether it was canceled.
    pub fn on_stop(&mut self, agent: Option<Entity>, reason: StopReason) -> (command: TimerCommand)
        requires
            old(self).wf(),
        ensures
            *final(self) == old(self).spec_on_stop(reason),
            final(self).wf(),
            command == old(self).spec_current().spec_on_stop(agent, reason),
    {
        match self {
            Step::Single(action) => action.on_stop(agent, reason),
            Step::Chain(chain) => {
                proof {
                    chain.lemma_with(chain.spec_index(), reason == StopReason::Canceled);
                }
                let action = chain.on_stop(reason);
                action.on_stop(agent, reason)
            },
        }
    }

    /// Drops the step. The rest of a chain goes back to the front of
    /// `queue`, unless the chain has come to its end, was canceled, was not
    /// dropped as done, or has lost its agent.
    pub fn on_drop(self, agent: Option<Entity>, queue: &mut Agent<Step>, reason: DropReason)
        requires
            self.wf(),
        ensures
            final(queue)@.phase == old(queue)@.phase,
            final(queue)@.queue == (match self.spec_on_drop(agent, reason) {
                Some(rest) => added(old(queue)@.queue, rest, AddOrder::Front),
                None => old(queue)@.queue,
            }),
            self.spec_on_drop(agent, reason) matches Some(rest) ==> rest.wf(),
    {
        match self {
            Step::Single(_) => {},
            Step::Chain(chain) => {
                proof {
                    chain.lemma_with(chain.spec_index() + 1, chain.spec_canceled());
                }
                match chain.on_drop(agent, reason) {
                    ChainDrop::Requeue(rest) => {
                        queue.add(Step::Chain(rest), AddOrder::Front);
                    },
                    _ => {},
                }
            },
        }
    }
}

/// A chain runs its actions back to back: when it has been dropped as done
/// with an action left, it is the rest of the chain that the agent starts
/// next, whatever else waits, and the action whose turn it is then is the
/// next of the chain.
pub proof fn lemma_chain_goes_on(chain: ChainActions<2>, agent: Entity, queue: Seq<Step>)
    requires
        chain.spec_index() + 1 < 2,
        !chain.spec_canceled(),
    ensures
        ({
            let rest = Step::Chain(chain).spec_on_drop(Some(agent), DropReason::Done);
            &&& rest is Some
            &&& rest->0.wf()
            &&& rest->0.spec_current() == chain.spec_actions()[chain.spec_index() as int + 1]
            &&& step(
                AgentView {
                    queue: added(queue, rest->0, AddOrder::Front),
                    phase: Phase::Dropping(StopReason::Finished),
                },
                Event::Dropped,
            ) == (AgentView { queue, phase: Phase::Starting }, Directive::Start(rest->0))
        }),
{
    chain.lemma_with(chain.spec_index() + 1, chain.spec_canceled());
    let rest = Step::Chain(chain).spec_on_drop(Some(agent), DropReason::Done);
    assert(added(queue, rest->0, AddOrder::Front).skip(1) =~= queue);
}

} // verus!
