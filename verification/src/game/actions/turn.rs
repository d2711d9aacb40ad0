//! The steps of a turn: moving a piece, waiting, and passing the turn on.

use vstd::prelude::*;

use bevy::ecs::entity::Entity;

use crate::game::actions::{Action, ChainActions, Step, StopReason, UpdateLabels};
use crate::game::{Board, Player, PlayerTurn};
use crate::rules::position::Position;
use crate::rules::variants::Index;

verus! {

/// What a wait asks to be done with its agent's timer.
#[derive(Debug, Clone, Copy, PartialEq, Eq, Structural)]
pub enum TimerCommand {
    /// Leave things as they are.
    Leave,
    /// Give the agent a timer that runs once, for this many milliseconds.
    Insert(u64),
    /// Let the agent's timer run again.
    Unpause,
    /// Hold the agent's timer where it is.
    Pause,
    /// Take the agent's timer away.
    Remove,
}

/// A step that lasts for a given time.
///
/// The time is kept by a timer that belongs to the agent and is run by the
/// world outside. A wait only looks at it: `None` stands for "the agent has
/// no timer", `Some(finished)` for a timer and whether it has run out.
#[derive(Debug, Clone, Copy, PartialEq, Eq, Structural)]
pub struct Wait {
    /// How long to wait, in milliseconds.
    pub millis: u64,
}

impl Wait {
    pub open spec fn spec_is_finished(timer: Option<bool>) -> bool {
        match timer {
            Some(finished) => finished,
            None => true,
        }
    }

    /// What `on_start` asks for and reports for a wait of `millis`, by what
    /// the timer shows.
    pub open spec fn spec_on_start(millis: u64, timer: Option<bool>) -> (TimerCommand, bool) {
        match timer {
            Some(finished) => (TimerCommand::Unpause, finished),
            None => (TimerCommand::Insert(millis), false),
        }
    }

    pub fn from_millis(millis: u64) -> (wait: Self)
        ensures
            wait.millis == millis,
    {
        Self { millis }
    }

    /// A wait with no timer to look at counts as over.
    pub fn is_finished(&self, timer: Option<bool>) -> (finished: bool)
        ensures
            finished == Self::spec_is_finished(timer),
    {
        match timer {
            Some(finished) => finished,
            None => true,
        }
    }

    /// Starts the wait, or takes it up again after a pause.
    ///
    /// Without a timer the wait begins: a timer is asked for and the wait is
    /// not over. With one, the wait had been paused: the timer is let run
    /// again, and the wait is over if the timer had already run out.
    pub fn on_start(&self, timer: Option<bool>) -> (started: (TimerCommand, bool))
        ensures
            started == Self::spec_on_start(self.millis, timer),
    {
        match timer {
            None => (TimerCommand::Insert(self.millis), false),
            Some(_) => (TimerCommand::Unpause, self.is_finished(timer)),
        }
    }

    /// What stopping a wait asks to be done with the timer.
    pub open spec fn spec_on_stop(agent: Option<Entity>, reason: StopReason) -> TimerCommand {
        if agent is None {
            TimerCommand::Leave
        } else if reason == StopReason::Paused {
            TimerCommand::Pause
        } else {
            TimerCommand::Remove
        }
    }

    /// Stops the wait: a pause holds the timer, anything else takes it away.
    /// Where the agent is gone, so is its timer, and nothing is asked for.
    pub fn on_stop(&self, agent: Option<Entity>, reason: StopReason) -> (command: TimerCommand)
        ensures
            command == Self::spec_on_stop(agent, reason),
    {
        if agent.is_none() {
            return TimerCommand::Leave;
        }
        match reason {
            StopReason::Paused => TimerCommand::Pause,
            _ => TimerCommand::Remove,
        }
    }
}

/// Puts a piece at a place.
#[derive(Debug, Clone, Copy, PartialEq, Eq)]
pub struct MovePiece {
    pub stone: Entity,
    pub destination: Position,
}

impl MovePiece {
    /// How long the board rests after a piece has been put down, in
    /// milliseconds.
    pub const PAUSE_MILLIS: u64 = 100;

    /// The pair of actions that `new_action` chains.
    pub open spec fn spec_pair(stone: Entity, destination: Position) -> [Action; 2] {
        [
            Action::MovePiece(MovePiece { stone, destination }),
            Action::Wait(Wait { millis: Self::PAUSE_MILLIS }),
        ]
    }

    pub open spec fn spec_new_action(stone: Entity, destination: Position) -> ChainActions<2> {
        ChainActions::<2>::spec_new(Self::spec_pair(stone, destination))
    }

    /// The move of `stone` to `destination`, followed by a short rest.
    pub fn new_action(stone: Entity, destination: Position) -> (chain: ChainActions<2>)
        ensures
            chain == Self::spec_new_action(stone, destination),
            chain.wf(),
    {
        ChainActions::new(
            [
                Action::MovePiece(Self { stone, destination }),
                Action::Wait(Wait::from_millis(Self::PAUSE_MILLIS)),
            ],
        )
    }
}

/// Gives the turn to a player.
#[derive(Debug, Clone, Copy, PartialEq, Eq, Structural)]
pub struct NextPlayer(pub Player);

impl NextPlayer {
    /// How long the pieces are left to settle before they are put to rest,
    /// in milliseconds.
    pub const SETTLE_MILLIS: u64 = 500;

    /// Whose turn it is once the step has started.
    pub open spec fn spec_turn(self) -> PlayerTurn {
        PlayerTurn::Player(self.0.0)
    }

    /// The steps that the start of a turn adds to the back of the queue.
    pub open spec fn spec_follow_up() -> Seq<Step> {
        seq![
            Step::Single(Action::UpdateLabels(UpdateLabels { input: () })),
            Step::Single(Action::Wait(Wait { millis: Self::SETTLE_MILLIS })),
            Step::Single(Action::SleepPieces(SleepPieces)),
        ]
    }

    /// Always true: the turn has changed hands when `on_start` returns.
    pub fn is_finished(&self) -> (finished: bool)
        ensures
            finished,
    {
        true
    }

    /// Gives the turn to the player, and hands back what is to follow at
    /// the back of the queue: the counters are redrawn, the pieces are left
    /// to settle for a while, and are then put to rest. The second part of
    /// the result is `true`: the step is done at once.
    pub fn on_start(&self, turn: &mut PlayerTurn) -> (started: (Vec<Step>, bool))
        ensures
            *final(turn) == self.spec_turn(),
            started.0@ == Self::spec_follow_up(),
            started.1,
    {
        *turn = PlayerTurn::Player(self.0.0);
        let mut steps: Vec<Step> = Vec::new();
        steps.push(Step::Single(Action::UpdateLabels(UpdateLabels::new())));
        steps.push(Step::Single(Action::Wait(Wait::from_millis(Self::SETTLE_MILLIS))));
        steps.push(Step::Single(Action::SleepPieces(SleepPieces)));
        assert(steps@ =~= Self::spec_follow_up());
        (steps, true)
    }
}

/// Lets every piece come to rest.
#[derive(Debug, Default, Clone, Copy, PartialEq, Eq, Structural)]
pub struct SleepPieces;

/// The steps that show a move, given those that show what it does to the
/// board: first the counters are redrawn.
pub open spec fn spec_shown(steps: Seq<Step>) -> Seq<Step> {
    seq![Step::Single(Action::UpdateLabels(UpdateLabels { input: () }))] + steps
}

/// Resolves the move from the hole `index` of the player whose turn it is.
///
/// The turn is no one's from here on, until a step gives it to a player
/// again. The board is changed as its rules say, and the steps that come
/// back are to be queued behind whatever waits: they show the move.
pub fn perform_move(index: Index, board: &mut Board, p_turn: &mut PlayerTurn) -> (steps: Vec<Step>)
    requires
        *old(p_turn) is Player,
        index is Player,
        old(board).0.has_place(index),
    ensures
        *final(p_turn) == PlayerTurn::NoOne,
        final(board).0@ == old(board).0.spec_after_move(index),
        steps@ == spec_shown(old(board).0.spec_move_steps(index, Player(old(p_turn)->0))),
        forall|i: int| 0 <= i < steps.len() ==> (#[trigger] steps[i]).wf(),
        final(board).0.handles() == old(board).0.handles(),
        forall|other: Index| final(board).0.has_place(other) == old(board).0.has_place(other),
{
    let turn = match *p_turn {
        PlayerTurn::Player(turn) => turn,
        PlayerTurn::NoOne => unreached(),
    };
    *p_turn = PlayerTurn::NoOne;

    let mut actions = board.0.perform_move(index, Player(turn));
    let mut steps: Vec<Step> = Vec::new();
    steps.push(Step::Single(Action::UpdateLabels(UpdateLabels::new())));
    steps.append(&mut actions);
    steps
}

} // verus!
