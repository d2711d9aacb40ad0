//! The players, whose turn it is, and which hole is pressed.

use vstd::prelude::*;
use vstd::std_specs::convert::FromSpecImpl;

use crate::game::actions::agent::Agent;
use crate::game::actions::turn::NextPlayer;
use crate::game::actions::{Action, AddOrder, SpawnBoardAndPieces, Step};
use crate::rules::variants::{Buckets, Index, Variant};

pub mod actions;

verus! {

/// A player, by number.
#[derive(Debug, Default, Clone, Copy, PartialEq, Eq, Hash, Structural)]
pub struct Player(pub usize);

impl Player {
    /// The player who sits across from `this`.
    pub open spec fn spec_next(this: Player) -> Player {
        Player(((this.0 + 1) % 2) as usize)
    }

    /// The player whose turn follows that of `this`.
    pub fn next(this: Player) -> (other: Player)
        ensures
            other == Player::spec_next(this),
            other.0 < crate::PLAYER_COUNT,
            this.0 < crate::PLAYER_COUNT ==> other.0 == 1 - this.0,
    {
        Player((this.0 % 2 + 1) % 2)
    }
}

impl From<usize> for Player {
    fn from(value: usize) -> (player: Player) {
        Player(value)
    }
}

impl FromSpecImpl<usize> for Player {
    open spec fn obeys_from_spec() -> bool {
        true
    }

    open spec fn from_spec(value: usize) -> Player {
        Player(value)
    }
}

/// A hole on a player's row, counted from the player's left.
#[derive(Debug, Default, Clone, Copy, PartialEq, Eq, Hash, Structural)]
pub struct Hole(pub usize);

/// The screens that the game goes through.
#[derive(Default, Debug, Clone, Copy, Hash, PartialEq, Eq, Structural)]
pub enum GameState {
    #[default]
    Loading,
    Menu,
    Playing,
}

/// The board that the game is played on, whatever its rules.
pub struct Board(pub Box<dyn Variant + 'static>);

/// The hole that the player has pressed and not yet let go of, if any.
#[derive(Debug, Default, Clone, Copy, PartialEq, Eq)]
pub struct Selected(pub Option<Index>);

/// Whose turn it is. `NoOne` while a move is being played back, so that no
/// second move can begin before the first has been shown.
#[derive(Debug, Default, Clone, Copy, PartialEq, Eq, Structural)]
pub enum PlayerTurn {
    #[default]
    NoOne,
    Player(usize),
}

impl From<PlayerTurn> for Option<usize> {
    fn from(value: PlayerTurn) -> (player: Option<usize>) {
        match value {
            PlayerTurn::Player(p) => Some(p),
            _ => None,
        }
    }
}

impl FromSpecImpl<PlayerTurn> for Option<usize> {
    open spec fn obeys_from_spec() -> bool {
        true
    }

    open spec fn from_spec(value: PlayerTurn) -> Option<usize> {
        match value {
            PlayerTurn::Player(p) => Some(p),
            PlayerTurn::NoOne => None,
        }
    }
}

/// The player who moves first.
pub const FIRST_PLAYER: usize = 1;

/// The steps that open a game: the board and its pieces are put into the
/// world, and the turn goes to the player who moves first.
pub open spec fn spec_opening() -> Seq<Step> {
    seq![
        Step::Single(Action::SpawnBoardAndPieces(SpawnBoardAndPieces)),
        Step::Single(Action::NextPlayer(NextPlayer(Player(FIRST_PLAYER)))),
    ]
}

/// Queues the steps that open a game, behind whatever waits already.
pub fn setup_state(agent: &mut Agent<Step>)
    ensures
        final(agent)@.queue == old(agent)@.queue + spec_opening(),
        final(agent)@.phase == old(agent)@.phase,
{
    agent.add(Step::Single(Action::SpawnBoardAndPieces(SpawnBoardAndPieces)), AddOrder::Back);
    agent.add(Step::Single(Action::NextPlayer(NextPlayer(Player(FIRST_PLAYER)))), AddOrder::Back);
    assert(agent@.queue =~= old(agent)@.queue + spec_opening());
}

/// Whether `player` may not move from the hole `hole` of the own row now:
/// it is not that player's turn, or the game is not being played, or the
/// hole is empty.
pub open spec fn spec_is_invalid_selection(
    player: usize,
    p_turn: PlayerTurn,
    game_state: GameState,
    board: Buckets,
    hole: usize,
) -> bool {
    ||| PlayerTurn::Player(player) != p_turn
    ||| game_state != GameState::Playing
    ||| board[Index::Player(Player(player), Hole(hole))].len() == 0
}

/// Whether a press or a release of `player` on the hole `hole` of the own
/// row is to be turned away. The board is looked at only where the turn is
/// the player's and the game is being played, and only then need the hole
/// exist.
pub fn is_invalid_selection(
    player: usize,
    p_turn: PlayerTurn,
    game_state: GameState,
    board: &Board,
    hole: usize,
) -> (invalid: bool)
    requires
        p_turn == PlayerTurn::Player(player) && game_state == GameState::Playing
            ==> board.0.has_place(Index::Player(Player(player), Hole(hole))),
    ensures
        invalid == spec_is_invalid_selection(player, p_turn, game_state, board.0@, hole),
{
    PlayerTurn::Player(player) != p_turn || game_state != GameState::Playing
        || board.0.get_bucket_entities(Index::Player(Player(player), Hole(hole))).is_empty()
}

} // verus!
