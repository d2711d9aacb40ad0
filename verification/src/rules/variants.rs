//! How the holes and score piles of a board are addressed.

use vstd::multiset::Multiset;
use vstd::prelude::*;

use bevy::ecs::entity::Entity;

use crate::game::actions::Step;
use crate::game::{Board, Hole, Player};
use crate::rules::position::Position;
use crate::rules::variants::kalah::{Kalah, HOLE_COUNT};
use crate::PLAYER_COUNT;

pub mod kalah;
pub mod laws;

verus! {

/// A place on the board that holds pieces: a hole on a player's row, or a
/// player's score pile.
#[derive(Debug, Clone, Copy, PartialEq, Eq, Hash, Structural)]
pub enum Index {
    Player(Player, Hole),
    Score(Player),
}

impl Index {
    /// Whether the index names a place that exists on the board.
    pub open spec fn valid(self) -> bool {
        match self {
            Index::Player(Player(p), Hole(h)) => p < PLAYER_COUNT && h < HOLE_COUNT,
            Index::Score(Player(p)) => p < PLAYER_COUNT,
        }
    }

    /// The player on whose side the place lies.
    pub open spec fn spec_player(self) -> usize {
        match self {
            Index::Player(Player(p), _) => p,
            Index::Score(Player(p)) => p,
        }
    }

    /// The hole, where the index names one.
    pub open spec fn spec_hole(self) -> Option<Hole> {
        match self {
            Index::Player(_, h) => Some(h),
            Index::Score(_) => None,
        }
    }

    /// The place that follows this one on the path of a player who sows
    /// from a hole of `start`: along the row; from the last hole of `start`
    /// into `start`'s score pile, from the last hole of the other player
    /// past that player's score pile; and from a score pile or a passed one
    /// to the first hole of the next row.
    pub open spec fn spec_next(self, start: Player) -> Index {
        match self {
            Index::Player(Player(p), Hole(h)) => {
                if h >= 5 {
                    if p == start.0 {
                        Index::Score(Player(p))
                    } else {
                        Index::Player(Player::spec_next(Player(p)), Hole(0))
                    }
                } else {
                    Index::Player(Player(p), Hole((h + 1) as usize))
                }
            },
            Index::Score(Player(p)) => Index::Player(Player::spec_next(Player(p)), Hole(0)),
        }
    }

    /// The hole across the board from this one; a score pile has none.
    pub open spec fn spec_opposite_bucket(self) -> Option<Index> {
        match self {
            Index::Player(player, Hole(h)) => Some(
                Index::Player(Player::spec_next(player), Hole((HOLE_COUNT - h - 1) as usize)),
            ),
            Index::Score(_) => None,
        }
    }

    pub fn next(self, start: Player) -> (following: Index)
        ensures
            following == self.spec_next(start),
            self.valid() ==> following.valid(),
    {
        match self {
            Index::Player(Player(p), Hole(h)) => {
                if h >= 5 {
                    if p == start.0 {
                        Index::Score(Player(p))
                    } else {
                        Index::Player(Player::next(Player(p)), Hole(0))
                    }
                } else {
                    Index::Player(Player(p), Hole(h + 1))
                }
            },
            Index::Score(Player(p)) => Index::Player(Player::next(Player(p)), Hole(0)),
        }
    }

    pub fn opposite_bucket(&self) -> (across: Option<Index>)
        requires
            self matches Index::Player(_, Hole(h)) ==> h < HOLE_COUNT,
        ensures
            across == self.spec_opposite_bucket(),
            across matches Some(i) ==> i.valid(),
    {
        match self {
            Index::Player(player, Hole(h)) => {
                // The hole that is opposite the current hole has a different index than ours.
                Some(Index::Player(Player::next(*player), Hole(HOLE_COUNT - *h - 1)))
            },
            Index::Score(_) => None,
        }
    }

    pub fn player(&self) -> (p: usize)
        ensures
            p == self.spec_player(),
    {
        match self {
            Index::Player(Player(p), _) => *p,
            Index::Score(Player(p)) => *p,
        }
    }

    pub fn hole(&self) -> (h: Option<Hole>)
        ensures
            h == self.spec_hole(),
    {
        match self {
            Index::Player(_, h) => Some(*h),
            Index::Score(_) => None,
        }
    }
}

/// What a board holds: for every place on it, the pieces that lie there, in
/// the order in which they came.
pub type Buckets = Map<Index, Seq<Entity>>;

/// The board `board` with `stone` added at `at`, behind what lies there.
pub open spec fn place(board: Buckets, at: Index, stone: Entity) -> Buckets {
    board.insert(at, board[at].push(stone))
}

/// A set of rules: a board, where its places are in space, and what a move
/// does to it.
pub trait Variant: Send + Sync {
    /// What the board holds.
    spec fn view(&self) -> Buckets;

    /// Whether `index` names a place of the board.
    spec fn has_place(&self, index: Index) -> bool;

    spec fn spec_hole_count(&self) -> usize;

    spec fn spec_starting_pieces(&self) -> usize;

    /// Where in space the pieces of `index` are dropped.
    spec fn spec_bucket_position(&self, index: Index) -> Position;

    /// All the pieces on the board, each as often as it lies on it.
    spec fn handles(&self) -> Multiset<Entity>;

    /// What the board holds after the move from `index`.
    spec fn spec_after_move(&self, index: Index) -> Buckets;

    /// The steps that show the move of `turn` from `index`, in order.
    spec fn spec_move_steps(&self, index: Index, turn: Player) -> Seq<Step>;

    /// The number of holes on each player's row. The places of the board
    /// are that many holes and one score pile for each player.
    fn hole_count(&self) -> (count: usize)
        ensures
            count == self.spec_hole_count(),
            forall|p: usize, h: usize|
                #[trigger] self.has_place(Index::Player(Player(p), Hole(h))) <==> p < PLAYER_COUNT
                    && h < count,
            forall|p: usize| #[trigger] self.has_place(Index::Score(Player(p))) <==> p < PLAYER_COUNT,
    ;

    /// The number of pieces that each hole holds when the game begins.
    fn starting_pieces(&self) -> (count: usize)
        ensures
            count == self.spec_starting_pieces(),
    ;

    /// Where in space the pieces of `index` are dropped. The answer is the
    /// same whenever the board and the index are.
    fn bucket_position(&self, index: Index) -> (position: Position)
        requires
            self.has_place(index),
        ensures
            position == self.spec_bucket_position(index),
    ;

    /// The pieces at `index`.
    fn get_bucket_entities(&self, index: Index) -> (bucket: &[Entity])
        requires
            self.has_place(index),
        ensures
            self@.dom().contains(index),
            bucket@ == self@[index],
    ;

    /// The pieces at `index`, to be changed at will: whatever is done to
    /// them is done to that place of the board and to no other.
    fn get_bucket_entities_mut(&mut self, index: Index) -> (bucket: &mut Vec<Entity>)
        requires
            old(self).has_place(index),
        ensures
            bucket@ == old(self)@[index],
            final(self)@ == old(self)@.insert(index, final(bucket)@),
            forall|other: Index| final(self).has_place(other) == old(self).has_place(other),
    ;

    /// Adds `entity` to the hole `index`, behind what lies there.
    fn push_entity(&mut self, index: Index, entity: Entity)
        requires
            index is Player,
            old(self).has_place(index),
        ensures
            final(self)@ == place(old(self)@, index, entity),
            forall|other: Index| final(self).has_place(other) == old(self).has_place(other),
    ;

    /// Resolves the move of `turn` from the hole `index`: changes the board
    /// and hands back the steps that show the change, in order, each of
    /// them ready to run. No piece comes to the board or leaves it.
    ///
    /// Nothing is asked of the hole but that it exists: whether `turn` may
    /// move from it is the caller's to decide.
    fn perform_move(&mut self, index: Index, turn: Player) -> (steps: Vec<Step>)
        requires
            index is Player,
            old(self).has_place(index),
        ensures
            final(self)@ == old(self).spec_after_move(index),
            steps@ == old(self).spec_move_steps(index, turn),
            forall|i: int| 0 <= i < steps.len() ==> (#[trigger] steps[i]).wf(),
            final(self).handles() == old(self).handles(),
            forall|other: Index| final(self).has_place(other) == old(self).has_place(other),
    ;
}

/// The rules that the game is played by.
#[derive(Debug)]
pub enum ChosenVariant {
    /// The Kalah variant. Simple, considered a childs game.
    Kalah(Kalah),
}

impl Default for ChosenVariant {
    fn default() -> (chosen: Self)
        ensures
            chosen->Kalah_0@ == Kalah::spec_empty(),
    {
        Self::Kalah(Kalah::default())
    }
}

impl ChosenVariant {
    /// A board of the chosen rules, holding what the chosen board holds.
    pub fn to_variant(&self) -> (board: Board)
        ensures
            board.0@ == self->Kalah_0@,
            forall|index: Index| board.0.has_place(index) == index.valid(),
    {
        match self {
            ChosenVariant::Kalah(v) => Board(Box::new(v.clone())),
        }
    }
}

} // verus!
