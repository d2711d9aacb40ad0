//! The Kalah board and the rules of a Kalah move.

use vstd::multiset::Multiset;
use vstd::prelude::*;

use bevy::ecs::entity::Entity;

use crate::game::actions::turn::{MovePiece, NextPlayer};
use crate::game::actions::{Action, DeclareWinner, RunSystem, Step};
use crate::game::{Hole, Player};
use crate::rules::position::Position;
use crate::rules::variants::laws::{handles, lemma_move_conserves, lemma_steps_ready};
use crate::rules::variants::{place, Buckets, Index, Variant};
use crate::PLAYER_COUNT;

verus! {

/// The number of holes on each player's row.
pub const HOLE_COUNT: usize = 6;

/// The number of pieces that each hole holds when the game begins.
pub const STARTING_PIECES: usize = 4;

/// One player's half of the board: a row of holes and a score pile. Within
/// a hole or the pile the pieces lie in the order in which they came.
#[derive(Debug, Hash, PartialEq, Eq)]
pub struct Side {
    buckets: [Vec<Entity>; HOLE_COUNT],
    home: Vec<Entity>,
}

/// The board: which pieces lie in which hole and which score pile.
#[derive(Debug, Hash, PartialEq, Eq)]
pub struct Kalah {
    players: [Side; PLAYER_COUNT],
}

/// The place that is `k` steps after `from` on the path of a sowing that
/// starts at `from`.
///
/// The path runs along the sower's row, through the sower's score pile, along
/// the other player's row, past that player's score pile, and round again.
pub open spec fn path(from: Index, k: nat) -> Index
    decreases k,
{
    if k == 0 {
        from
    } else {
        path(from, (k - 1) as nat).spec_next(Player(from.spec_player()))
    }
}

/// The board after the hole `from` has been emptied and the first `k` of
/// `stones` have been put down, one at each step of the path from `from`.
pub open spec fn sown(board: Buckets, from: Index, stones: Seq<Entity>, k: nat) -> Buckets
    decreases k,
{
    if k == 0 {
        board.insert(from, Seq::empty())
    } else {
        place(sown(board, from, stones, (k - 1) as nat), path(from, k), stones[k - 1])
    }
}

/// The board after everything in the hole `from` has been sown.
pub open spec fn after_sowing(board: Buckets, from: Index) -> Buckets {
    sown(board, from, board[from], board[from].len())
}

/// Where the last piece of a sowing from `from` lands.
pub open spec fn landing(board: Buckets, from: Index) -> Index {
    path(from, board[from].len())
}

/// Whether a sowing by `mover` that has left the board as `board` and has
/// ended at `at` captures: the last piece lies alone in a hole of the
/// mover's, and the hole across from it is not empty.
pub open spec fn captures(board: Buckets, at: Index, mover: usize) -> bool {
    &&& at.spec_opposite_bucket() matches Some(across)
    &&& at.spec_player() == mover
    &&& board[at].len() == 1
    &&& board[across].len() > 0
}

/// The board after the capture at `at`: the piece that landed and all that
/// lies across from it go to the mover's score pile, in that order, behind
/// what the pile holds.
pub open spec fn captured(board: Buckets, at: Index, mover: usize) -> Buckets {
    let across = at.spec_opposite_bucket().unwrap();
    let home = Index::Score(Player(mover));
    board.insert(at, Seq::empty()).insert(across, Seq::empty()).insert(
        home,
        board[home] + board[at] + board[across],
    )
}

/// The board after the move from `from`: sown, and captured where the rule
/// applies.
pub open spec fn resolved(board: Buckets, from: Index) -> Buckets {
    let mover = from.spec_player();
    if captures(after_sowing(board, from), landing(board, from), mover) {
        captured(after_sowing(board, from), landing(board, from), mover)
    } else {
        after_sowing(board, from)
    }
}

/// Whether every hole of `player`'s row is empty.
pub open spec fn side_empty(board: Buckets, player: usize) -> bool {
    forall|h: usize|
        h < HOLE_COUNT ==> (#[trigger] board[Index::Player(Player(player), Hole(h))]).len() == 0
}

/// Whether the game has ended: some player's row is empty.
pub open spec fn game_over(board: Buckets) -> bool {
    exists|player: usize| player < PLAYER_COUNT && side_empty(board, player)
}

/// The player with the largest score pile. Where the piles are equal, the
/// first player: an order of convenience, which no rule of Kalah asks for.
pub open spec fn winner(board: Buckets) -> usize {
    if board[Index::Score(Player(1))].len() > board[Index::Score(Player(0))].len() {
        1
    } else {
        0
    }
}

/// Whose turn it is after `player` has moved from `from`: once more
/// `player`'s where the sowing ended in a score pile, else the other's.
pub open spec fn turn_after(board: Buckets, from: Index, player: Player) -> Player {
    if landing(board, from) is Score {
        player
    } else {
        Player::spec_next(player)
    }
}

/// The step that shows `stone` going to `to`.
pub open spec fn relocation(stone: Entity, to: Index) -> Step {
    Step::Chain(MovePiece::spec_new_action(stone, Kalah::spec_position(to)))
}

/// The steps that show `stones` going to `to`, one after the other.
pub open spec fn relocations(stones: Seq<Entity>, to: Index) -> Seq<Step> {
    Seq::new(stones.len(), |i: int| relocation(stones[i], to))
}

/// The steps that show the sowing from `from`: each piece of the hole, in
/// the order in which it lay there, goes one step further along the path.
pub open spec fn sowing_steps(board: Buckets, from: Index) -> Seq<Step> {
    Seq::new(board[from].len(), |i: int| relocation(board[from][i], path(from, (i + 1) as nat)))
}

/// The steps that show the capture at `at` on the sown board `board`.
pub open spec fn capture_steps(board: Buckets, at: Index, mover: usize) -> Seq<Step> {
    let across = at.spec_opposite_bucket().unwrap();
    relocations(board[at] + board[across], Index::Score(Player(mover)))
}

/// The step that ends a move which has left the board as `board`: the
/// winner is declared where the game is over, else the turn goes to `next`.
pub open spec fn closing_step(board: Buckets, next: Player) -> Step {
    if game_over(board) {
        Step::Single(Action::DeclareWinner(RunSystem { input: Player(winner(board)) }))
    } else {
        Step::Single(Action::NextPlayer(NextPlayer(next)))
    }
}

/// The steps that show the move of `player` from `from`, in order: the
/// sowing, the capture if there is one, and the closing step.
pub open spec fn move_steps(board: Buckets, from: Index, player: Player) -> Seq<Step> {
    let mover = from.spec_player();
    let sowed = after_sowing(board, from);
    let at = landing(board, from);
    sowing_steps(board, from) + (if captures(sowed, at, mover) {
        capture_steps(sowed, at, mover)
    } else {
        Seq::empty()
    }) + seq![closing_step(resolved(board, from), turn_after(board, from, player))]
}

/// Every place on the path from a valid place is valid.
pub proof fn lemma_path_valid(from: Index, k: nat)
    requires
        from.valid(),
    ensures
        path(from, k).valid(),
    decreases k,
{
    if k > 0 {
        lemma_path_valid(from, (k - 1) as nat);
    }
}

impl Side {
    /// The pieces in the hole `h` of the row.
    pub closed spec fn spec_hole(&self, h: int) -> Seq<Entity> {
        self.buckets[h]@
    }

    /// The pieces in the score pile.
    pub closed spec fn spec_home(&self) -> Seq<Entity> {
        self.home@
    }

}

impl Default for Side {
    /// A side with nothing on it.
    fn default() -> (side: Side)
        ensures
            side.spec_home().len() == 0,
            forall|h: int| 0 <= h < HOLE_COUNT ==> (#[trigger] side.spec_hole(h)).len() == 0,
    {
        Side {
            buckets: [Vec::new(), Vec::new(), Vec::new(), Vec::new(), Vec::new(), Vec::new()],
            home: Vec::new(),
        }
    }
}

/// A copy of `stones`.
fn copy_of(stones: &Vec<Entity>) -> (copy: Vec<Entity>)
    ensures
        copy@ == stones@,
{
    let mut copy: Vec<Entity> = Vec::new();
    let mut i: usize = 0;
    while i < stones.len()
        invariant
            i <= stones.len(),
            copy@ == stones@.take(i as int),
        decreases stones.len() - i,
    {
        copy.push(stones[i]);
        assert(stones@.take(i + 1) =~= stones@.take(i as int).push(stones@[i as int]));
        i += 1;
    }
    assert(stones@.take(stones@.len() as int) =~= stones@);
    copy
}

impl Clone for Side {
    fn clone(&self) -> (side: Side)
        ensures
            side.spec_home() == self.spec_home(),
            forall|h: int|
                0 <= h < HOLE_COUNT ==> #[trigger] side.spec_hole(h) == self.spec_hole(h),
    {
        Side {
            buckets: [
                copy_of(&self.buckets[0]),
                copy_of(&self.buckets[1]),
                copy_of(&self.buckets[2]),
                copy_of(&self.buckets[3]),
                copy_of(&self.buckets[4]),
                copy_of(&self.buckets[5]),
            ],
            home: copy_of(&self.home),
        }
    }
}

impl Clone for Kalah {
    fn clone(&self) -> (board: Kalah)
        ensures
            board@ == self@,
    {
        let board = Kalah { players: [self.players[0].clone(), self.players[1].clone()] };
        proof {
            assert forall|index: Index| index.valid() implies board.spec_bucket(index)
                == self.spec_bucket(index) by {
                match index {
                    Index::Player(Player(p), Hole(h)) => {
                        assert(board.players[p as int].spec_hole(h as int)
                            == self.players[p as int].spec_hole(h as int));
                    },
                    Index::Score(Player(p)) => {
                        assert(board.players[p as int].spec_home()
                            == self.players[p as int].spec_home());
                    },
                }
            }
            assert(board@ =~= self@);
        }
        board
    }
}

impl Default for Kalah {
    /// The board with nothing on it.
    fn default() -> (board: Kalah)
        ensures
            board@ == Kalah::spec_empty(),
    {
        let board = Kalah { players: [Side::default(), Side::default()] };
        proof {
            assert forall|index: Index| index.valid() implies board.spec_bucket(index)
                =~= Seq::<Entity>::empty() by {
                match index {
                    Index::Player(Player(p), Hole(h)) => {
                        assert(board.players[p as int].spec_hole(h as int).len() == 0);
                    },
                    Index::Score(Player(p)) => {
                        assert(board.players[p as int].spec_home().len() == 0);
                    },
                }
            }
            assert(board@ =~= Kalah::spec_empty());
        }
        board
    }
}

impl Kalah {
    /// The pieces at `index`, in the order in which they came.
    pub closed spec fn spec_bucket(&self, index: Index) -> Seq<Entity> {
        match index {
            Index::Player(Player(p), Hole(h)) => self.players[p as int].buckets[h as int]@,
            Index::Score(Player(p)) => self.players[p as int].home@,
        }
    }

    /// The board holds something, if only nothing, at each of its places
    /// and nowhere else.
    pub proof fn lemma_places(&self)
        ensures
            forall|index: Index| self@.dom().contains(index) <==> index.valid(),
    {
    }

    /// A board with no piece on it.
    pub open spec fn spec_empty() -> Buckets {
        Map::new(|index: Index| index.valid(), |index: Index| Seq::<Entity>::empty())
    }

    /// Where on the table each hole of the first player's row is, from that
    /// player's left.
    pub open spec fn spec_hole_x() -> Seq<int> {
        seq![-215, -130, -40, 42, 130, 215]
    }

    /// The place in space of each place on the board. The second player's
    /// row is the first player's, seen from the other side of the table.
    pub open spec fn spec_position(index: Index) -> Position {
        match index {
            Index::Player(Player(p), Hole(h)) => if p == 0 {
                Position::spec_at(Self::spec_hole_x()[h as int], 75, -35)
            } else {
                Position::spec_at(Self::spec_hole_x()[HOLE_COUNT - 1 - h], 75, 35)
            },
            Index::Score(Player(p)) => if p == 0 {
                Position::spec_at(276, 75, 0)
            } else {
                Position::spec_at(-276, 75, 0)
            },
        }
    }

    /// Puts `stones` down at `to`, in order, and adds the steps that show it.
    fn relocate(&mut self, stones: &Vec<Entity>, to: Index, steps: &mut Vec<Step>)
        requires
            to.valid(),
        ensures
            final(self)@ == old(self)@.insert(to, old(self)@[to] + stones@),
            final(steps)@ == old(steps)@ + relocations(stones@, to),
    {
        let ghost board = self@;
        let ghost shown = steps@;
        let position = self.bucket_position(to);
        let mut i: usize = 0;
        while i < stones.len()
            invariant
                i <= stones.len(),
                to.valid(),
                board.dom().contains(to),
                position == Self::spec_position(to),
                self@ == board.insert(to, board[to] + stones@.take(i as int)),
                steps@ == shown + relocations(stones@, to).take(i as int),
            decreases stones.len() - i,
        {
            let stone = stones[i];
            self.get_bucket_entities_mut(to).push(stone);
            steps.push(Step::Chain(MovePiece::new_action(stone, position)));
            proof {
                assert(stones@.take(i + 1) =~= stones@.take(i as int).push(stone));
                assert(board[to] + stones@.take(i + 1) =~= (board[to] + stones@.take(i as int)).push(
                    stone,
                ));
                assert(self@ =~= board.insert(to, board[to] + stones@.take(i + 1)));
                assert(relocations(stones@, to).take(i + 1) =~= relocations(stones@, to).take(
                    i as int,
                ).push(relocation(stone, to)));
            }
            i += 1;
        }
        proof {
            assert(stones@.take(stones@.len() as int) =~= stones@);
            assert(relocations(stones@, to).take(stones@.len() as int) =~= relocations(
                stones@,
                to,
            ));
        }
    }

    /// Whether every hole of `player`'s row is empty.
    fn side_is_empty(&self, player: usize) -> (empty: bool)
        requires
            player < PLAYER_COUNT,
        ensures
            empty == side_empty(self@, player),
    {
        let mut h: usize = 0;
        while h < HOLE_COUNT
            invariant
                h <= HOLE_COUNT,
                player < PLAYER_COUNT,
                forall|g: usize| g < h ==> (#[trigger] self@[Index::Player(Player(player), Hole(g))]).len() == 0,
            decreases HOLE_COUNT - h,
        {
            if !self.get_bucket_entities(Index::Player(Player(player), Hole(h))).is_empty() {
                return false;
            }
            h += 1;
        }
        true
    }

    /// Whether the game has ended.
    fn is_over(&self) -> (over: bool)
        ensures
            over == game_over(self@),
    {
        let mut player: usize = 0;
        while player < PLAYER_COUNT
            invariant
                player <= PLAYER_COUNT,
                forall|p: usize| p < player ==> !side_empty(self@, p),
            decreases PLAYER_COUNT - player,
        {
            if self.side_is_empty(player) {
                return true;
            }
            player += 1;
        }
        false
    }

    /// The player with the largest score pile; the first of them where
    /// several piles are as large.
    fn leader(&self) -> (player: usize)
        ensures
            player == winner(self@),
    {
        let mut best: usize = 0;
        let mut player: usize = 1;
        while player < PLAYER_COUNT
            invariant
                1 <= player <= PLAYER_COUNT,
                best == (if player == 2 { winner(self@) } else { 0 }),
            decreases PLAYER_COUNT - player,
        {
            if self.get_bucket_entities(Index::Score(Player(player))).len()
                > self.get_bucket_entities(Index::Score(Player(best))).len() {
                best = player;
            }
            player += 1;
        }
        best
    }
}

impl Variant for Kalah {
    closed spec fn view(&self) -> Buckets {
        Map::new(|index: Index| index.valid(), |index: Index| self.spec_bucket(index))
    }

    open spec fn has_place(&self, index: Index) -> bool {
        index.valid()
    }

    open spec fn spec_hole_count(&self) -> usize {
        HOLE_COUNT
    }

    open spec fn spec_starting_pieces(&self) -> usize {
        STARTING_PIECES
    }

    open spec fn spec_bucket_position(&self, index: Index) -> Position {
        Self::spec_position(index)
    }

    open spec fn handles(&self) -> Multiset<Entity> {
        handles(self@)
    }

    open spec fn spec_after_move(&self, index: Index) -> Buckets {
        resolved(self@, index)
    }

    open spec fn spec_move_steps(&self, index: Index, turn: Player) -> Seq<Step> {
        move_steps(self@, index, turn)
    }

    fn hole_count(&self) -> (count: usize) {
        HOLE_COUNT
    }

    fn starting_pieces(&self) -> (count: usize) {
        STARTING_PIECES
    }

    /// The answer depends on the index alone.
    fn bucket_position(&self, index: Index) -> (position: Position) {
        match index {
            Index::Player(Player(p), Hole(h)) => {
                let column: usize = if p == 0 { h } else { HOLE_COUNT - 1 - h };
                let x: i32 = if column == 0 {
                    -215
                } else if column == 1 {
                    -130
                } else if column == 2 {
                    -40
                } else if column == 3 {
                    42
                } else if column == 4 {
                    130
                } else {
                    215
                };
                if p == 0 {
                    Position { x, y: 75, z: -35 }
                } else {
                    Position { x, y: 75, z: 35 }
                }
            },
            Index::Score(Player(p)) => {
                if p == 0 {
                    Position { x: 276, y: 75, z: 0 }
                } else {
                    Position { x: -276, y: 75, z: 0 }
                }
            },
        }
    }

    fn get_bucket_entities(&self, index: Index) -> (bucket: &[Entity]) {
        match index {
            Index::Player(Player(p), Hole(h)) => self.players[p].buckets[h].as_slice(),
            Index::Score(Player(p)) => self.players[p].home.as_slice(),
        }
    }

    fn get_bucket_entities_mut(&mut self, index: Index) -> (bucket: &mut Vec<Entity>) {
        match index {
            Index::Player(Player(p), Hole(h)) => &mut self.players[p].buckets[h],
            Index::Score(Player(p)) => &mut self.players[p].home,
        }
    }

    fn push_entity(&mut self, index: Index, entity: Entity) {
        self.get_bucket_entities_mut(index).push(entity);
    }

    /// The hole is emptied and its pieces are sown along the path; where the
    /// last of them lands alone in a hole of the sower's and the hole across
    /// is not empty, both go to the sower's score pile. The steps that come
    /// back show all of this in order and end the move: with the winner
    /// where a row is empty, else with the player whose turn is next.
    fn perform_move(&mut self, index: Index, player: Player) -> (steps: Vec<Step>) {
        let ghost board = self@;
        let mut entities: Vec<Entity> = Vec::new();
        std::mem::swap(&mut entities, self.get_bucket_entities_mut(index));
        let start_player = index.player();
        let mut steps: Vec<Step> = Vec::new();
        let mut index = index;
        let mut player = player;
        let ghost from = index;
        let ghost mover = player;

        let mut i: usize = 0;
        while i < entities.len()
            invariant
                i <= entities.len(),
                entities@ == board[from],
                from.valid(),
                start_player == from.spec_player(),
                index == path(from, i as nat),
                index.valid(),
                self@ == sown(board, from, entities@, i as nat),
                steps@ == sowing_steps(board, from).take(i as int),
            decreases entities.len() - i,
        {
            let stone = entities[i];
            index = index.next(Player(start_player));
            self.get_bucket_entities_mut(index).push(stone);
            steps.push(Step::Chain(MovePiece::new_action(stone, self.bucket_position(index))));
            proof {
                assert(sowing_steps(board, from).take(i + 1) =~= sowing_steps(board, from).take(
                    i as int,
                ).push(relocation(stone, index)));
            }
            i += 1;
        }
        proof {
            assert(sowing_steps(board, from).take(entities@.len() as int) =~= sowing_steps(
                board,
                from,
            ));
        }
        let ghost sowed = self@;
        let ghost shown = steps@;

        if !matches!(index, Index::Score(_)) {
            if let Some(opposite) = index.opposite_bucket() {
                // If the opposite bucket contains a stone, and the current bucket was empty, AND
                // the bucket is on the current player's side; capture the stones in both buckets.
                if index.player() == start_player && self.get_bucket_entities(index).len() == 1
                    && !self.get_bucket_entities(opposite).is_empty() {
                    let mut ours: Vec<Entity> = Vec::new();
                    std::mem::swap(&mut ours, self.get_bucket_entities_mut(index));
                    let mut theirs: Vec<Entity> = Vec::new();
                    std::mem::swap(&mut theirs, self.get_bucket_entities_mut(opposite));
                    let score_index = Index::Score(Player(start_player));
                    self.relocate(&ours, score_index, &mut steps);
                    self.relocate(&theirs, score_index, &mut steps);
                    proof {
                        assert(sowed[score_index] + ours@ + theirs@ =~= (sowed[score_index]
                            + ours@) + theirs@);
                        assert(self@ =~= captured(sowed, index, start_player));
                        assert(relocations(ours@ + theirs@, score_index) =~= relocations(
                            ours@,
                            score_index,
                        ) + relocations(theirs@, score_index));
                        assert(steps@ =~= shown + capture_steps(sowed, index, start_player));
                    }
                }
            }
            player = Player::next(player);
        }
        proof {
            assert(self@ == resolved(board, from));
            assert(player == turn_after(board, from, mover));
        }

        if self.is_over() {
            let winner = self.leader();
            steps.push(Step::Single(Action::DeclareWinner(DeclareWinner::with_input(Player(winner)))));
        } else {
            steps.push(Step::Single(Action::NextPlayer(NextPlayer(player))));
        }
        proof {
            assert(steps@ =~= move_steps(board, from, mover));
            lemma_move_conserves(board, from);
            lemma_steps_ready(board, from, mover);
        }
        steps
    }
}

} // verus!
