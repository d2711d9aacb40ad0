//! Setting the board up, and choosing the hole to move from.

use vstd::prelude::*;

use bevy::ecs::entity::Entity;

use crate::game::actions::PlayerMove;
use crate::game::{
    is_invalid_selection, spec_is_invalid_selection, Board, GameState, Hole, Player, PlayerTurn,
    Selected,
};
use crate::rules::variants::kalah::Kalah;
use crate::rules::variants::{Buckets, ChosenVariant, Index};
use crate::PLAYER_COUNT;

verus! {

/// Replaces the board by an empty board of the rules that the game is
/// played by unless others are chosen.
pub fn setup_board(board: &mut Board)
    ensures
        final(board).0@ == Kalah::spec_empty(),
        forall|index: Index| final(board).0.has_place(index) == index.valid(),
{
    *board = ChosenVariant::default().to_variant();
}

/// The number of the hole `hole` of `player`, where the holes are counted
/// row by row and each row has `holes` holes.
pub open spec fn seat(player: int, hole: int, holes: int) -> int {
    player * holes + hole
}

/// The pieces that go to the hole with the number `seat` when `stones` are
/// handed out, `pieces` to each hole, in the order of the holes.
pub open spec fn share(stones: Seq<Entity>, seat: int, pieces: int) -> Seq<Entity> {
    stones.subrange(seat * pieces, (seat + 1) * pieces)
}

/// Puts the pieces `stones[first..first + count]` into the hole `index`,
/// behind what lies there. Every other place stays as it is.
fn fill(board: &mut Board, index: Index, stones: &Vec<Entity>, first: usize, count: usize)
    requires
        index is Player,
        old(board).0.has_place(index),
        first + count <= stones.len(),
    ensures
        final(board).0@[index] == old(board).0@[index] + stones@.subrange(
            first as int,
            first + count,
        ),
        forall|other: Index| other != index ==> final(board).0@[other] == old(board).0@[other],
        forall|other: Index| final(board).0.has_place(other) == old(board).0.has_place(other),
{
    let ghost before = board.0@;
    proof {
        assert(before[index] + stones@.subrange(first as int, first as int) =~= before[index]);
    }
    let mut i: usize = 0;
    while i < count
        invariant
            i <= count,
            index is Player,
            first + count <= stones.len(),
            board.0.has_place(index),
            forall|other: Index| board.0.has_place(other) == old(board).0.has_place(other),
            board.0@[index] == before[index] + stones@.subrange(first as int, first + i),
            forall|other: Index| other != index ==> board.0@[other] == before[other],
        decreases count - i,
    {
        board.0.push_entity(index, stones[first + i]);
        proof {
            let block = stones@.subrange(first as int, first + i);
            let grown = stones@.subrange(first as int, first + i + 1);
            assert(grown =~= block.push(stones@[first + i]));
            assert(before[index] + grown =~= (before[index] + block).push(stones@[first + i]));
        }
        i += 1;
    }
}

/// Hands the pieces `stones` out for the start of a game: to each hole as
/// many as the rules give it, row by row and hole by hole, in the order in
/// which the pieces stand in `stones`. What lay on the board stays there.
pub fn setup_stones(board: &mut Board, stones: &Vec<Entity>)
    requires
        stones.len() == PLAYER_COUNT * old(board).0.spec_hole_count()
            * old(board).0.spec_starting_pieces(),
    ensures
        forall|other: Index| final(board).0.has_place(other) == old(board).0.has_place(other),
        forall|p: usize, h: usize|
            p < PLAYER_COUNT && h < old(board).0.spec_hole_count()
                ==> #[trigger] final(board).0@[Index::Player(Player(p), Hole(h))]
                == old(board).0@[Index::Player(Player(p), Hole(h))] + share(
                stones@,
                seat(p as int, h as int, old(board).0.spec_hole_count() as int),
                old(board).0.spec_starting_pieces() as int,
            ),
        forall|other: Index|
            other is Score ==> #[trigger] final(board).0@[other] == old(board).0@[other],
{
    let ghost before = board.0@;
    let holes = board.0.hole_count();
    let pieces = board.0.starting_pieces();
    let ghost total = PLAYER_COUNT * holes * pieces;
    let mut next: usize = 0;
    let mut player: usize = 0;
    proof {
        assert(0 * holes * pieces == 0) by (nonlinear_arith);
    }
    while player < PLAYER_COUNT
        invariant
            player <= PLAYER_COUNT,
            holes == old(board).0.spec_hole_count(),
            pieces == old(board).0.spec_starting_pieces(),
            stones.len() == PLAYER_COUNT * holes * pieces,
            next == player * holes * pieces,
            forall|other: Index| board.0.has_place(other) == old(board).0.has_place(other),
            forall|p: usize, h: usize|
                #[trigger] board.0.has_place(Index::Player(Player(p), Hole(h))) <==> p
                    < PLAYER_COUNT && h < holes,
            forall|p: usize, h: usize|
                p < player && h < holes ==> #[trigger] board.0@[Index::Player(Player(p), Hole(h))]
                    == before[Index::Player(Player(p), Hole(h))] + share(
                    stones@,
                    seat(p as int, h as int, holes as int),
                    pieces as int,
                ),
            forall|p: usize, h: usize|
                player <= p < PLAYER_COUNT && h < holes ==> #[trigger] board.0@[Index::Player(
                    Player(p),
                    Hole(h),
                )] == before[Index::Player(Player(p), Hole(h))],
            forall|other: Index| other is Score ==> #[trigger] board.0@[other] == before[other],
        decreases PLAYER_COUNT - player,
    {
        let mut hole: usize = 0;
        proof {
            assert(player * holes * pieces == (player * holes + 0) * pieces) by (nonlinear_arith);
        }
        while hole < holes
            invariant
                player < PLAYER_COUNT,
                hole <= holes,
                holes == old(board).0.spec_hole_count(),
                pieces == old(board).0.spec_starting_pieces(),
                    stones.len() == PLAYER_COUNT * holes * pieces,
                next == (player * holes + hole) * pieces,
                forall|other: Index| board.0.has_place(other) == old(board).0.has_place(other),
                forall|p: usize, h: usize|
                    #[trigger] board.0.has_place(Index::Player(Player(p), Hole(h))) <==> p
                        < PLAYER_COUNT && h < holes,
                forall|p: usize, h: usize|
                    (p < player && h < holes) || (p == player && h < hole)
                        ==> #[trigger] board.0@[Index::Player(Player(p), Hole(h))]
                        == before[Index::Player(Player(p), Hole(h))] + share(
                        stones@,
                        seat(p as int, h as int, holes as int),
                        pieces as int,
                    ),
                forall|p: usize, h: usize|
                    ((player < p < PLAYER_COUNT && h < holes) || (p == player && hole <= h
                        < holes)) ==> #[trigger] board.0@[Index::Player(Player(p), Hole(h))]
                        == before[Index::Player(Player(p), Hole(h))],
                forall|other: Index|
                    other is Score ==> #[trigger] board.0@[other] == before[other],
            decreases holes - hole,
        {
            let index = Index::Player(Player(player), Hole(hole));
            proof {
                lemma_share_fits(player as int, hole as int, holes as int, pieces as int);
                assert(board.0.has_place(index));
            }
            let ghost now = board.0@;
            fill(board, index, stones, next, pieces);
            proof {
                assert(board.0@[index] == before[index] + share(
                    stones@,
                    seat(player as int, hole as int, holes as int),
                    pieces as int,
                ));
                assert forall|p: usize, h: usize|
                    (p < player && h < holes) || (p == player && h < hole + 1)
                    implies #[trigger] board.0@[Index::Player(Player(p), Hole(h))]
                    == before[Index::Player(Player(p), Hole(h))] + share(
                    stones@,
                    seat(p as int, h as int, holes as int),
                    pieces as int,
                ) by {
                    let other = Index::Player(Player(p), Hole(h));
                    if other != index {
                        assert(board.0@[other] == now[other]);
                    }
                }
                assert forall|p: usize, h: usize|
                    ((player < p < PLAYER_COUNT && h < holes) || (p == player && hole + 1 <= h
                        < holes)) implies #[trigger] board.0@[Index::Player(Player(p), Hole(h))]
                    == before[Index::Player(Player(p), Hole(h))] by {
                    let other = Index::Player(Player(p), Hole(h));
                    assert(other != index);
                    assert(board.0@[other] == now[other]);
                }
                assert forall|other: Index| other is Score implies #[trigger] board.0@[other]
                    == before[other] by {
                    assert(other != index);
                    assert(board.0@[other] == now[other]);
                }
            }
            proof {
                assert((player * holes + (hole + 1)) * pieces == (player * holes + hole) * pieces
                    + pieces) by (nonlinear_arith);
            }
            next += pieces;
            hole += 1;
        }
        proof {
            assert((player + 1) * holes * pieces == (player * holes + holes) * pieces)
                by (nonlinear_arith);
        }
        player += 1;
    }
}

/// The share of every hole lies within the pieces that are handed out.
proof fn lemma_share_fits(player: int, hole: int, holes: int, pieces: int)
    requires
        0 <= player < PLAYER_COUNT,
        0 <= hole < holes,
        0 <= pieces,
    ensures
        0 <= seat(player, hole, holes) * pieces,
        (seat(player, hole, holes) + 1) * pieces <= PLAYER_COUNT * holes * pieces,
        (seat(player, hole, holes) + 1) * pieces == seat(player, hole, holes) * pieces + pieces,
{
    let s = seat(player, hole, holes);
    assert(0 <= s && s + 1 <= PLAYER_COUNT * holes) by (nonlinear_arith)
        requires
            s == player * holes + hole,
            0 <= player <= 1,
            0 <= hole < holes,
            PLAYER_COUNT == 2,
    ;
    assert(0 <= s * pieces && (s + 1) * pieces <= PLAYER_COUNT * holes * pieces && (s + 1)
        * pieces == s * pieces + pieces) by (nonlinear_arith)
        requires
            0 <= s,
            s + 1 <= PLAYER_COUNT * holes,
            0 <= pieces,
    ;
}

/// What is selected after `player` has pressed the hole `hole` of the own
/// row: that hole, if the player may move from it; else what was selected.
pub open spec fn spec_press(
    selected: Selected,
    player: usize,
    hole: usize,
    p_turn: PlayerTurn,
    game_state: GameState,
    board: Buckets,
) -> Selected {
    if spec_is_invalid_selection(player, p_turn, game_state, board, hole) {
        selected
    } else {
        Selected(Some(Index::Player(Player(player), Hole(hole))))
    }
}

/// What is selected after `player` has let go over the hole `hole` of the
/// own row, and the hole from which a move begins by it.
///
/// While no one has the turn, nothing changes. Else nothing stays selected,
/// and a move begins if the player may move from the hole and had pressed
/// that same hole.
pub open spec fn spec_release(
    selected: Selected,
    player: usize,
    hole: usize,
    p_turn: PlayerTurn,
    game_state: GameState,
    board: Buckets,
) -> (Selected, Option<Index>) {
    let over = Index::Player(Player(player), Hole(hole));
    if p_turn is NoOne {
        (selected, None)
    } else if !spec_is_invalid_selection(player, p_turn, game_state, board, hole) && selected.0
        == Some(over) {
        (Selected(None), Some(over))
    } else {
        (Selected(None), None)
    }
}

/// Takes note that `player` has pressed the hole `hole` of the own row.
/// Neither the board nor anyone's turn is touched.
pub fn press(
    selected: &mut Selected,
    player: usize,
    hole: usize,
    p_turn: PlayerTurn,
    game_state: GameState,
    board: &Board,
)
    requires
        p_turn == PlayerTurn::Player(player) && game_state == GameState::Playing
            ==> board.0.has_place(Index::Player(Player(player), Hole(hole))),
    ensures
        *final(selected) == spec_press(*old(selected), player, hole, p_turn, game_state, board.0@),
{
    if is_invalid_selection(player, p_turn, game_state, board, hole) {
        return ;
    }
    selected.0 = Some(Index::Player(Player(player), Hole(hole)));
}

/// Takes note that `player` has let go over the hole `hole` of the own row,
/// and hands back the step that resolves the move, if one begins by it.
/// Neither the board nor anyone's turn is touched: where no step comes
/// back, nothing is to be queued.
pub fn release(
    selected: &mut Selected,
    player: usize,
    hole: usize,
    p_turn: PlayerTurn,
    game_state: GameState,
    board: &Board,
) -> (begun: Option<PlayerMove>)
    requires
        p_turn == PlayerTurn::Player(player) && game_state == GameState::Playing
            ==> board.0.has_place(Index::Player(Player(player), Hole(hole))),
    ensures
        *final(selected) == spec_release(
            *old(selected),
            player,
            hole,
            p_turn,
            game_state,
            board.0@,
        ).0,
        match spec_release(*old(selected), player, hole, p_turn, game_state, board.0@).1 {
            Some(from) => begun == Some(PlayerMove { input: from }),
            None => begun is None,
        },
{
    if matches!(p_turn, PlayerTurn::NoOne) {
        return None;
    }
    let over = Index::Player(Player(player), Hole(hole));
    let pressed = selected.0;
    selected.0 = None;
    if is_invalid_selection(player, p_turn, game_state, board, hole) {
        return None;
    }
    match pressed {
        Some(index) => {
            if index == over {
                Some(PlayerMove::with_input(index))
            } else {
                None
            }
        },
        None => None,
    }
}

} // verus!
