//! What holds of every Kalah move.

use vstd::multiset::Multiset;
use vstd::prelude::*;

use bevy::ecs::entity::Entity;

use crate::game::{Hole, Player, PlayerTurn};
use crate::game::actions::turn::{MovePiece, NextPlayer};
use crate::game::actions::{Action, ChainActions, RunSystem, Step};
use crate::rules::variants::kalah::{
    after_sowing, capture_steps, captured, captures, closing_step, game_over, landing,
    lemma_path_valid, move_steps, path, relocation, resolved, sowing_steps, sown, turn_after,
    winner, HOLE_COUNT,
};
use crate::rules::variants::kalah::Kalah;
use crate::rules::variants::{place, Buckets, Index, Variant};
use crate::PLAYER_COUNT;

verus! {

/// The number of places on the board: each player's holes and score pile.
pub open spec fn places() -> nat {
    (PLAYER_COUNT * (HOLE_COUNT + 1)) as nat
}

/// The places of the board, counted: each player's holes from the left,
/// then that player's score pile.
pub open spec fn place_of(slot: nat) -> Index {
    let player = Player((slot / (HOLE_COUNT as nat + 1)) as usize);
    let hole = slot % (HOLE_COUNT as nat + 1);
    if hole < HOLE_COUNT {
        Index::Player(player, Hole(hole as usize))
    } else {
        Index::Score(player)
    }
}

/// The number under which `place_of` counts `index`.
pub open spec fn slot_of(index: Index) -> nat {
    match index {
        Index::Player(Player(p), Hole(h)) => (p * (HOLE_COUNT + 1) + h) as nat,
        Index::Score(Player(p)) => (p * (HOLE_COUNT + 1) + HOLE_COUNT) as nat,
    }
}

/// The pieces that lie in the first `slots` places of `board`, each as
/// often as it lies there.
pub open spec fn handles_in(board: Buckets, slots: nat) -> Multiset<Entity>
    decreases slots,
{
    if slots == 0 {
        Multiset::empty()
    } else {
        handles_in(board, (slots - 1) as nat).add(board[place_of((slots - 1) as nat)].to_multiset())
    }
}

/// All the pieces on `board`, each as often as it lies on it.
pub open spec fn handles(board: Buckets) -> Multiset<Entity> {
    handles_in(board, places())
}

/// The board after the moves from `moves` have been resolved in order.
pub open spec fn played(board: Buckets, moves: Seq<Index>) -> Buckets
    decreases moves.len(),
{
    if moves.len() == 0 {
        board
    } else {
        resolved(played(board, moves.drop_last()), moves.last())
    }
}

/// `place_of` and `slot_of` count the valid indices, each once.
pub proof fn lemma_slots(index: Index)
    requires
        index.valid(),
    ensures
        slot_of(index) < places(),
        place_of(slot_of(index)) == index,
        forall|slot: nat| slot < places() && slot != slot_of(index) ==> place_of(slot) != index,
{
}

/// Changing what lies at one place changes the pieces on the board by what
/// was taken from that place and what was put there.
proof fn lemma_handles_insert(board: Buckets, at: Index, stones: Seq<Entity>, slots: nat)
    requires
        at.valid(),
        slots <= places(),
    ensures
        slot_of(at) < slots ==> handles_in(board.insert(at, stones), slots).add(
            board[at].to_multiset(),
        ) =~= handles_in(board, slots).add(stones.to_multiset()),
        slot_of(at) >= slots ==> handles_in(board.insert(at, stones), slots) =~= handles_in(
            board,
            slots,
        ),
    decreases slots,
{
    if slots > 0 {
        lemma_slots(at);
        lemma_handles_insert(board, at, stones, (slots - 1) as nat);
        let last = place_of((slots - 1) as nat);
        let changed = board.insert(at, stones);
        let below = handles_in(board, (slots - 1) as nat);
        let changed_below = handles_in(changed, (slots - 1) as nat);
        assert(handles_in(board, slots) == below.add(board[last].to_multiset()));
        assert(handles_in(changed, slots) == changed_below.add(changed[last].to_multiset()));
        if slot_of(at) == slots - 1 {
            assert(last == at);
            assert(changed[last] == stones);
            assert(changed_below =~= below);
            assert(handles_in(changed, slots).add(board[at].to_multiset()) =~= handles_in(
                board,
                slots,
            ).add(stones.to_multiset()));
        } else {
            assert(last != at);
            assert(changed[last] == board[last]);
            if slot_of(at) < slots {
                let left = handles_in(changed, slots).add(board[at].to_multiset());
                let right = handles_in(board, slots).add(stones.to_multiset());
                assert forall|stone: Entity| left.count(stone) == right.count(stone) by {
                    assert(changed_below.add(board[at].to_multiset()).count(stone) == below.add(
                        stones.to_multiset(),
                    ).count(stone));
                }
                assert(left =~= right);
            }
        }
    }
}

/// Replacing what lies at `at` by `stones`.
pub proof fn lemma_replace(board: Buckets, at: Index, stones: Seq<Entity>)
    requires
        at.valid(),
    ensures
        handles(board.insert(at, stones)).add(board[at].to_multiset()) =~= handles(board).add(
            stones.to_multiset(),
        ),
{
    lemma_slots(at);
    lemma_handles_insert(board, at, stones, places());
}

/// Putting a piece down adds that piece to the board, and nothing else.
pub proof fn lemma_place(board: Buckets, at: Index, stone: Entity)
    requires
        at.valid(),
    ensures
        handles(place(board, at, stone)) =~= handles(board).insert(stone),
{
    broadcast use vstd::seq_lib::group_to_multiset_ensures;

    let here = board[at].to_multiset();
    lemma_replace(board, at, board[at].push(stone));
    assert(board[at].push(stone).to_multiset() =~= here.insert(stone));
    let left = handles(place(board, at, stone));
    let right = handles(board).insert(stone);
    assert forall|other: Entity| left.count(other) == right.count(other) by {
        assert(left.add(here).count(other) == handles(board).add(here.insert(stone)).count(other));
    }
    assert(left =~= right);
}

/// While a hole is sown, the pieces on the board and those still in hand
/// are together the pieces that were on the board before.
proof fn lemma_sown_conserves(board: Buckets, from: Index, k: nat)
    requires
        from.valid(),
        k <= board[from].len(),
    ensures
        handles(sown(board, from, board[from], k)).add(board[from].skip(k as int).to_multiset())
            =~= handles(board),
    decreases k,
{
    broadcast use vstd::seq_lib::group_to_multiset_ensures;

    let stones = board[from];
    if k == 0 {
        lemma_replace(board, from, Seq::empty());
        assert(stones.skip(0) =~= stones);
        assert(Seq::<Entity>::empty().to_multiset() =~= Multiset::empty());
    } else {
        let before = sown(board, from, stones, (k - 1) as nat);
        lemma_sown_conserves(board, from, (k - 1) as nat);
        lemma_path_valid(from, k);
        lemma_place(before, path(from, k), stones[k - 1]);
        let rest = stones.skip(k as int);
        assert(stones.skip(k - 1) =~= seq![stones[k - 1]] + rest);
        vstd::seq_lib::lemma_multiset_commutative(seq![stones[k - 1]], rest);
        assert(seq![stones[k - 1]] =~= Seq::<Entity>::empty().push(stones[k - 1]));
        assert(seq![stones[k - 1]].to_multiset() =~= Multiset::<Entity>::empty().insert(
            stones[k - 1],
        ));
    }
}

/// Sowing neither adds a piece to the board nor takes one from it.
pub proof fn lemma_sowing_conserves(board: Buckets, from: Index)
    requires
        from.valid(),
    ensures
        handles(after_sowing(board, from)) =~= handles(board),
{
    broadcast use vstd::seq_lib::group_to_multiset_ensures;

    let stones = board[from];
    lemma_sown_conserves(board, from, stones.len());
    assert(stones.skip(stones.len() as int) =~= Seq::<Entity>::empty());
    assert(Seq::<Entity>::empty().to_multiset() =~= Multiset::empty());
}

/// A capture neither adds a piece to the board nor takes one from it.
pub proof fn lemma_capture_conserves(board: Buckets, at: Index, mover: usize)
    requires
        at.valid(),
        at is Player,
        mover < PLAYER_COUNT,
    ensures
        handles(captured(board, at, mover)) =~= handles(board),
{
    broadcast use vstd::seq_lib::group_to_multiset_ensures;

    let across = at.spec_opposite_bucket().unwrap();
    let home = Index::Score(Player(mover));
    let first = board.insert(at, Seq::empty());
    let second = first.insert(across, Seq::empty());
    let third = second.insert(home, board[home] + board[at] + board[across]);
    let nothing = Seq::<Entity>::empty().to_multiset();
    let ours = board[at].to_multiset();
    let theirs = board[across].to_multiset();
    let pile = board[home].to_multiset();
    lemma_replace(board, at, Seq::empty());
    lemma_replace(first, across, Seq::empty());
    lemma_replace(second, home, board[home] + board[at] + board[across]);
    assert(nothing =~= Multiset::empty());
    assert(across != at);
    assert(first[across] == board[across]);
    assert(second[home] == board[home]);
    vstd::seq_lib::lemma_multiset_commutative(board[home] + board[at], board[across]);
    vstd::seq_lib::lemma_multiset_commutative(board[home], board[at]);
    let grown = (board[home] + board[at] + board[across]).to_multiset();
    assert(grown == pile.add(ours).add(theirs));
    assert forall|stone: Entity| handles(third).count(stone) == handles(board).count(stone) by {
        assert(handles(first).add(ours).count(stone) == handles(board).add(nothing).count(stone));
        assert(handles(second).add(theirs).count(stone) == handles(first).add(nothing).count(
            stone,
        ));
        assert(handles(third).add(pile).count(stone) == handles(second).add(grown).count(stone));
    }
    assert(handles(third) =~= handles(board));
}

/// A move only carries pieces from place to place: the pieces on the board
/// after it are those that were on it before, each as often as before, and
/// so they are as many.
pub proof fn lemma_move_conserves(board: Buckets, from: Index)
    requires
        from is Player,
        from.valid(),
    ensures
        handles(resolved(board, from)) == handles(board),
        handles(resolved(board, from)).len() == handles(board).len(),
{
    lemma_sowing_conserves(board, from);
    lemma_path_valid(from, board[from].len());
    if captures(after_sowing(board, from), landing(board, from), from.spec_player()) {
        lemma_capture_conserves(
            after_sowing(board, from),
            landing(board, from),
            from.spec_player(),
        );
    }
}

/// However many moves are made, one after the other, the pieces on the
/// board stay the same pieces, each as often as at the start.
pub proof fn lemma_play_conserves(board: Buckets, moves: Seq<Index>)
    requires
        forall|i: int| 0 <= i < moves.len() ==> (#[trigger] moves[i]) is Player && moves[i].valid(),
    ensures
        handles(played(board, moves)) == handles(board),
        handles(played(board, moves)).len() == handles(board).len(),
    decreases moves.len(),
{
    if moves.len() > 0 {
        lemma_play_conserves(board, moves.drop_last());
        lemma_move_conserves(played(board, moves.drop_last()), moves.last());
    }
}

/// The number of places on the path of a sowing: both rows and the
/// sower's score pile.
pub open spec fn round() -> nat {
    (2 * HOLE_COUNT + 1) as nat
}

/// The places on the path of a sowing by `sower`, counted from the sower's
/// first hole: the sower's row, the sower's score pile, the other row.
pub open spec fn ring(sower: usize, r: nat) -> Index {
    if r < HOLE_COUNT {
        Index::Player(Player(sower), Hole(r as usize))
    } else if r == HOLE_COUNT {
        Index::Score(Player(sower))
    } else {
        Index::Player(Player::spec_next(Player(sower)), Hole((r - HOLE_COUNT - 1) as usize))
    }
}

/// The hole of a place that is a hole.
pub open spec fn hole_of(index: Index) -> nat {
    match index {
        Index::Player(_, Hole(h)) => h as nat,
        Index::Score(_) => 0,
    }
}

/// The path of a sowing goes round the ring: `k` steps after the hole `h`
/// it is at the place `h + k` of the ring, counted round.
pub proof fn lemma_path_ring(from: Index, k: nat)
    requires
        from is Player,
        from.valid(),
    ensures
        path(from, k) == ring(from.spec_player(), (hole_of(from) + k) % round()),
    decreases k,
{
    if k > 0 {
        lemma_path_ring(from, (k - 1) as nat);
        let r = (hole_of(from) + k - 1) as nat % round();
        assert((hole_of(from) + k) % round() == (if r == 12 {
            0
        } else {
            r + 1
        })) by (nonlinear_arith)
            requires
                r == (hole_of(from) + k - 1) as nat % 13,
                round() == 13,
                k > 0,
        ;
        let sower = from.spec_player();
        let before = ring(sower, r);
        assert(path(from, k) == before.spec_next(Player(sower)));
        assert(before.spec_next(Player(sower)) == ring(sower, (hole_of(from) + k) % round()));
    } else {
        lemma_first_round(hole_of(from));
    }
}

/// Counting round the ring changes nothing before the first round is over.
proof fn lemma_first_round(r: nat)
    requires
        r < round(),
    ensures
        r % round() == r,
{
    assert(r % round() == r) by (nonlinear_arith)
        requires
            r < round(),
            round() == 13,
    ;
}

/// The places of the ring are different places.
pub proof fn lemma_ring_distinct(sower: usize, r: nat, q: nat)
    requires
        sower < PLAYER_COUNT,
        r < round(),
        q < round(),
        r != q,
    ensures
        ring(sower, r) != ring(sower, q),
{
}

/// Two steps of a path that are less than a round apart are at different
/// places.
pub proof fn lemma_path_distinct(from: Index, j: nat, k: nat)
    requires
        from is Player,
        from.valid(),
        j < k < j + round(),
    ensures
        path(from, j) != path(from, k),
{
    lemma_path_ring(from, j);
    lemma_path_ring(from, k);
    let a = (hole_of(from) + j) % round();
    let b = (hole_of(from) + k) % round();
    assert(a != b) by (nonlinear_arith)
        requires
            a == (hole_of(from) + j) % 13,
            b == (hole_of(from) + k) % 13,
            j < k < j + 13,
    ;
    lemma_ring_distinct(from.spec_player(), a, b);
}

/// Whether a piece is put down at `at` during the first `k` steps of the
/// sowing from `from`.
pub open spec fn on_path(from: Index, at: Index, k: nat) -> bool {
    exists|j: nat| 1 <= j <= k && #[trigger] path(from, j) == at
}

/// A sowing that does not go all the way round, after `k` of its steps:
/// the hole it began at is empty, each place it has come to holds one
/// piece more, and every other place holds what it held.
proof fn lemma_sown_short(board: Buckets, from: Index, k: nat)
    requires
        from is Player,
        from.valid(),
        k <= board[from].len(),
        k < round(),
    ensures
        sown(board, from, board[from], k)[from] == Seq::<Entity>::empty(),
        forall|j: nat|
            1 <= j <= k ==> sown(board, from, board[from], k)[#[trigger] path(from, j)]
                == board[path(from, j)].push(board[from][j - 1]),
        forall|at: Index|
            at != from && !on_path(from, at, k) ==> #[trigger] sown(board, from, board[from], k)[at]
                == board[at],
    decreases k,
{
    let stones = board[from];
    let now = sown(board, from, stones, k);
    if k > 0 {
        let before = sown(board, from, stones, (k - 1) as nat);
        let here = path(from, k);
        lemma_sown_short(board, from, (k - 1) as nat);
        assert(now == place(before, here, stones[k - 1]));
        assert(here != from) by {
            lemma_path_distinct(from, 0, k);
        }
        assert forall|j: nat| 1 <= j < k implies #[trigger] path(from, j) != here by {
            lemma_path_distinct(from, j, k);
        }
        assert(!on_path(from, here, (k - 1) as nat));
        assert(before[here] == board[here]);
        assert forall|j: nat| 1 <= j <= k implies now[#[trigger] path(from, j)] == board[path(
            from,
            j,
        )].push(stones[j - 1]) by {
            if j < k {
                assert(path(from, j) != here);
            }
        }
        assert forall|at: Index| at != from && !on_path(from, at, k) implies #[trigger] now[at]
            == board[at] by {
            assert(at != here);
            assert(!on_path(from, at, (k - 1) as nat)) by {
                if on_path(from, at, (k - 1) as nat) {
                    let j = choose|j: nat| 1 <= j <= k - 1 && #[trigger] path(from, j) == at;
                    assert(1 <= j <= k && path(from, j) == at);
                }
            }
        }
    }
}

/// A sowing of fewer pieces than the path has places puts one piece at each
/// of as many different places, leaves the hole it began at empty, and
/// leaves every other place as it was.
pub proof fn lemma_sowing_length(board: Buckets, from: Index)
    requires
        from is Player,
        from.valid(),
        board[from].len() < round(),
    ensures
        after_sowing(board, from)[from].len() == 0,
        forall|j: nat|
            1 <= j <= board[from].len() ==> after_sowing(board, from)[#[trigger] path(from, j)]
                == board[path(from, j)].push(board[from][j - 1]),
        forall|j: nat| 1 <= j <= board[from].len() ==> #[trigger] path(from, j) != from,
        forall|j: nat, k: nat|
            1 <= j < k <= board[from].len() ==> #[trigger] path(from, j) != #[trigger] path(
                from,
                k,
            ),
        forall|at: Index|
            at != from && !on_path(from, at, board[from].len()) ==> #[trigger] after_sowing(
                board,
                from,
            )[at] == board[at],
{
    lemma_sown_short(board, from, board[from].len());
    assert forall|j: nat| 1 <= j <= board[from].len() implies #[trigger] path(from, j)
        != from by {
        lemma_path_distinct(from, 0, j);
    }
    assert forall|j: nat, k: nat| 1 <= j < k <= board[from].len() implies #[trigger] path(
        from,
        j,
    ) != #[trigger] path(from, k) by {
        lemma_path_distinct(from, j, k);
    }
}

/// A sowing ends in no score pile but the sower's.
pub proof fn lemma_landing(board: Buckets, from: Index)
    requires
        from is Player,
        from.valid(),
    ensures
        landing(board, from).valid(),
        landing(board, from) is Score ==> landing(board, from) == Index::Score(
            Player(from.spec_player()),
        ),
{
    lemma_path_valid(from, board[from].len());
    lemma_path_ring(from, board[from].len());
}

/// After a move that does not end the game, the turn is the mover's once
/// more where the sowing ended in the mover's score pile, and the other
/// player's where it ended anywhere else: the step that closes the move
/// gives the turn to that player.
pub proof fn lemma_turn_advance(board: Buckets, from: Index, player: Player)
    requires
        from is Player,
        from.valid(),
        player.0 == from.spec_player(),
        !game_over(resolved(board, from)),
    ensures
        move_steps(board, from, player).last() == Step::Single(
            Action::NextPlayer(NextPlayer(turn_after(board, from, player))),
        ),
        landing(board, from) == Index::Score(player) ==> NextPlayer(
            turn_after(board, from, player),
        ).spec_turn() == PlayerTurn::Player(player.0),
        landing(board, from) != Index::Score(player) ==> NextPlayer(
            turn_after(board, from, player),
        ).spec_turn() == PlayerTurn::Player((1 - player.0) as usize),
{
    lemma_landing(board, from);
}

/// What a capture does: the hole in which the last piece landed and the
/// hole across from it are left empty, and the mover's score pile grows by
/// that piece and by all that lay across from it.
pub proof fn lemma_capture(board: Buckets, from: Index)
    requires
        from is Player,
        from.valid(),
        captures(after_sowing(board, from), landing(board, from), from.spec_player()),
    ensures
        ({
            let sowed = after_sowing(board, from);
            let at = landing(board, from);
            let across = at.spec_opposite_bucket().unwrap();
            let home = Index::Score(Player(from.spec_player()));
            &&& resolved(board, from)[at].len() == 0
            &&& resolved(board, from)[across].len() == 0
            &&& resolved(board, from)[home] == sowed[home] + sowed[at] + sowed[across]
            &&& resolved(board, from)[home].len() == sowed[home].len() + sowed[across].len() + 1
            &&& forall|other: Index|
                other != at && other != across && other != home ==> #[trigger] resolved(
                    board,
                    from,
                )[other] == sowed[other]
        }),
{
    lemma_landing(board, from);
}

/// A move along the mover's own row that puts its last piece into an empty
/// hole `at`, across from a hole that holds `k > 0` pieces, leaves both
/// holes empty and the mover's score pile larger by `k + 1`.
pub proof fn lemma_capture_correct(board: Buckets, from: Index, at: Index)
    requires
        from is Player,
        from.valid(),
        at is Player,
        at.valid(),
        at.spec_player() == from.spec_player(),
        1 <= board[from].len() <= HOLE_COUNT,
        landing(board, from) == at,
        board[at].len() == 0,
        board[at.spec_opposite_bucket().unwrap()].len() > 0,
    ensures
        ({
            let across = at.spec_opposite_bucket().unwrap();
            let home = Index::Score(Player(from.spec_player()));
            &&& captures(after_sowing(board, from), at, from.spec_player())
            &&& resolved(board, from)[at].len() == 0
            &&& resolved(board, from)[across].len() == 0
            &&& resolved(board, from)[home].len() == board[home].len() + board[across].len() + 1
        }),
{
    let n = board[from].len();
    let sowed = after_sowing(board, from);
    let across = at.spec_opposite_bucket().unwrap();
    let home = Index::Score(Player(from.spec_player()));
    lemma_sowing_length(board, from);
    lemma_path_ring(from, n);
    lemma_first_round(hole_of(from) + n);
    assert(hole_of(from) + n < HOLE_COUNT);
    assert forall|j: nat| 1 <= j <= n implies #[trigger] path(from, j) != across && path(from, j)
        != home by {
        lemma_path_ring(from, j);
        lemma_first_round(hole_of(from) + j);
    }
    assert(!on_path(from, across, n));
    assert(!on_path(from, home, n));
    assert(sowed[across] == board[across]);
    assert(sowed[home] == board[home]);
    assert(sowed[path(from, n)] == board[at].push(board[from][n - 1]));
    lemma_capture(board, from);
}

/// Where a move leaves some row empty, it declares a winner, once, as the
/// last of its steps: the player with the largest score pile, and where
/// the piles are equal the first player. Where it leaves no row empty, it
/// declares none.
pub proof fn lemma_win_detection(board: Buckets, from: Index, player: Player)
    requires
        from is Player,
        from.valid(),
    ensures
        ({
            let steps = move_steps(board, from, player);
            let end = resolved(board, from);
            let first = end[Index::Score(Player(0))].len();
            let second = end[Index::Score(Player(1))].len();
            &&& steps.len() >= 1
            &&& forall|i: int| 0 <= i < steps.len() - 1 ==> #[trigger] steps[i] is Chain
            &&& game_over(end) ==> steps.last() == Step::Single(
                Action::DeclareWinner(RunSystem { input: Player(winner(end)) }),
            )
            &&& !game_over(end) ==> steps.last() == Step::Single(
                Action::NextPlayer(NextPlayer(turn_after(board, from, player))),
            )
            &&& winner(end) < PLAYER_COUNT
            &&& first > second ==> winner(end) == 0
            &&& second > first ==> winner(end) == 1
            &&& first == second ==> winner(end) == 0
        }),
{
    let steps = move_steps(board, from, player);
    let sowed = after_sowing(board, from);
    let at = landing(board, from);
    let mover = from.spec_player();
    let shown = sowing_steps(board, from);
    let taken = if captures(sowed, at, mover) {
        capture_steps(sowed, at, mover)
    } else {
        Seq::empty()
    };
    assert(steps == shown + taken + seq![
        closing_step(resolved(board, from), turn_after(board, from, player)),
    ]);
    assert forall|i: int| 0 <= i < steps.len() - 1 implies #[trigger] steps[i] is Chain by {
        if i < shown.len() {
            assert(steps[i] == shown[i]);
        } else {
            assert(steps[i] == taken[i - shown.len()]);
        }
    }
}

/// Every step that shows a move is ready to run: the chain that shows a
/// piece going somewhere is new, and begins with its first action.
pub proof fn lemma_steps_ready(board: Buckets, from: Index, player: Player)
    ensures
        forall|i: int|
            0 <= i < move_steps(board, from, player).len() ==> (#[trigger] move_steps(
                board,
                from,
                player,
            )[i]).wf(),
{
    let steps = move_steps(board, from, player);
    let sowed = after_sowing(board, from);
    let at = landing(board, from);
    let mover = from.spec_player();
    let shown = sowing_steps(board, from);
    let taken = if captures(sowed, at, mover) {
        capture_steps(sowed, at, mover)
    } else {
        Seq::empty()
    };
    assert forall|stone: Entity, to: Index| (#[trigger] relocation(stone, to)).wf() by {
        ChainActions::<2>::lemma_new(MovePiece::spec_pair(stone, Kalah::spec_position(to)));
    }
    assert forall|i: int| 0 <= i < steps.len() implies (#[trigger] steps[i]).wf() by {
        if i < shown.len() {
            assert(steps[i] == shown[i]);
        } else if i < shown.len() + taken.len() {
            assert(steps[i] == taken[i - shown.len()]);
        }
    }
}

/// Where a place of the board is in space does not depend on what the board
/// holds: every Kalah board gives the same answer for the same index.
pub proof fn lemma_position_pure(first: Kalah, second: Kalah, index: Index)
    ensures
        first.spec_bucket_position(index) == second.spec_bucket_position(index),
        first.spec_bucket_position(index) == Kalah::spec_position(index),
{
}

} // verus!
