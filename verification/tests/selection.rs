use bevy::ecs::entity::Entity;

use stones::game::actions::board::{press, release, setup_board, setup_stones};
use stones::game::actions::turn::{perform_move, NextPlayer};
use stones::game::actions::{Action, PlayerMove, Step, UpdateLabels};
use stones::game::{is_invalid_selection, Board, GameState, Hole, Player, PlayerTurn, Selected};
use stones::rules::variants::{ChosenVariant, Index};

fn hole(player: usize, hole: usize) -> Index {
    Index::Player(Player(player), Hole(hole))
}

fn stones(count: u32) -> Vec<Entity> {
    (0..count).map(Entity::from_raw).collect()
}

fn start_board() -> Board {
    let mut board = ChosenVariant::default().to_variant();
    setup_stones(&mut board, &stones(48));
    board
}

fn counts(board: &Board) -> Vec<usize> {
    let mut all = Vec::new();
    for p in 0..2 {
        for h in 0..6 {
            all.push(board.0.get_bucket_entities(hole(p, h)).len());
        }
        all.push(board.0.get_bucket_entities(Index::Score(Player(p))).len());
    }
    all
}

#[test]
fn chosen_variant_makes_an_empty_kalah_board() {
    let board = ChosenVariant::default().to_variant();
    assert_eq!(board.0.hole_count(), 6);
    assert_eq!(board.0.starting_pieces(), 4);
    assert_eq!(counts(&board), vec![0; 14]);
}

#[test]
fn to_variant_copies_the_chosen_board() {
    let ChosenVariant::Kalah(mut kalah) = ChosenVariant::default();
    stones::rules::variants::Variant::push_entity(&mut kalah, hole(1, 2), Entity::from_raw(5));
    let chosen = ChosenVariant::Kalah(kalah);
    let mut board = chosen.to_variant();
    assert_eq!(board.0.get_bucket_entities(hole(1, 2)), &[Entity::from_raw(5)]);
    board.0.push_entity(hole(1, 2), Entity::from_raw(6));
    let again = chosen.to_variant();
    assert_eq!(again.0.get_bucket_entities(hole(1, 2)), &[Entity::from_raw(5)]);
}

#[test]
fn setup_stones_gives_four_to_each_hole_in_order() {
    let board = start_board();
    let all = stones(48);
    for p in 0..2 {
        for h in 0..6 {
            let first = (p * 6 + h) * 4;
            assert_eq!(board.0.get_bucket_entities(hole(p, h)), &all[first..first + 4]);
        }
        assert_eq!(board.0.get_bucket_entities(Index::Score(Player(p))), &[]);
    }
}

#[test]
fn setup_stones_adds_to_what_lies_on_the_board() {
    let mut board = ChosenVariant::default().to_variant();
    board.0.push_entity(hole(0, 1), Entity::from_raw(99));
    board.0.get_bucket_entities_mut(Index::Score(Player(1))).push(Entity::from_raw(98));
    setup_stones(&mut board, &stones(48));
    let held = board.0.get_bucket_entities(hole(0, 1));
    assert_eq!(held.len(), 5);
    assert_eq!(held[0], Entity::from_raw(99));
    assert_eq!(held[1], Entity::from_raw(4));
    assert_eq!(board.0.get_bucket_entities(Index::Score(Player(1))), &[Entity::from_raw(98)]);
}

#[test]
fn setup_board_clears_the_board() {
    let mut board = start_board();
    setup_board(&mut board);
    assert_eq!(counts(&board), vec![0; 14]);
}

#[test]
fn selection_is_valid_for_a_full_hole_of_the_player_whose_turn_it_is() {
    let board = start_board();
    assert!(!is_invalid_selection(0, PlayerTurn::Player(0), GameState::Playing, &board, 3));
    assert!(!is_invalid_selection(1, PlayerTurn::Player(1), GameState::Playing, &board, 0));
}

#[test]
fn selection_is_invalid_out_of_turn() {
    let board = start_board();
    assert!(is_invalid_selection(0, PlayerTurn::Player(1), GameState::Playing, &board, 3));
    assert!(is_invalid_selection(1, PlayerTurn::Player(0), GameState::Playing, &board, 3));
    assert!(is_invalid_selection(0, PlayerTurn::NoOne, GameState::Playing, &board, 3));
}

#[test]
fn selection_is_invalid_while_the_game_is_not_played() {
    let board = start_board();
    assert!(is_invalid_selection(0, PlayerTurn::Player(0), GameState::Menu, &board, 3));
    assert!(is_invalid_selection(0, PlayerTurn::Player(0), GameState::Loading, &board, 3));
    assert_eq!(GameState::default(), GameState::Loading);
}

#[test]
fn selection_is_invalid_for_an_empty_hole() {
    let mut board = start_board();
    board.0.get_bucket_entities_mut(hole(0, 3)).clear();
    assert!(is_invalid_selection(0, PlayerTurn::Player(0), GameState::Playing, &board, 3));
    assert!(!is_invalid_selection(0, PlayerTurn::Player(0), GameState::Playing, &board, 2));
}

// The mover's fourth hole is empty: the click is turned away, the board
// stays as it is and nothing is handed out to be queued.
#[test]
fn click_on_an_empty_hole_is_rejected() {
    let mut board = start_board();
    board.0.get_bucket_entities_mut(hole(0, 3)).clear();
    let before = counts(&board);
    let turn = PlayerTurn::Player(0);
    let mut selected = Selected(None);

    press(&mut selected, 0, 3, turn, GameState::Playing, &board);
    assert_eq!(selected.0, None);
    let begun = release(&mut selected, 0, 3, turn, GameState::Playing, &board);
    assert_eq!(begun, None);
    assert_eq!(selected.0, None);
    assert_eq!(counts(&board), before);
    assert_eq!(turn, PlayerTurn::Player(0));
}

#[test]
fn press_and_release_on_the_same_hole_begin_a_move() {
    let board = start_board();
    let turn = PlayerTurn::Player(1);
    let mut selected = Selected::default();
    assert_eq!(selected.0, None);

    press(&mut selected, 1, 4, turn, GameState::Playing, &board);
    assert_eq!(selected.0, Some(hole(1, 4)));
    let begun = release(&mut selected, 1, 4, turn, GameState::Playing, &board);
    assert_eq!(begun, Some(PlayerMove::with_input(hole(1, 4))));
    assert_eq!(selected.0, None);
}

#[test]
fn release_elsewhere_discards_the_selection() {
    let board = start_board();
    let turn = PlayerTurn::Player(1);
    let mut selected = Selected(None);
    press(&mut selected, 1, 4, turn, GameState::Playing, &board);
    let begun = release(&mut selected, 1, 2, turn, GameState::Playing, &board);
    assert_eq!(begun, None);
    assert_eq!(selected.0, None);
}

#[test]
fn release_on_an_invalid_target_discards_the_selection() {
    let board = start_board();
    let turn = PlayerTurn::Player(1);
    let mut selected = Selected(None);
    press(&mut selected, 1, 4, turn, GameState::Playing, &board);
    // A hole of the other player.
    let begun = release(&mut selected, 0, 4, turn, GameState::Playing, &board);
    assert_eq!(begun, None);
    assert_eq!(selected.0, None);
}

#[test]
fn release_without_a_press_begins_nothing() {
    let board = start_board();
    let mut selected = Selected(None);
    let begun = release(&mut selected, 0, 4, PlayerTurn::Player(0), GameState::Playing, &board);
    assert_eq!(begun, None);
    assert_eq!(selected.0, None);
}

#[test]
fn press_on_an_invalid_hole_keeps_the_selection() {
    let board = start_board();
    let turn = PlayerTurn::Player(0);
    let mut selected = Selected(None);
    press(&mut selected, 0, 1, turn, GameState::Playing, &board);
    press(&mut selected, 1, 1, turn, GameState::Playing, &board);
    assert_eq!(selected.0, Some(hole(0, 1)));
    press(&mut selected, 0, 2, turn, GameState::Playing, &board);
    assert_eq!(selected.0, Some(hole(0, 2)));
}

#[test]
fn nothing_is_selected_while_a_move_is_played_back() {
    let board = start_board();
    let mut selected = Selected(Some(hole(0, 1)));
    press(&mut selected, 0, 2, PlayerTurn::NoOne, GameState::Playing, &board);
    assert_eq!(selected.0, Some(hole(0, 1)));
    let begun = release(&mut selected, 0, 1, PlayerTurn::NoOne, GameState::Playing, &board);
    assert_eq!(begun, None);
    assert_eq!(selected.0, Some(hole(0, 1)));
}

#[test]
fn perform_move_takes_the_turn_away_and_shows_the_move() {
    let mut board = start_board();
    let mut turn = PlayerTurn::Player(0);
    let steps = perform_move(hole(0, 0), &mut board, &mut turn);
    assert_eq!(turn, PlayerTurn::NoOne);
    assert_eq!(counts(&board), vec![0, 5, 5, 5, 5, 4, 0, 4, 4, 4, 4, 4, 4, 0]);
    assert_eq!(steps.len(), 1 + 4 + 1);
    assert_eq!(steps[0], Step::Single(Action::UpdateLabels(UpdateLabels::new())));
    assert!(matches!(steps[1], Step::Chain(_)));
    assert_eq!(steps[5], Step::Single(Action::NextPlayer(NextPlayer(Player(1)))));
}

#[test]
fn perform_move_passes_the_turn_of_the_player_who_moved() {
    let mut board = start_board();
    let mut turn = PlayerTurn::Player(1);
    let steps = perform_move(hole(1, 2), &mut board, &mut turn);
    assert_eq!(turn, PlayerTurn::NoOne);
    // Four pieces from the third hole end in the mover's score pile.
    assert_eq!(steps.last(), Some(&Step::Single(Action::NextPlayer(NextPlayer(Player(1))))));
    let NextPlayer(next) = NextPlayer(Player(1));
    let (_, finished) = NextPlayer(next).on_start(&mut turn);
    assert!(finished);
    assert_eq!(turn, PlayerTurn::Player(1));
}
