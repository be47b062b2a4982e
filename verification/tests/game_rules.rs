//! Scenario tests for the state model and the move catalog.

use splendor::aristocrat_storage::AristocratStorage;
use splendor::board::BoardBuilder;
use splendor::card_storage::CardStorage;
use splendor::game::{apply_move, get_all_player_points, get_valid_moves, get_winner, is_game_over, GameError};
use splendor::game_state::{create_initial_game_state, GameState};
use splendor::moves::Move;
use splendor::player::Player;
use splendor::resources::{Resources, ResourcesBuilder};
use splendor::rng::rng_from_seed;
use splendor::row::{Row, RowBuilder};
use splendor::rows::RowsBuilder;

fn tables() -> (CardStorage, AristocratStorage) {
    (CardStorage::new(), AristocratStorage::new())
}

#[test]
fn new_two_player_game_setup() {
    let mut rng = rng_from_seed(7);
    let state = create_initial_game_state(2, &mut rng);
    let bank = state.get_board().get_resources();
    assert_eq!(bank.n_green(), 4);
    assert_eq!(bank.n_red(), 4);
    assert_eq!(bank.n_blue(), 4);
    assert_eq!(bank.n_white(), 4);
    assert_eq!(bank.n_black(), 4);
    assert_eq!(bank.n_gold(), 5);
    for tier in 0..3u8 {
        let row = state.get_board().get_rows().get_row(tier);
        assert_eq!(row.n_visible(), 4);
    }
    assert_eq!(state.get_board().get_rows().get_row(0).n_hidden(), 36);
    assert_eq!(state.get_board().get_rows().get_row(1).n_hidden(), 23);
    assert_eq!(state.get_board().get_rows().get_row(2).n_hidden(), 16);
    assert_eq!(state.get_board().get_aristocrat_ids().len(), 2);
    assert_eq!(state.get_current_player_index(), 0);
}

#[test]
fn get_three_distinct_reduces_bank_and_advances_turn() {
    let (cards, nobles) = tables();
    let mut rng = rng_from_seed(11);
    let state = create_initial_game_state(2, &mut rng);
    // Catalog index 0 is GetThreeDistinct(Green, Blue, Red).
    let next = apply_move(&state, 0, &cards, &nobles).expect("move 0 must be valid on turn 1");
    let bank = next.get_board().get_resources();
    assert_eq!(bank.n_green(), 3);
    assert_eq!(bank.n_blue(), 3);
    assert_eq!(bank.n_red(), 3);
    assert_eq!(bank.n_white(), 4);
    assert_eq!(bank.n_black(), 4);
    let p0 = &next.get_players()[0];
    assert_eq!(p0.get_resources().n_green(), 1);
    assert_eq!(p0.get_resources().n_blue(), 1);
    assert_eq!(p0.get_resources().n_red(), 1);
    assert_eq!(next.get_current_player_index(), 1);
}

#[test]
fn perform_does_not_alter_input_state() {
    let (cards, nobles) = tables();
    let mut rng = rng_from_seed(23);
    let state = create_initial_game_state(2, &mut rng);
    let retained = state.clone();
    let _next = apply_move(&state, 0, &cards, &nobles).expect("move 0 valid");
    assert!(state == retained, "the input state must be observably unchanged");
}

#[test]
fn builder_round_trip_is_identity() {
    let mut rng = rng_from_seed(31);
    let state = create_initial_game_state(3, &mut rng);
    let rebuilt = state.to_builder().build();
    assert!(rebuilt == state);
}

#[test]
fn turn_pointer_advances_once_per_move() {
    let (cards, nobles) = tables();
    let mut rng = rng_from_seed(43);
    let mut state = create_initial_game_state(2, &mut rng);
    // Six grants of three distinct colors, drawing on disjoint color triples
    // so that the bank never runs short.
    let sequence = [0usize, 1, 3, 4, 8, 9];
    for (k, idx) in sequence.iter().enumerate() {
        assert_eq!(state.get_current_player_index(), k % 2);
        state = apply_move(&state, *idx, &cards, &nobles)
            .unwrap_or_else(|_| panic!("move {idx} should be valid"));
    }
    assert_eq!(state.get_current_player_index(), 0);
}

#[test]
fn grant_past_ten_units_is_invalid() {
    let (cards, nobles) = tables();
    let mut rng = rng_from_seed(43);
    let mut state = create_initial_game_state(2, &mut rng);
    for idx in [0usize, 1, 3, 4, 8, 9] {
        state = apply_move(&state, idx, &cards, &nobles).expect("grant sequence valid");
    }
    // Player 0 now holds nine units; any further three-unit grant would
    // exceed the ten-unit cap.
    assert_eq!(state.get_players()[0].get_resources().sum(), 9);
    assert_eq!(apply_move(&state, 0, &cards, &nobles), Err(GameError::InvalidMove));
    let valid = get_valid_moves(&state, &cards);
    assert!(valid.iter().all(|&i| i >= 10), "no three-unit grant may remain valid");
}

#[test]
fn move_index_out_of_range_is_reported() {
    let (cards, nobles) = tables();
    let mut rng = rng_from_seed(5);
    let state = create_initial_game_state(2, &mut rng);
    assert_eq!(apply_move(&state, 99, &cards, &nobles), Err(GameError::MoveIndexOutOfRange));
    assert_eq!(apply_move(&state, 45, &cards, &nobles), Err(GameError::MoveIndexOutOfRange));
}

#[test]
fn reserve_visible_refills_and_caps_at_three() {
    let (cards, nobles) = tables();
    let mut rng = rng_from_seed(13);
    let mut state = create_initial_game_state(2, &mut rng);
    let before_card = state.get_board().get_rows().get_row(0).get_card_id(0);
    // Catalog index 15 is ReserveVisible(tier 0, slot 0).
    state = apply_move(&state, 15, &cards, &nobles).expect("reserve valid");
    let row = state.get_board().get_rows().get_row(0);
    assert_eq!(row.n_visible(), 4, "slot refilled from the hidden pile");
    assert_eq!(row.n_hidden(), 35);
    let p0 = &state.get_players()[0];
    assert_eq!(p0.get_reserve().len(), 1);
    assert_eq!(p0.get_reserve()[0], *cards.get_card(before_card));
    assert_eq!(p0.get_resources().n_gold(), 1);
    assert_eq!(state.get_board().get_resources().n_gold(), 4);
    assert_eq!(state.get_current_player_index(), 1);
    // Fill the reserve to three, interleaving a harmless move for the other
    // player, then expect a fourth reservation to be rejected.
    state = apply_move(&state, 0, &cards, &nobles).expect("other player grant");
    state = apply_move(&state, 15, &cards, &nobles).expect("second reserve");
    state = apply_move(&state, 1, &cards, &nobles).expect("other player grant");
    state = apply_move(&state, 15, &cards, &nobles).expect("third reserve");
    state = apply_move(&state, 3, &cards, &nobles).expect("other player grant");
    assert_eq!(state.get_players()[0].get_reserve().len(), 3);
    assert_eq!(apply_move(&state, 15, &cards, &nobles), Err(GameError::InvalidMove));
}

#[test]
fn removing_visible_card_shrinks_window_when_hidden_empty() {
    let row = Row::new(vec![1, 2]);
    assert_eq!(row.n_visible(), 2);
    assert_eq!(row.n_hidden(), 0);
    let mut rb = RowBuilder::new(&row);
    let taken = rb.remove(0);
    assert_eq!(taken, 1);
    let after = rb.build();
    assert_eq!(after.n_visible(), 1);
    assert_eq!(after.get_card_id(0), 2);
}

fn empty_rows_builder() -> RowsBuilder {
    RowsBuilder {
        rows: (
            RowBuilder::new(&Row::new(vec![])),
            RowBuilder::new(&Row::new(vec![])),
            RowBuilder::new(&Row::new(vec![])),
        ),
    }
}

/// A two-player state where a build from reserve completes a noble's
/// production threshold.
fn noble_claim_state(cards: &CardStorage) -> GameState {
    // Noble 0 demands a production of four red and four black.
    // Deck: four red producers and three black producers from the first
    // tier; the reserved card (table index 6, costing three green) produces
    // the fourth black.
    let deck: Vec<_> = (32..36).chain(0..3).map(|i| *cards.get_card(i)).collect();
    let reserve = vec![*cards.get_card(6)];
    let p0 = Player::from_parts(deck, Resources::new(3, 0, 0, 0, 0, 0), reserve, Vec::new());
    let p1 = Player::new();
    let board = BoardBuilder {
        resources: ResourcesBuilder {
            n_green: 1,
            n_red: 4,
            n_blue: 4,
            n_white: 4,
            n_black: 4,
            n_gold: 5,
        },
        rows: empty_rows_builder(),
        aristocrats: vec![0],
    }
    .build();
    GameState::from_existing(vec![p0, p1], 0, board)
}

#[test]
fn noble_awarded_once_and_removed_from_board() {
    let (cards, nobles) = tables();
    let state = noble_claim_state(&cards);
    assert_eq!(state.get_board().get_aristocrat_ids().len(), 1);
    let m = Move::BuildFromReserve { index: 0 };
    let next = m.perform(&state, &cards, &nobles);
    let p0 = &next.get_players()[0];
    assert_eq!(p0.get_aristocrats().as_slice(), &[0usize]);
    assert_eq!(next.get_board().get_aristocrat_ids().len(), 0, "board noble count drops by one");
    // Three bonus points on top of the deck's own card points.
    let deck_points: u16 = p0.get_deck().iter().map(|c| c.n_points() as u16).sum();
    assert_eq!(p0.get_points(), deck_points + 3);
    // The spent colors returned to the bank.
    assert_eq!(next.get_board().get_resources().n_green(), 4);
}

#[test]
fn reserve_from_hidden_takes_the_top_unseen_card() {
    let (cards, nobles) = tables();
    let mut rng = rng_from_seed(19);
    let state = create_initial_game_state(2, &mut rng);
    // Catalog index 39 is ReserveFromHidden(tier 0).
    let next = apply_move(&state, 39, &cards, &nobles).expect("hidden reserve valid");
    let row = next.get_board().get_rows().get_row(0);
    assert_eq!(row.n_visible(), 4, "the visible window is untouched");
    assert_eq!(row.n_hidden(), 35);
    assert_eq!(next.get_players()[0].get_reserve().len(), 1);
    assert_eq!(next.get_players()[0].get_resources().n_gold(), 1);
    assert_eq!(next.get_board().get_resources().n_gold(), 4);
}

#[test]
fn winner_is_first_player_at_threshold() {
    let (cards, _nobles) = tables();
    let mut rng = rng_from_seed(3);
    let fresh = create_initial_game_state(2, &mut rng);
    assert!(!is_game_over(&fresh));
    assert_eq!(get_winner(&fresh), None);
    assert_eq!(get_all_player_points(&fresh), vec![0, 0]);
    // A crafted position: player 1 holds five awarded nobles, fifteen
    // points, while player 0 has none.
    let p0 = Player::new();
    let p1 = Player::from_parts(
        Vec::new(),
        Resources::new(0, 0, 0, 0, 0, 0),
        Vec::new(),
        vec![0, 1, 2, 3, 4],
    );
    let board = BoardBuilder {
        resources: ResourcesBuilder {
            n_green: 4,
            n_red: 4,
            n_blue: 4,
            n_white: 4,
            n_black: 4,
            n_gold: 5,
        },
        rows: empty_rows_builder(),
        aristocrats: vec![5],
    }
    .build();
    let won = GameState::from_existing(vec![p0, p1], 0, board);
    assert!(is_game_over(&won));
    assert_eq!(get_winner(&won), Some(1));
    assert_eq!(get_all_player_points(&won), vec![0, 15]);
    let _ = &cards;
}

#[test]
fn card_table_shape() {
    let cards = CardStorage::new();
    assert_eq!(cards.len(), 87);
    assert_eq!(cards.get_first_tier_cards().len(), 40);
    assert_eq!(cards.get_second_tier_cards().len(), 27);
    assert_eq!(cards.get_third_tier_cards().len(), 20);
    // A sample entry: the first card costs one each of red, blue and white.
    let c0 = cards.get_card(0);
    assert_eq!(c0.n_points(), 0);
    assert_eq!(c0.cost().n_green(), 1);
    assert_eq!(c0.cost().n_red(), 1);
    assert_eq!(c0.cost().n_blue(), 1);
    assert_eq!(c0.cost().n_white(), 1);
    assert_eq!(c0.cost().n_black(), 0);
    let nobles = AristocratStorage::new();
    assert_eq!(nobles.len(), 10);
    assert_eq!(nobles.get_aristocrat(0).cost().n_red(), 4);
    assert_eq!(nobles.get_aristocrat(0).cost().n_black(), 4);
}
