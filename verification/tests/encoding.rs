//! Tests for the byte encoders, the catalog numbering, and move decoding.

use splendor::all_moves::{decode_move_index, get_all_moves, get_n_moves};
use splendor::card_storage::CardStorage;
use splendor::encoder::{game_state_to_bytes, OneHotCardEncoder, ParameterEncoder};
use splendor::game_state::create_initial_game_state;
use splendor::moves::Move;
use splendor::resource::Resource;
use splendor::rng::rng_from_seed;

#[test]
fn catalog_numbering_matches_contract() {
    let all = get_all_moves();
    assert_eq!(all.len(), 45);
    assert_eq!(get_n_moves(), 45);
    assert_eq!(
        all[0],
        Move::GetThree {
            first: Resource::Green,
            second: Resource::Blue,
            third: Resource::Red
        }
    );
    assert_eq!(all[10], Move::GetTwo { resource: Resource::Green });
    assert_eq!(all[14], Move::GetTwo { resource: Resource::Black });
    match all[15] {
        Move::Reserve { card_reference } => {
            assert_eq!(card_reference.get_row_index(), 0);
            assert_eq!(card_reference.get_card_index(), 0);
        }
        other => panic!("index 15 should reserve tier 0 slot 0, got {other:?}"),
    }
    match all[16] {
        Move::BuildCard { card_reference } => {
            assert_eq!(card_reference.get_row_index(), 0);
            assert_eq!(card_reference.get_card_index(), 0);
        }
        other => panic!("index 16 should build tier 0 slot 0, got {other:?}"),
    }
    match all[38] {
        Move::BuildCard { card_reference } => {
            assert_eq!(card_reference.get_row_index(), 2);
            assert_eq!(card_reference.get_card_index(), 3);
        }
        other => panic!("index 38 should build tier 2 slot 3, got {other:?}"),
    }
    assert_eq!(all[39], Move::ReserveFromHidden { row_index: 0 });
    assert_eq!(all[41], Move::ReserveFromHidden { row_index: 2 });
    assert_eq!(all[42], Move::BuildFromReserve { index: 0 });
    assert_eq!(all[44], Move::BuildFromReserve { index: 2 });
}

#[test]
fn decode_move_index_descriptions() {
    assert_eq!(decode_move_index(0), "Get 3: Green, Blue, Red");
    assert_eq!(decode_move_index(9), "Get 3: Red, White, Black");
    assert_eq!(decode_move_index(10), "Get 2: Green");
    assert_eq!(decode_move_index(15), "Reserve card from board (Tier 1, Position 0)");
    assert_eq!(decode_move_index(16), "Build card from board (Tier 1, Position 0)");
    assert_eq!(decode_move_index(38), "Build card from board (Tier 3, Position 3)");
    assert_eq!(decode_move_index(39), "Reserve from hidden deck (Tier 1)");
    assert_eq!(decode_move_index(44), "Build from reserve (Slot 2)");
    assert_eq!(decode_move_index(45), "Unknown move index");
}

#[test]
fn one_hot_row_encoding_marks_visible_cards() {
    let cards = CardStorage::new();
    let mut rng = rng_from_seed(17);
    let state = create_initial_game_state(2, &mut rng);
    let row = state.get_board().get_rows().get_row(0);
    let enc = OneHotCardEncoder::new();
    let bytes = enc.encode_row_exact(row);
    assert_eq!(bytes.len(), 4 * 90);
    assert_eq!(bytes.iter().filter(|&&b| b == 1).count(), 4);
    for slot in 0..4 {
        let id = row.get_card_id(slot);
        assert_eq!(bytes[slot * 90 + id], 1);
        // The pad entries past the card table stay zero.
        assert_eq!(bytes[slot * 90 + 87], 0);
        assert_eq!(bytes[slot * 90 + 89], 0);
    }
    let _ = &cards;
}

#[test]
fn parameter_card_encoding_layout() {
    let cards = CardStorage::new();
    // Table entry 8 is a blue producer costing one green, red, white, black.
    let card = cards.get_card(8);
    let bytes = ParameterEncoder::encode_card(Some(card));
    assert_eq!(bytes.len(), 11);
    assert_eq!(bytes[0], card.n_points());
    assert_eq!(bytes[1], card.cost().n_green());
    assert_eq!(bytes[2], card.cost().n_red());
    assert_eq!(bytes[3], card.cost().n_blue());
    assert_eq!(bytes[4], card.cost().n_black());
    assert_eq!(bytes[5], card.cost().n_white());
    assert_eq!(&bytes[6..11], &[0, 0, 1, 0, 0], "one-hot blue production");
    let absent = ParameterEncoder::encode_card(None);
    assert_eq!(absent, vec![0u8; 11]);
}

#[test]
fn state_bytes_start_with_the_active_player() {
    let cards = CardStorage::new();
    let mut rng = rng_from_seed(21);
    let state = create_initial_game_state(2, &mut rng);
    let enc = ParameterEncoder::new();
    let bytes = game_state_to_bytes(&state, &enc, &cards);
    // Two player blocks of 12 + 33 bytes, then three rows of 44 bytes.
    assert_eq!(bytes.len(), 2 * 45 + 3 * 44);
    // A fresh player: no points, no holdings, no production, empty reserve.
    assert!(bytes[..90].iter().all(|&b| b == 0));
    // The first row block mirrors the row encoder's output.
    let row0 = enc.encode_row_exact(state.get_board().get_rows().get_row(0), &cards);
    assert_eq!(&bytes[90..134], row0.as_slice());
}
