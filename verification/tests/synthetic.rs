//! Tests for random self-play, evaluation, and data generation.

use rand::SeedableRng;
use rand_chacha::ChaCha8Rng;
use splendor::aristocrat_storage::AristocratStorage;
use splendor::card_storage::CardStorage;
use splendor::encoder::OneHotCardEncoder;
use splendor::eval::{evaluate_player_zero_state, get_last_player_index, EvaluationResult};
use splendor::game_state::create_initial_game_state;
use splendor::generator::generate_synthetic_data;
use splendor::rng::{rand_below, random_permutation, rng_from_seed};

#[test]
fn test_rng_state_determinism() {
    let n_players = 2;
    let n_moves_limit = 69;
    let max_depth = 1;
    let encoder = OneHotCardEncoder::new();
    let seed = 12345u64;
    let mut rng1 = ChaCha8Rng::seed_from_u64(seed);
    let mut rng2 = ChaCha8Rng::seed_from_u64(seed);
    let (states1, labels1, n_moves1) = generate_synthetic_data(
        5,
        n_players,
        &mut rng1,
        n_moves_limit,
        max_depth,
        &encoder,
    );
    let (states2, labels2, n_moves2) = generate_synthetic_data(
        5,
        n_players,
        &mut rng2,
        n_moves_limit,
        max_depth,
        &encoder,
    );
    assert_eq!(states1, states2, "Same seed should produce identical states");
    assert_eq!(labels1, labels2, "Same seed should produce identical labels");
    assert_eq!(n_moves1, n_moves2, "Same seed should produce identical n_moves");
}

#[test]
fn evaluation_at_zero_depth_is_a_draw() {
    let cards = CardStorage::new();
    let nobles = AristocratStorage::new();
    let mut rng = rng_from_seed(2);
    let state = create_initial_game_state(2, &mut rng);
    let r = evaluate_player_zero_state(&state, 2, 0, &cards, &nobles);
    assert_eq!(r, EvaluationResult::Draw);
    assert_eq!(r.to_label(), 0);
    assert_eq!(EvaluationResult::Winning.to_label(), 1);
    assert_eq!(EvaluationResult::Losing.to_label(), -1);
}

#[test]
fn last_player_index_wraps_around() {
    let mut rng = rng_from_seed(9);
    let state = create_initial_game_state(3, &mut rng);
    // At game start the current index is zero, so the player who "just
    // finished" is the last seat.
    assert_eq!(get_last_player_index(&state, 3), 2);
}

#[test]
fn injected_randomness_is_seed_deterministic() {
    let mut a = rng_from_seed(4242);
    let mut b = rng_from_seed(4242);
    for _ in 0..32 {
        assert_eq!(rand_below(&mut a, 1000), rand_below(&mut b, 1000));
    }
    let p = random_permutation(&mut a, 45);
    assert_eq!(p.len(), 45);
    let mut sorted = p.clone();
    sorted.sort_unstable();
    let identity: Vec<usize> = (0..45).collect();
    assert_eq!(sorted, identity, "a permutation holds every index exactly once");
}
