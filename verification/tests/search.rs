//! Tests for the search engine: selection determinism, dead-end rollouts,
//! and the fixed-point arithmetic behind the selection rule.

use splendor::aristocrat_storage::AristocratStorage;
use splendor::board::BoardBuilder;
use splendor::card_storage::CardStorage;
use splendor::game_state::{create_initial_game_state, GameState};
use splendor::mcts::{
    get_expanded_leaf_index_all_visited, rollout, root_child_stats, run_search,
};
use splendor::node::{Node, Tree};
use splendor::numeric::{fixed_ln, isqrt, ucb1_key};
use splendor::player::Player;
use splendor::resources::{Resources, ResourcesBuilder};
use splendor::rng::rng_from_seed;
use splendor::row::{Row, RowBuilder};
use splendor::rows::RowsBuilder;

#[test]
fn isqrt_exact_values() {
    assert_eq!(isqrt(0), 0);
    assert_eq!(isqrt(1), 1);
    assert_eq!(isqrt(15), 3);
    assert_eq!(isqrt(16), 4);
    assert_eq!(isqrt(24), 4);
    assert_eq!(isqrt(25), 5);
    assert_eq!(isqrt(1 << 40), 1 << 20);
}

#[test]
fn fixed_ln_exact_values() {
    // ln 1 == 0; ln 2 == the fixed-point ln-2 constant.
    assert_eq!(fixed_ln(1), 0);
    assert_eq!(fixed_ln(2), 45426);
    assert_eq!(fixed_ln(4), 2 * 45426);
    // ln 3 in 16-bit fixed point is about 1.0986 * 65536, within a percent.
    let ln3 = fixed_ln(3) as f64 / 65536.0;
    assert!((ln3 - 1.0986).abs() < 0.01, "ln 3 came out as {ln3}");
}

#[test]
fn ucb1_key_is_deterministic_and_exact() {
    // With one visit, no score and one parent visit, the key is the
    // fixed-point representation of 1.0 exactly.
    assert_eq!(ucb1_key(0, 1, 1), 65536);
    // The key is a pure function of its inputs.
    let a = ucb1_key(3, 7, 120);
    let b = ucb1_key(3, 7, 120);
    assert_eq!(a, b);
    // More visits with the same score lower the exploration bonus.
    assert!(ucb1_key(0, 2, 100) < ucb1_key(0, 1, 100));
}

fn plain_node(state: GameState, parent: Option<usize>, score: i64, visits: u64) -> Node {
    Node {
        game_state: state,
        score,
        visits,
        parent,
        children: Vec::new(),
        move_order: (0..45).collect(),
        next_move_to_perform: 0,
    }
}

#[test]
fn selection_is_repeatable_and_prefers_higher_keys() {
    let mut rng = rng_from_seed(77);
    let root_state = create_initial_game_state(2, &mut rng);
    let mut root = plain_node(root_state.clone(), None, 0, 30);
    root.children = vec![1, 2, 3];
    let tree = Tree {
        nodes: vec![
            root,
            plain_node(root_state.clone(), Some(0), 2, 10),
            plain_node(root_state.clone(), Some(0), 9, 10),
            plain_node(root_state.clone(), Some(0), -4, 10),
        ],
    };
    let first = get_expanded_leaf_index_all_visited(&tree, 0);
    let second = get_expanded_leaf_index_all_visited(&tree, 0);
    assert_eq!(first, second, "the arg-max is a pure function of the statistics");
    // All three children share visit counts, so the best score wins.
    assert_eq!(first, 1, "child position 1 holds the best score");
}

fn empty_rows_builder() -> RowsBuilder {
    RowsBuilder {
        rows: (
            RowBuilder::new(&Row::new(vec![])),
            RowBuilder::new(&Row::new(vec![])),
            RowBuilder::new(&Row::new(vec![])),
        ),
    }
}

/// A two-player state with no legal continuation: empty rows, an empty
/// bank, both players at the ten-unit cap with no gold and no reserves.
fn dead_end_state() -> GameState {
    let full = Resources::new(2, 2, 2, 2, 2, 0);
    let p0 = Player::from_parts(Vec::new(), full, Vec::new(), Vec::new());
    let p1 = Player::from_parts(Vec::new(), full, Vec::new(), Vec::new());
    let board = BoardBuilder {
        resources: ResourcesBuilder {
            n_green: 0,
            n_red: 0,
            n_blue: 0,
            n_white: 0,
            n_black: 0,
            n_gold: 0,
        },
        rows: empty_rows_builder(),
        aristocrats: vec![0, 1],
    }
    .build();
    GameState::from_existing(vec![p0, p1], 0, board)
}

#[test]
fn dead_end_rollout_backpropagates_a_loss() {
    let cards = CardStorage::new();
    let nobles = AristocratStorage::new();
    let mut rng = rng_from_seed(3);
    let root_state = create_initial_game_state(2, &mut rng);
    let mut root = plain_node(root_state, None, 0, 0);
    root.children = vec![1];
    let dead = plain_node(dead_end_state(), Some(0), 0, 0);
    let mut tree = Tree { nodes: vec![root, dead] };
    rollout(&mut tree, 1, &cards, &nobles, &mut rng);
    assert_eq!(tree.nodes[1].visits, 1);
    assert_eq!(tree.nodes[1].score, -1, "the dead end is scored as a loss");
    assert_eq!(tree.nodes[0].visits, 1);
    assert_eq!(tree.nodes[0].score, 1, "the outcome alternates sign up the path");
    assert_eq!(tree.nodes.len(), 2, "no child can be expanded from a dead end");
}

#[test]
fn search_is_deterministic_for_a_fixed_seed() {
    let cards = CardStorage::new();
    let nobles = AristocratStorage::new();
    let run = |seed: u64| {
        let mut rng = rng_from_seed(seed);
        let root_state = create_initial_game_state(2, &mut rng);
        let tree = run_search(root_state, 10, &cards, &nobles, &mut rng);
        root_child_stats(&tree)
    };
    let a = run(99);
    let b = run(99);
    assert_eq!(a, b);
    assert!(!a.is_empty(), "the root must have expandable moves");
    let total_visits: u64 = a.iter().map(|s| s.0).sum();
    assert!(total_visits >= 10, "every budgeted rollout visits some root child");
}
