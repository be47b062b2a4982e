//! A turn-based resource/card-collection board game engine together with a
//! Monte-Carlo tree search over its game states.
//!
//! The state model is immutable: a move validates against a `GameState` and
//! produces a fresh `GameState`; the search tree is an arena of nodes, each
//! owning one such snapshot.

pub mod all_moves;
pub mod aristocrat;
pub mod aristocrat_storage;
pub mod board;
pub mod card;
pub mod card_reference;
pub mod card_storage;
pub mod row;
pub mod rows;
pub mod cost;
pub mod encoder;
pub mod eval;
pub mod game;
pub mod generator;
pub mod game_state;
pub mod laws;
pub mod mcts;
pub mod moves;
pub mod node;
pub mod numeric;
pub mod player;
pub mod resource;
pub mod resources;
pub mod rng;
