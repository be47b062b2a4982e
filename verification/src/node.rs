//! The search tree: an arena of nodes addressed by stable indices.
//!
//! Parent links point strictly backwards and child links strictly forwards,
//! so walks terminate; statistics stay within the bounds the fixed-point
//! selection rule needs. Tree memory is never reclaimed during a session.

use vstd::prelude::*;

use rand_chacha::ChaCha8Rng;

use crate::all_moves::N_MOVES;
use crate::game_state::{wf_state, GameState};
use crate::rng::random_permutation;

verus! {

/// Hard cap on a node's visit count: a full session performs fewer rollouts
/// than this, so increments never overflow.
pub const MAX_VISITS: u64 = 0x2_0000_0000;

/// One node: an owned state snapshot, its statistics, the upward link, the
/// child links, and the lazy-expansion bookkeeping.
pub struct Node {
    pub game_state: GameState,
    pub score: i64,
    pub visits: u64,
    pub parent: Option<usize>,
    pub children: Vec<usize>,
    pub move_order: Vec<usize>,
    pub next_move_to_perform: usize,
}

/// Per-node invariant, relative to the arena's size and the node's own
/// index.
pub open spec fn node_wf(n: Node, n_nodes: int, my_idx: int) -> bool {
    &&& wf_state(n.game_state@)
    &&& n.visits <= MAX_VISITS
    &&& -(n.visits as int) <= n.score <= n.visits as int
    &&& (match n.parent {
        Some(p) => p < my_idx,
        None => true,
    })
    &&& (forall|i: int|
        0 <= i < n.children@.len() ==> my_idx < #[trigger] n.children@[i] < n_nodes)
    &&& n.move_order@.len() == N_MOVES
    &&& (forall|i: int| 0 <= i < N_MOVES ==> #[trigger] n.move_order@[i] < N_MOVES)
    &&& n.next_move_to_perform <= N_MOVES
    &&& n.children@.len() <= n.next_move_to_perform
}

/// The arena holding a search session's whole tree.
pub struct Tree {
    pub nodes: Vec<Node>,
}

pub open spec fn tree_wf(t: Tree) -> bool {
    &&& (forall|i: int|
        0 <= i < t.nodes@.len() ==> node_wf(#[trigger] t.nodes@[i], t.nodes@.len() as int, i))
    &&& (forall|i: int, j: int|
        0 <= i < t.nodes@.len() && 0 <= j < t.nodes@[i].children@.len()
            ==> t.nodes@[#[trigger] t.nodes@[i].children@[j] as int].parent == Some(i as usize))
}

impl Node {
    /// A fresh, unvisited node owning `game_state`, with its own random
    /// move order.
    pub fn new(game_state: GameState, parent: Option<usize>, rng: &mut ChaCha8Rng) -> (r: Node)
        requires
            wf_state(game_state@),
        ensures
            r.game_state == game_state,
            r.score == 0,
            r.visits == 0,
            r.parent == parent,
            r.children@.len() == 0,
            r.next_move_to_perform == 0,
            r.move_order@.len() == N_MOVES,
            forall|i: int| 0 <= i < N_MOVES ==> #[trigger] r.move_order@[i] < N_MOVES,
            r.move_order@.no_duplicates(),
    {
        Node {
            game_state,
            score: 0,
            visits: 0,
            parent,
            children: Vec::new(),
            move_order: random_permutation(rng, N_MOVES),
            next_move_to_perform: 0,
        }
    }

    pub fn move_order(&self) -> (r: &Vec<usize>)
        ensures
            r@ == self.move_order@,
    {
        &self.move_order
    }

    pub fn get_game_state(&self) -> (r: &GameState)
        ensures
            r == &self.game_state,
    {
        &self.game_state
    }
}

impl Tree {
    /// A tree holding only the given root.
    pub fn new(root_state: GameState, rng: &mut ChaCha8Rng) -> (r: Tree)
        requires
            wf_state(root_state@),
        ensures
            tree_wf(r),
            r.nodes@.len() == 1,
            r.nodes@[0].visits == 0,
            r.nodes@[0].score == 0,
            r.nodes@[0].children@.len() == 0,
            r.nodes@[0].parent is None,
            r.nodes@[0].game_state == root_state,
            r.nodes@[0].next_move_to_perform == 0,
            r.nodes@[0].move_order@.no_duplicates(),
            r.nodes@[0].move_order@.len() == crate::all_moves::N_MOVES,
    {
        let mut nodes: Vec<Node> = Vec::new();
        nodes.push(Node::new(root_state, None, rng));
        Tree { nodes }
    }

    pub fn len(&self) -> (r: usize)
        ensures
            r == self.nodes@.len(),
    {
        self.nodes.len()
    }
}

} // verus!
