//! The Monte-Carlo tree search engine: lazy expansion, unvisited-first
//! selection with a fixed-point upper-confidence rule, rollouts to a turn
//! boundary, and alternating-sign backpropagation.

use vstd::prelude::*;

use rand_chacha::ChaCha8Rng;

use crate::all_moves::{get_all_moves, N_MOVES};
use crate::aristocrat_storage::{AristocratStorage, N_ARISTOCRATS};
use crate::card_storage::{CardStorage, N_CARDS};
use crate::game::{max_points, WINNING_POINTS};
use crate::game_state::GameState;
use crate::node::{node_wf, tree_wf, Node, Tree, MAX_VISITS};
use crate::numeric::{spec_ucb1_key, ucb1_key};
use crate::rng::rand_below;

verus! {

/// The selection key of the child in position `j` of `node`'s child list.
pub open spec fn spec_child_key(t: Tree, node: int, j: int) -> int {
    let child = t.nodes@[t.nodes@[node].children@[j] as int];
    spec_ucb1_key(
        child.score as int,
        child.visits as int,
        if t.nodes@[node].visits == 0 {
            1int
        } else {
            t.nodes@[node].visits as int
        },
    )
}

/// The statistics of every node other than the ones a pass touches are kept;
/// shape, states and links never change.
pub open spec fn keeps_structure(old_t: Tree, new_t: Tree) -> bool {
    &&& old_t.nodes@.len() <= new_t.nodes@.len()
    &&& (forall|i: int|
        0 <= i < old_t.nodes@.len() ==> {
            let o = #[trigger] old_t.nodes@[i];
            let n = new_t.nodes@[i];
            n.game_state == o.game_state && n.parent == o.parent
        })
}

/// Pick the child position with the highest selection key; ties go to the
/// first maximum in iteration order. The arg-max is a pure function of the
/// visit and score statistics, so repeated calls on the same tree agree.
pub fn get_expanded_leaf_index_all_visited(tree: &Tree, node: usize) -> (r: usize)
    requires
        tree_wf(*tree),
        (node as int) < tree.nodes@.len(),
        tree.nodes@[node as int].children@.len() > 0,
        forall|j: int|
            0 <= j < tree.nodes@[node as int].children@.len()
                ==> tree.nodes@[tree.nodes@[node as int].children@[j] as int].visits >= 1,
    ensures
        (r as int) < tree.nodes@[node as int].children@.len(),
        forall|j: int|
            0 <= j < tree.nodes@[node as int].children@.len() ==> spec_child_key(
                *tree,
                node as int,
                j,
            ) <= spec_child_key(*tree, node as int, r as int),
        forall|j: int|
            0 <= j < r ==> spec_child_key(*tree, node as int, j) < spec_child_key(
                *tree,
                node as int,
                r as int,
            ),
{
    let n_children = tree.nodes[node].children.len();
    let pv_raw = tree.nodes[node].visits;
    let pv: u64 = if pv_raw == 0 {
        1
    } else {
        pv_raw
    };
    let mut best: usize = 0;
    let mut best_key: u64 = child_key(tree, node, 0, pv);
    let mut j: usize = 1;
    while j < n_children
        invariant
            tree_wf(*tree),
            (node as int) < tree.nodes@.len(),
            n_children == tree.nodes@[node as int].children@.len(),
            forall|k: int|
                0 <= k < n_children
                    ==> tree.nodes@[tree.nodes@[node as int].children@[k] as int].visits >= 1,
            pv == (if tree.nodes@[node as int].visits == 0 {
                1u64
            } else {
                tree.nodes@[node as int].visits
            }),
            1 <= j <= n_children,
            (best as int) < j,
            best_key == spec_child_key(*tree, node as int, best as int),
            forall|k: int|
                0 <= k < j ==> spec_child_key(*tree, node as int, k) <= spec_child_key(
                    *tree,
                    node as int,
                    best as int,
                ),
            forall|k: int|
                0 <= k < best ==> spec_child_key(*tree, node as int, k) < spec_child_key(
                    *tree,
                    node as int,
                    best as int,
                ),
        decreases n_children - j,
    {
        let key = child_key(tree, node, j, pv);
        if key > best_key {
            best = j;
            best_key = key;
        }
        j = j + 1;
    }
    best
}

/// The selection key of one child, computed in fixed point.
fn child_key(tree: &Tree, node: usize, j: usize, pv: u64) -> (r: u64)
    requires
        tree_wf(*tree),
        (node as int) < tree.nodes@.len(),
        (j as int) < tree.nodes@[node as int].children@.len(),
        tree.nodes@[tree.nodes@[node as int].children@[j as int] as int].visits >= 1,
        pv == (if tree.nodes@[node as int].visits == 0 {
            1u64
        } else {
            tree.nodes@[node as int].visits
        }),
    ensures
        r == spec_child_key(*tree, node as int, j as int),
{
    let child_idx = tree.nodes[node].children[j];
    let child = &tree.nodes[child_idx];
    proof {
        assert(node_wf(tree.nodes@[child_idx as int], tree.nodes@.len() as int, child_idx as int));
        assert(node_wf(tree.nodes@[node as int], tree.nodes@.len() as int, node as int));
    }
    ucb1_key(child.score, child.visits, pv)
}

/// Pick a child position: an unvisited child first (chosen uniformly among
/// the unvisited ones), else the first position holding the highest
/// selection key.
pub fn get_expanded_leaf_index(tree: &Tree, node: usize, rng: &mut ChaCha8Rng) -> (r: usize)
    requires
        tree_wf(*tree),
        (node as int) < tree.nodes@.len(),
        tree.nodes@[node as int].children@.len() > 0,
    ensures
        (r as int) < tree.nodes@[node as int].children@.len(),
        (exists|j: int|
            0 <= j < tree.nodes@[node as int].children@.len()
                && tree.nodes@[#[trigger] tree.nodes@[node as int].children@[j] as int].visits
                == 0) ==> tree.nodes@[tree.nodes@[node as int].children@[r as int] as int].visits
            == 0,
        (forall|j: int|
            0 <= j < tree.nodes@[node as int].children@.len()
                ==> tree.nodes@[#[trigger] tree.nodes@[node as int].children@[j] as int].visits
                >= 1) ==> (forall|j: int|
            0 <= j < tree.nodes@[node as int].children@.len() ==> spec_child_key(
                *tree,
                node as int,
                j,
            ) <= spec_child_key(*tree, node as int, r as int)) && (forall|j: int|
            0 <= j < r ==> spec_child_key(*tree, node as int, j) < spec_child_key(
                *tree,
                node as int,
                r as int,
            )),
{
    let n_children = tree.nodes[node].children.len();
    let mut not_visited: Vec<usize> = Vec::new();
    let mut j: usize = 0;
    while j < n_children
        invariant
            tree_wf(*tree),
            (node as int) < tree.nodes@.len(),
            n_children == tree.nodes@[node as int].children@.len(),
            j <= n_children,
            forall|k: int|
                0 <= k < not_visited@.len() ==> (#[trigger] not_visited@[k] as int) < n_children,
            forall|k: int|
                0 <= k < not_visited@.len()
                    ==> tree.nodes@[tree.nodes@[node as int].children@[#[trigger] not_visited@[k] as int] as int].visits
                    == 0,
            forall|k: int|
                0 <= k < j && tree.nodes@[tree.nodes@[node as int].children@[k] as int].visits
                    == 0 ==> exists|m: int|
                    0 <= m < not_visited@.len() && #[trigger] not_visited@[m] == k,
        decreases n_children - j,
    {
        let ghost old_nv = not_visited@;
        let child_idx = tree.nodes[node].children[j];
        proof {
            assert(node_wf(tree.nodes@[node as int], tree.nodes@.len() as int, node as int));
        }
        if tree.nodes[child_idx].visits == 0 {
            not_visited.push(j);
        }
        proof {
            assert forall|k: int|
                0 <= k < j + 1 && tree.nodes@[tree.nodes@[node as int].children@[k] as int].visits
                    == 0 implies exists|m: int|
                    0 <= m < not_visited@.len() && #[trigger] not_visited@[m] == k by {
                if k == j {
                    assert(not_visited@[not_visited@.len() - 1] == k);
                } else {
                    let m = choose|m: int| 0 <= m < old_nv.len() && #[trigger] old_nv[m] == k;
                    assert(not_visited@[m] == k);
                }
            }
        }
        j = j + 1;
    }
    if not_visited.len() > 0 {
        let pick = rand_below(rng, not_visited.len());
        not_visited[pick]
    } else {
        proof {
            assert forall|k: int|
                0 <= k < tree.nodes@[node as int].children@.len()
                    implies tree.nodes@[tree.nodes@[node as int].children@[k] as int].visits
                >= 1 by {
                assert(node_wf(tree.nodes@[node as int], tree.nodes@.len() as int, node as int));
            }
        }
        get_expanded_leaf_index_all_visited(tree, node)
    }
}


/// The first position at or past `from` in the move order whose catalog
/// move is valid on the state, if any.
pub open spec fn spec_next_valid(
    order: Seq<usize>,
    from: int,
    s: crate::game_state::GameStateV,
    cards: Seq<crate::card::Card>,
) -> Option<int>
    decreases order.len() - from,
{
    if from < 0 || from >= order.len() {
        None
    } else if crate::moves::spec_is_valid(
        crate::all_moves::spec_move_at(order[from] as int),
        s,
        cards,
    ) {
        Some(from)
    } else {
        spec_next_valid(order, from + 1, s, cards)
    }
}

/// `spec_next_valid` names exactly the first valid position: the position
/// it names is valid, none between `from` and it is, and `None` means no
/// position from `from` on is valid.
pub proof fn lemma_next_valid_characterization(
    order: Seq<usize>,
    from: int,
    s: crate::game_state::GameStateV,
    cards: Seq<crate::card::Card>,
)
    requires
        0 <= from,
    ensures
        match spec_next_valid(order, from, s, cards) {
            Some(k) => from <= k < order.len() && crate::moves::spec_is_valid(
                crate::all_moves::spec_move_at(order[k] as int),
                s,
                cards,
            ) && (forall|j: int|
                from <= j < k ==> !crate::moves::spec_is_valid(
                    crate::all_moves::spec_move_at(#[trigger] order[j] as int),
                    s,
                    cards,
                )),
            None => forall|j: int|
                from <= j < order.len() ==> !crate::moves::spec_is_valid(
                    crate::all_moves::spec_move_at(#[trigger] order[j] as int),
                    s,
                    cards,
                ),
        },
    decreases order.len() - from,
{
    if from < order.len() {
        if !crate::moves::spec_is_valid(
            crate::all_moves::spec_move_at(order[from] as int),
            s,
            cards,
        ) {
            lemma_next_valid_characterization(order, from + 1, s, cards);
        }
    }
}

/// Lazily expand `current`: scan its move order from the cursor for the next
/// valid move, perform it, and append exactly one child holding the
/// resulting state. Returns the new child's arena index, or nothing when the
/// remaining order holds no valid move.
pub fn try_expand(
    tree: &mut Tree,
    current: usize,
    cards: &CardStorage,
    nobles: &AristocratStorage,
    rng: &mut ChaCha8Rng,
) -> (r: Option<usize>)
    requires
        tree_wf(*old(tree)),
        (current as int) < old(tree).nodes@.len(),
        cards@.len() == N_CARDS,
        nobles@.len() == N_ARISTOCRATS,
    ensures
        tree_wf(*final(tree)),
        keeps_structure(*old(tree), *final(tree)),
        final(tree).nodes@.len() <= old(tree).nodes@.len() + 1,
        forall|i: int|
            0 <= i < old(tree).nodes@.len() ==> (#[trigger] final(tree).nodes@[i]).visits == old(tree).nodes@[i].visits && final(tree).nodes@[i].score == old(tree).nodes@[i].score,
        forall|i: int|
            old(tree).nodes@.len() <= i < final(tree).nodes@.len() ==> (#[trigger] final(tree).nodes@[i]).visits == 0,
        ({
            let node0 = old(tree).nodes@[current as int];
            let found = spec_next_valid(
                node0.move_order@,
                node0.next_move_to_perform as int,
                node0.game_state@,
                cards@,
            );
            match r {
                Some(c) => {
                    &&& found is Some
                    &&& (c as int) == old(tree).nodes@.len()
                    &&& final(tree).nodes@.len() == old(tree).nodes@.len() + 1
                    &&& final(tree).nodes@[c as int].game_state@ == crate::moves::spec_step(
                        crate::all_moves::spec_move_at(
                            node0.move_order@[found->Some_0] as int,
                        ),
                        node0.game_state@,
                        cards@,
                        nobles@,
                    )
                    &&& final(tree).nodes@[c as int].parent == Some(current)
                    &&& final(tree).nodes@[c as int].visits == 0
                    &&& final(tree).nodes@[c as int].score == 0
                    &&& final(tree).nodes@[c as int].children@.len() == 0
                    &&& final(tree).nodes@[current as int].children@ == node0.children@.push(
                        c,
                    )
                    &&& final(tree).nodes@[current as int].next_move_to_perform as int
                        == found->Some_0 + 1
                    &&& final(tree).nodes@[current as int].move_order@ == node0.move_order@
                    &&& final(tree).nodes@[current as int].game_state == node0.game_state
                    &&& (forall|i: int|
                        0 <= i < old(tree).nodes@.len() && i != current
                            ==> #[trigger] final(tree).nodes@[i] == old(tree).nodes@[i])
                },
                None => {
                    &&& found is None
                    &&& final(tree).nodes@ == old(tree).nodes@.update(
                        current as int,
                        Node { next_move_to_perform: N_MOVES, ..node0 },
                    )
                },
            }
        }),
{
    let all = get_all_moves();
    let state_copy = tree.nodes[current].game_state.to_builder().build();
    proof {
        assert(node_wf(tree.nodes@[current as int], tree.nodes@.len() as int, current as int));
    }
    let mut i: usize = tree.nodes[current].next_move_to_perform;
    let mut found: Option<usize> = None;
    while i < N_MOVES && found.is_none()
        invariant
            tree_wf(*tree),
            tree.nodes@ == old(tree).nodes@,
            (current as int) < tree.nodes@.len(),
            cards@.len() == N_CARDS,
            nobles@.len() == N_ARISTOCRATS,
            i <= N_MOVES,
            all@.len() == N_MOVES,
            forall|k: int|
                0 <= k < N_MOVES ==> #[trigger] all@[k] == crate::all_moves::spec_move_at(k),
            forall|k: int| 0 <= k < N_MOVES ==> crate::moves::move_wf(#[trigger] all@[k]),
            state_copy@ == tree.nodes@[current as int].game_state@,
            i >= tree.nodes@[current as int].next_move_to_perform,
            found is None ==> forall|j: int|
                old(tree).nodes@[current as int].next_move_to_perform <= j < i
                    ==> !crate::moves::spec_is_valid(
                    crate::all_moves::spec_move_at(
                        #[trigger] old(tree).nodes@[current as int].move_order@[j] as int,
                    ),
                    old(tree).nodes@[current as int].game_state@,
                    cards@,
                ),
            found matches Some(mi) ==> forall|j: int|
                old(tree).nodes@[current as int].next_move_to_perform <= j < mi
                    ==> !crate::moves::spec_is_valid(
                    crate::all_moves::spec_move_at(
                        #[trigger] old(tree).nodes@[current as int].move_order@[j] as int,
                    ),
                    old(tree).nodes@[current as int].game_state@,
                    cards@,
                ),
            found matches Some(mi) ==> (mi as int) < N_MOVES && crate::moves::spec_is_valid(
                crate::all_moves::spec_move_at(
                    tree.nodes@[current as int].move_order@[mi as int] as int,
                ),
                state_copy@,
                cards@,
            ),
            found matches Some(mi) ==> i == mi,
        decreases N_MOVES - i + (if found is None {
            1int
        } else {
            0int
        }),
    {
        proof {
            assert(node_wf(tree.nodes@[current as int], tree.nodes@.len() as int, current as int));
        }
        let move_id = tree.nodes[current].move_order[i];
        let m = all[move_id];
        if m.is_valid(&state_copy, cards) {
            found = Some(i);
        } else {
            i = i + 1;
        }
    }
    match found {
        Some(pos) => {
            proof {
                assert(node_wf(
                    tree.nodes@[current as int],
                    tree.nodes@.len() as int,
                    current as int,
                ));
            }
            let move_id = tree.nodes[current].move_order[pos];
            let m = all[move_id];
            proof {
                let node0 = old(tree).nodes@[current as int];
                assert(node_wf(node0, old(tree).nodes@.len() as int, current as int));
                let from = node0.next_move_to_perform as int;
                lemma_next_valid_characterization(
                    node0.move_order@,
                    from,
                    node0.game_state@,
                    cards@,
                );
                match spec_next_valid(node0.move_order@, from, node0.game_state@, cards@) {
                    Some(k) => {
                        if k < pos {
                            assert(!crate::moves::spec_is_valid(
                                crate::all_moves::spec_move_at(node0.move_order@[k] as int),
                                node0.game_state@,
                                cards@,
                            ));
                        }
                        if k > pos {
                            assert(!crate::moves::spec_is_valid(
                                crate::all_moves::spec_move_at(node0.move_order@[pos as int] as int),
                                node0.game_state@,
                                cards@,
                            ));
                        }
                        assert(k == pos);
                    },
                    None => {
                        assert(false);
                    },
                }
            }
            let new_state = m.perform(&state_copy, cards, nobles);
            proof {
                assert(crate::moves::spec_step(
                    m,
                    old(tree).nodes@[current as int].game_state@,
                    cards@,
                    nobles@,
                ) == new_state@);
            }
            let new_idx = tree.nodes.len();
            let new_node = Node::new(new_state, Some(current), rng);
            let ghost pre = tree.nodes@;
            tree.nodes.push(new_node);
            let node_ref = &mut tree.nodes[current];
            node_ref.children.push(new_idx);
            node_ref.next_move_to_perform = pos + 1;
            proof {
                assert forall|k: int| 0 <= k < tree.nodes@.len() implies node_wf(
                    #[trigger] tree.nodes@[k],
                    tree.nodes@.len() as int,
                    k,
                ) by {
                    if k != current && k < pre.len() {
                        assert(tree.nodes@[k] == pre[k]);
                        assert(node_wf(pre[k], pre.len() as int, k));
                    }
                }
            }
            Some(new_idx)
        },
        None => {
            proof {
                let node0 = old(tree).nodes@[current as int];
                assert(node_wf(node0, old(tree).nodes@.len() as int, current as int));
                let from = node0.next_move_to_perform as int;
                lemma_next_valid_characterization(
                    node0.move_order@,
                    from,
                    node0.game_state@,
                    cards@,
                );
                match spec_next_valid(node0.move_order@, from, node0.game_state@, cards@) {
                    Some(k) => {
                        assert(from <= k < node0.move_order@.len());
                        assert(node0.move_order@.len() == N_MOVES);
                        assert(old(tree).nodes@[current as int].move_order@[k]
                            == node0.move_order@[k]);
                        assert(!crate::moves::spec_is_valid(
                            crate::all_moves::spec_move_at(
                                old(tree).nodes@[current as int].move_order@[k] as int,
                            ),
                            old(tree).nodes@[current as int].game_state@,
                            cards@,
                        ));
                        assert(false);
                    },
                    None => {},
                }
            }
            let node_ref = &mut tree.nodes[current];
            node_ref.next_move_to_perform = N_MOVES;
            proof {
                let node0 = old(tree).nodes@[current as int];
                assert(tree.nodes@[current as int] == Node {
                    next_move_to_perform: N_MOVES,
                    ..node0
                });
                assert(tree.nodes@ =~= old(tree).nodes@.update(
                    current as int,
                    Node { next_move_to_perform: N_MOVES, ..node0 },
                ));
            }
            proof {
                let pre = old(tree).nodes@;
                assert forall|k: int| 0 <= k < tree.nodes@.len() implies node_wf(
                    #[trigger] tree.nodes@[k],
                    tree.nodes@.len() as int,
                    k,
                ) by {
                    if k != current {
                        assert(tree.nodes@[k] == pre[k]);
                        assert(node_wf(pre[k], pre.len() as int, k));
                    }
                }
            }
            None
        },
    }
}

/// The tree statistics after one backpropagation pass from `idx` with the
/// signed outcome `delta`: the node gains one visit and the delta, and the
/// pass continues at the parent with the delta negated, ending at a
/// parentless node. Nothing else changes.
pub open spec fn spec_backpropagate(nodes: Seq<Node>, idx: int, delta: int) -> Seq<Node>
    decreases idx,
{
    if 0 <= idx < nodes.len() {
        let n = nodes[idx];
        let n2 = Node { visits: (n.visits + 1) as u64, score: (n.score + delta) as i64, ..n };
        let updated = nodes.update(idx, n2);
        match n.parent {
            Some(p) => if (p as int) < idx {
                spec_backpropagate(updated, p as int, -delta)
            } else {
                updated
            },
            None => updated,
        }
    } else {
        nodes
    }
}


/// A backpropagation pass changes only visit counts and scores: the states,
/// links, child lists and cursors of every node are kept.
pub proof fn lemma_backprop_shape(nodes: Seq<Node>, idx: int, delta: int)
    ensures
        spec_backpropagate(nodes, idx, delta).len() == nodes.len(),
        forall|i: int|
            0 <= i < nodes.len() ==> {
                let r = #[trigger] spec_backpropagate(nodes, idx, delta)[i];
                &&& r.game_state == nodes[i].game_state
                &&& r.parent == nodes[i].parent
                &&& r.children@ == nodes[i].children@
                &&& r.move_order@ == nodes[i].move_order@
                &&& r.next_move_to_perform == nodes[i].next_move_to_perform
            },
    decreases idx,
{
    if 0 <= idx < nodes.len() {
        let n = nodes[idx];
        let n2 = Node { visits: (n.visits + 1) as u64, score: (n.score + delta) as i64, ..n };
        let updated = nodes.update(idx, n2);
        match n.parent {
            Some(p) => {
                if (p as int) < idx {
                    lemma_backprop_shape(updated, p as int, -delta);
                }
            },
            None => {},
        }
    }
}

/// Walk from the terminal node up to the root, adding the outcome with
/// alternating sign and counting one visit per node on the path: exactly
/// the statistics `spec_backpropagate` describes. The alternating sign
/// encodes a two-player zero-sum reading of the outcome; for three or four
/// players no better credit assignment is defined, and the same convention
/// is applied as-is.
pub fn backpropagate(tree: &mut Tree, node: usize, is_win: i64)
    requires
        tree_wf(*old(tree)),
        (node as int) < old(tree).nodes@.len(),
        is_win == 1 || is_win == -1,
        forall|i: int|
            0 <= i < old(tree).nodes@.len() ==> (#[trigger] old(tree).nodes@[i]).visits
                < MAX_VISITS,
    ensures
        tree_wf(*final(tree)),
        final(tree).nodes@.len() == old(tree).nodes@.len(),
        keeps_structure(*old(tree), *final(tree)),
        forall|i: int|
            0 <= i < old(tree).nodes@.len() ==> old(tree).nodes@[i].visits <= (#[trigger] final(tree).nodes@[i]).visits <= old(tree).nodes@[i].visits + 1,
        final(tree).nodes@ == spec_backpropagate(old(tree).nodes@, node as int, is_win as int),
        forall|i: int|
            0 <= i < old(tree).nodes@.len() ==> (#[trigger] final(tree).nodes@[i]).children@
                == old(tree).nodes@[i].children@ && final(tree).nodes@[i].next_move_to_perform
                == old(tree).nodes@[i].next_move_to_perform && final(tree).nodes@[i].move_order@
                == old(tree).nodes@[i].move_order@,
{
    proof {
        lemma_backprop_shape(old(tree).nodes@, node as int, is_win as int);
    }
    let mut idx = node;
    let mut delta = is_win;
    let mut done = false;
    while !done
        invariant
            tree_wf(*tree),
            tree.nodes@.len() == old(tree).nodes@.len(),
            keeps_structure(*old(tree), *tree),
            (idx as int) < tree.nodes@.len(),
            delta == 1 || delta == -1,
            forall|i: int|
                0 <= i < old(tree).nodes@.len() ==> (#[trigger] old(tree).nodes@[i]).visits
                    < MAX_VISITS,
            forall|i: int|
                0 <= i < tree.nodes@.len() ==> old(tree).nodes@[i].visits <= (#[trigger] tree
                    .nodes@[i]).visits <= old(tree).nodes@[i].visits + 1,
            !done ==> forall|i: int|
                0 <= i <= idx ==> (#[trigger] tree.nodes@[i]).visits == old(tree).nodes@[i].visits
                    && tree.nodes@[i].score == old(tree).nodes@[i].score,
            spec_backpropagate(old(tree).nodes@, node as int, is_win as int) == (if done {
                tree.nodes@
            } else {
                spec_backpropagate(tree.nodes@, idx as int, delta as int)
            }),
        decreases (if done {
            0int
        } else {
            idx + 1
        }),
    {
        let ghost head = tree.nodes@;
        proof {
            assert(node_wf(tree.nodes@[idx as int], tree.nodes@.len() as int, idx as int));
        }
        let parent = tree.nodes[idx].parent;
        let node_ref = &mut tree.nodes[idx];
        node_ref.visits = node_ref.visits + 1;
        node_ref.score = node_ref.score + delta;
        proof {
            let n = head[idx as int];
            let n2 = Node {
                visits: (n.visits + 1) as u64,
                score: (n.score + delta) as i64,
                ..n
            };
            assert(tree.nodes@[idx as int] == n2);
            assert(tree.nodes@ =~= head.update(idx as int, n2));
        }
        proof {
            assert forall|k: int| 0 <= k < tree.nodes@.len() implies node_wf(
                #[trigger] tree.nodes@[k],
                tree.nodes@.len() as int,
                k,
            ) by {
                if k != idx {
                    assert(tree.nodes@[k] == head[k]);
                    assert(node_wf(head[k], head.len() as int, k));
                } else {
                    assert(0 <= k < old(tree).nodes@.len());
                    assert(old(tree).nodes@[k].visits < MAX_VISITS);
                    assert(head[k].visits == old(tree).nodes@[k].visits);
                    assert(node_wf(head[k], head.len() as int, k));
                }
            }
        }
        match parent {
            Some(p) => {
                idx = p;
                delta = -delta;
            },
            None => {
                done = true;
            },
        }
    }
}



/// Whether following parent links from `i` reaches `a`.
pub open spec fn spec_reaches(nodes: Seq<Node>, i: int, a: int) -> bool
    decreases i,
{
    i == a || (0 <= i < nodes.len() && match nodes[i].parent {
        Some(p) => (p as int) < i && spec_reaches(nodes, p as int, a),
        None => false,
    })
}

/// A reached node lies at or below the start of the chain.
proof fn lemma_reaches_le(nodes: Seq<Node>, i: int, a: int)
    requires
        spec_reaches(nodes, i, a),
    ensures
        a <= i,
    decreases i,
{
    if i != a {
        lemma_reaches_le(nodes, nodes[i].parent->Some_0 as int, a);
    }
}

/// Reachability depends only on the parent links at or below the start.
proof fn lemma_reaches_baseline(n1: Seq<Node>, n2: Seq<Node>, i: int, a: int)
    requires
        spec_reaches(n1, i, a),
        i < n2.len(),
        forall|q: int| 0 <= q <= i && q < n1.len() ==> (#[trigger] n2[q]).parent == n1[q].parent,
    ensures
        spec_reaches(n2, i, a),
    decreases i,
{
    if i != a {
        let p = n1[i].parent->Some_0 as int;
        lemma_reaches_baseline(n1, n2, p, a);
    }
}

/// The exact statistics change along the parent chain from `i`: one more
/// visit per node and an alternating-sign share of `delta`, up to a
/// parentless node.
pub open spec fn spec_path_updated(
    olds: Seq<Node>,
    news: Seq<Node>,
    i: int,
    delta: int,
) -> bool
    decreases i,
{
    &&& 0 <= i < olds.len()
    &&& i < news.len()
    &&& news[i].visits == olds[i].visits + 1
    &&& news[i].score == olds[i].score + delta
    &&& match olds[i].parent {
        Some(p) => (p as int) < i && spec_path_updated(olds, news, p as int, -delta),
        None => true,
    }
}

/// The path-update relation depends only on the statistics and links of the
/// baseline at or below the chain's start.
proof fn lemma_path_updated_baseline(o1: Seq<Node>, o2: Seq<Node>, news: Seq<Node>, i: int, delta: int)
    requires
        spec_path_updated(o1, news, i, delta),
        i < o2.len(),
        forall|q: int|
            0 <= q <= i && q < o1.len() ==> (#[trigger] o2[q]).parent == o1[q].parent
                && o2[q].visits == o1[q].visits && o2[q].score == o1[q].score,
    ensures
        spec_path_updated(o2, news, i, delta),
    decreases i,
{
    if 0 <= i < o1.len() {
        match o1[i].parent {
            Some(p) => {
                lemma_path_updated_baseline(o1, o2, news, p as int, -delta);
            },
            None => {},
        }
    }
}

/// A backpropagation pass never touches entries past its start.
proof fn lemma_backprop_preserves_above(nodes: Seq<Node>, idx: int, delta: int)
    ensures
        spec_backpropagate(nodes, idx, delta).len() == nodes.len(),
        forall|q: int|
            idx < q < nodes.len() ==> #[trigger] spec_backpropagate(nodes, idx, delta)[q]
                == nodes[q],
    decreases idx,
{
    if 0 <= idx < nodes.len() {
        let n = nodes[idx];
        let n2 = Node { visits: (n.visits + 1) as u64, score: (n.score + delta) as i64, ..n };
        let updated = nodes.update(idx, n2);
        match n.parent {
            Some(p) => {
                if (p as int) < idx {
                    lemma_backprop_preserves_above(updated, p as int, -delta);
                }
            },
            None => {},
        }
    }
}

/// A backpropagation pass from `i` performs exactly the path update along
/// `i`'s own chain.
proof fn lemma_backprop_self_path(nodes: Seq<Node>, i: int, delta: int)
    requires
        0 <= i < nodes.len(),
        delta == 1 || delta == -1,
        forall|k: int|
            0 <= k <= i && k < nodes.len() ==> match (#[trigger] nodes[k]).parent {
                Some(p) => (p as int) < k,
                None => true,
            },
        forall|k: int|
            0 <= k <= i && k < nodes.len() ==> (#[trigger] nodes[k]).visits < MAX_VISITS,
        forall|k: int|
            0 <= k <= i && k < nodes.len() ==> -(((#[trigger] nodes[k]).visits) as int)
                <= nodes[k].score <= nodes[k].visits as int,
    ensures
        spec_path_updated(nodes, spec_backpropagate(nodes, i, delta), i, delta),
    decreases i,
{
    let n = nodes[i];
    let n2 = Node { visits: (n.visits + 1) as u64, score: (n.score + delta) as i64, ..n };
    let updated = nodes.update(i, n2);
    let result = spec_backpropagate(nodes, i, delta);
    match n.parent {
        Some(p) => {
            lemma_backprop_preserves_above(updated, p as int, -delta);
            assert(result[i] == updated[i]);
            lemma_backprop_self_path(updated, p as int, -delta);
            lemma_path_updated_baseline(
                updated,
                nodes,
                spec_backpropagate(updated, p as int, -delta),
                p as int,
                -delta,
            );
        },
        None => {
            assert(result == updated);
        },
    }
}

/// A backpropagation pass from a node that reaches `target` performs the
/// path update through `target` with one of the two signed outcomes.
proof fn lemma_backprop_path(nodes: Seq<Node>, leaf: int, delta: int, target: int)
    requires
        0 <= leaf < nodes.len(),
        delta == 1 || delta == -1,
        spec_reaches(nodes, leaf, target),
        0 <= target,
        forall|k: int|
            0 <= k <= leaf && k < nodes.len() ==> match (#[trigger] nodes[k]).parent {
                Some(p) => (p as int) < k,
                None => true,
            },
        forall|k: int|
            0 <= k <= leaf && k < nodes.len() ==> (#[trigger] nodes[k]).visits < MAX_VISITS,
        forall|k: int|
            0 <= k <= leaf && k < nodes.len() ==> -(((#[trigger] nodes[k]).visits) as int)
                <= nodes[k].score <= nodes[k].visits as int,
    ensures
        exists|d: int|
            (d == delta || d == -delta) && spec_path_updated(
                nodes,
                spec_backpropagate(nodes, leaf, delta),
                target,
                d,
            ),
    decreases leaf,
{
    if leaf == target {
        lemma_backprop_self_path(nodes, leaf, delta);
        assert(spec_path_updated(nodes, spec_backpropagate(nodes, leaf, delta), target, delta));
    } else {
        let p = nodes[leaf].parent->Some_0 as int;
        let n = nodes[leaf];
        let n2 = Node { visits: (n.visits + 1) as u64, score: (n.score + delta) as i64, ..n };
        let updated = nodes.update(leaf, n2);
        lemma_reaches_le(nodes, leaf, target);
        lemma_reaches_baseline(nodes, updated, p, target);
        lemma_backprop_path(updated, p, -delta, target);
        let d = choose|d: int|
            (d == -delta || d == delta) && #[trigger] spec_path_updated(
                updated,
                spec_backpropagate(updated, p, -delta),
                target,
                d,
            );
        lemma_path_updated_baseline(
            updated,
            nodes,
            spec_backpropagate(updated, p, -delta),
            target,
            d,
        );
        assert(spec_backpropagate(nodes, leaf, delta) == spec_backpropagate(updated, p, -delta));
    }
}


/// A backpropagation step made mid-rollout performs the exact path update
/// through the rollout's start node, measured against the tree the rollout
/// began with: the pre-pass tree agrees with it on every old node's
/// statistics and links.
proof fn lemma_rollout_backprop_path(
    pre: Seq<Node>,
    post: Seq<Node>,
    base: Seq<Node>,
    leaf: int,
    outcome: int,
    start: int,
    base_len: int,
)
    requires
        0 <= leaf < pre.len(),
        outcome == 1 || outcome == -1,
        0 <= start <= leaf,
        start < base_len <= pre.len(),
        base.len() == base_len,
        spec_reaches(pre, leaf, start),
        post == spec_backpropagate(pre, leaf, outcome),
        forall|k: int|
            0 <= k < pre.len() ==> match (#[trigger] pre[k]).parent {
                Some(p) => (p as int) < k,
                None => true,
            },
        forall|k: int| 0 <= k < pre.len() ==> (#[trigger] pre[k]).visits < MAX_VISITS,
        forall|k: int|
            0 <= k < pre.len() ==> -(((#[trigger] pre[k]).visits) as int) <= pre[k].score
                <= pre[k].visits as int,
        forall|k: int|
            0 <= k < base_len ==> (#[trigger] pre[k]).parent == base[k].parent && pre[k].visits
                == base[k].visits && pre[k].score == base[k].score,
    ensures
        exists|d: int| (d == 1 || d == -1) && #[trigger] spec_path_updated(base, post, start, d),
{
    lemma_backprop_path(pre, leaf, outcome, start);
    let d = choose|d: int|
        (d == outcome || d == -outcome) && #[trigger] spec_path_updated(
            pre,
            spec_backpropagate(pre, leaf, outcome),
            start,
            d,
        );
    lemma_path_updated_baseline(pre, base, post, start, d);
    assert(spec_path_updated(base, post, start, d));
}

/// A start node with no children and no valid untried move: the defined
/// dead-end leaf of the search.
pub open spec fn spec_start_dead(n0: Node, cards: Seq<crate::card::Card>) -> bool {
    n0.children@.len() == 0 && spec_next_valid(
        n0.move_order@,
        n0.next_move_to_perform as int,
        n0.game_state@,
        cards,
    ) is None
}

/// Visit counts bounded by their pre-pass values stay below the cap.
proof fn lemma_visits_under_cap(olds: Seq<Node>, curs: Seq<Node>)
    requires
        forall|i: int| 0 <= i < olds.len() ==> (#[trigger] olds[i]).visits < MAX_VISITS,
        forall|i: int|
            0 <= i < curs.len() ==> (#[trigger] curs[i]).visits <= (if i < olds.len() {
                olds[i].visits as int
            } else {
                0int
            }),
    ensures
        forall|i: int| 0 <= i < curs.len() ==> (#[trigger] curs[i]).visits < MAX_VISITS,
{
}

/// One rollout: from `start`, repeatedly expand one untried move if any
/// remains, descend along the selection rule, and stop at a turn boundary
/// where the distinguished player is back to act and some player has
/// reached the winning threshold — a win exactly when the distinguished
/// player's total matches the maximum. A node with no children and no
/// expandable move is a dead end scored as a loss.
pub fn rollout(
    tree: &mut Tree,
    start: usize,
    cards: &CardStorage,
    nobles: &AristocratStorage,
    rng: &mut ChaCha8Rng,
)
    requires
        tree_wf(*old(tree)),
        (start as int) < old(tree).nodes@.len(),
        cards@.len() == N_CARDS,
        nobles@.len() == N_ARISTOCRATS,
        forall|i: int|
            0 <= i < old(tree).nodes@.len() ==> (#[trigger] old(tree).nodes@[i]).visits
                < MAX_VISITS,
    ensures
        tree_wf(*final(tree)),
        keeps_structure(*old(tree), *final(tree)),
        forall|i: int|
            0 <= i < old(tree).nodes@.len() ==> (#[trigger] final(tree).nodes@[i]).visits <= old(tree).nodes@[i].visits + 1,
        forall|i: int|
            old(tree).nodes@.len() <= i < final(tree).nodes@.len() ==> (#[trigger] final(tree).nodes@[i]).visits <= 1,
        forall|i: int|
            0 <= i < start ==> (#[trigger] final(tree).nodes@[i]).children@ == old(tree).nodes@[i].children@ && final(tree).nodes@[i].next_move_to_perform == old(tree).nodes@[i].next_move_to_perform && final(tree).nodes@[i].move_order@ == old(tree).nodes@[i].move_order@,
        exists|d: int|
            (d == 1 || d == -1) && #[trigger] spec_path_updated(
                old(tree).nodes@,
                final(tree).nodes@,
                start as int,
                d,
            ),
        spec_start_dead(old(tree).nodes@[start as int], cards@) ==> final(tree).nodes@
            == spec_backpropagate(
            old(tree).nodes@.update(
                start as int,
                Node { next_move_to_perform: N_MOVES, ..old(tree).nodes@[start as int] },
            ),
            start as int,
            -1,
        ),
{
    let mut current = start;
    let mut running = true;
    let mut fuel: u64 = 1_000_000;
    while running && fuel > 0
        invariant
            tree_wf(*tree),
            keeps_structure(*old(tree), *tree),
            (current as int) < tree.nodes@.len(),
            cards@.len() == N_CARDS,
            nobles@.len() == N_ARISTOCRATS,
            forall|i: int|
                0 <= i < old(tree).nodes@.len() ==> (#[trigger] old(tree).nodes@[i]).visits
                    < MAX_VISITS,
            running ==> forall|i: int|
                0 <= i < tree.nodes@.len() ==> (#[trigger] tree.nodes@[i]).visits == (if i < old(tree).nodes@.len() {
                    old(tree).nodes@[i].visits as int
                } else {
                    0int
                }) && tree.nodes@[i].score == (if i < old(tree).nodes@.len() {
                    old(tree).nodes@[i].score as int
                } else {
                    0int
                }),
            spec_reaches(tree.nodes@, current as int, start as int),
            !running ==> exists|d: int|
                (d == 1 || d == -1) && #[trigger] spec_path_updated(
                    old(tree).nodes@,
                    tree.nodes@,
                    start as int,
                    d,
                ),
            !running ==> (forall|i: int|
                0 <= i < old(tree).nodes@.len() ==> (#[trigger] tree.nodes@[i]).visits <= old(tree).nodes@[i].visits + 1) && (forall|i: int|
                old(tree).nodes@.len() <= i < tree.nodes@.len() ==> (#[trigger] tree
                    .nodes@[i]).visits <= 1),
            start <= current,
            fuel <= 1_000_000,
            (start as int) < old(tree).nodes@.len(),
            forall|i: int|
                0 <= i < start ==> (#[trigger] tree.nodes@[i]).children@ == old(tree).nodes@[i].children@ && tree.nodes@[i].next_move_to_perform == old(tree).nodes@[i].next_move_to_perform && tree.nodes@[i].move_order@ == old(tree).nodes@[i].move_order@,
            running && fuel == 1_000_000 ==> tree.nodes@ == old(tree).nodes@ && current == start,
            running && fuel < 1_000_000 ==> !spec_start_dead(
                old(tree).nodes@[start as int],
                cards@,
            ),
            !running ==> (spec_start_dead(old(tree).nodes@[start as int], cards@)
                ==> tree.nodes@ == spec_backpropagate(
                old(tree).nodes@.update(
                    start as int,
                    Node { next_move_to_perform: N_MOVES, ..old(tree).nodes@[start as int] },
                ),
                start as int,
                -1,
            )),
        decreases fuel,
    {
        let ghost first_iteration = fuel == 1_000_000;
        fuel = fuel - 1;
        let ghost pre_te = tree.nodes@;
        let _expanded = try_expand(tree, current, cards, nobles, rng);
        proof {
            lemma_reaches_baseline(pre_te, tree.nodes@, current as int, start as int);
        }
        if tree.nodes[current].children.len() == 0 {
            // Dead end: no child was ever produced and nothing is
            // expandable. Defined leaf outcome, scored as a loss.
            proof {
                lemma_visits_under_cap(old(tree).nodes@, tree.nodes@);
            }
            let ghost pre_backprop = tree.nodes@;
            backpropagate(tree, current, -1);
            proof {
                lemma_reaches_baseline(pre_backprop, tree.nodes@, current as int, start as int);
                lemma_rollout_backprop_path(
                    pre_backprop,
                    tree.nodes@,
                    old(tree).nodes@,
                    current as int,
                    -1,
                    start as int,
                    old(tree).nodes@.len() as int,
                );
                if spec_start_dead(old(tree).nodes@[start as int], cards@) {
                    assert(first_iteration);
                    assert(current == start);
                    assert(pre_backprop == old(tree).nodes@.update(
                        start as int,
                        Node {
                            next_move_to_perform: N_MOVES,
                            ..old(tree).nodes@[start as int]
                        },
                    ));
                    assert(tree.nodes@ == spec_backpropagate(pre_backprop, start as int, -1));
                }
            }
            running = false;
        } else {
            let pick = get_expanded_leaf_index(tree, current, rng);
            proof {
                assert(node_wf(
                    tree.nodes@[current as int],
                    tree.nodes@.len() as int,
                    current as int,
                ));
            }
            let prev_current = current;
            current = tree.nodes[prev_current].children[pick];
            proof {
                assert(tree.nodes@[current as int].parent == Some(prev_current));
                assert((prev_current as int) < current as int);
                assert(spec_reaches(tree.nodes@, prev_current as int, start as int));
                assert(spec_reaches(tree.nodes@, current as int, start as int));
            }
            let state_ref = &tree.nodes[current].game_state;
            proof {
                assert(node_wf(
                    tree.nodes@[current as int],
                    tree.nodes@.len() as int,
                    current as int,
                ));
            }
            if state_ref.get_current_player_index() == 0 {
                let maxp = max_points(state_ref);
                if maxp >= WINNING_POINTS {
                    proof {
                        assert(crate::game_state::wf_player(
                            state_ref@.players[state_ref@.current_player_index],
                            state_ref@.board,
                        ));
                    }
                    let my_points = state_ref.get_current_player().get_points();
                    let outcome: i64 = if my_points == maxp {
                        1
                    } else {
                        -1
                    };
                    proof {
                        lemma_visits_under_cap(old(tree).nodes@, tree.nodes@);
                    }
                    let ghost pre_bp2 = tree.nodes@;
                    backpropagate(tree, current, outcome);
                    proof {
                        lemma_reaches_baseline(pre_bp2, tree.nodes@, current as int, start as int);
                        lemma_rollout_backprop_path(
                            pre_bp2,
                            tree.nodes@,
                            old(tree).nodes@,
                            current as int,
                            outcome as int,
                            start as int,
                            old(tree).nodes@.len() as int,
                        );
                    }
                    running = false;
                }
            }
        }
    }
    if running {
        // The depth budget ran out before a turn boundary: score the walk
        // as a loss, like a dead end.
        proof {
            lemma_visits_under_cap(old(tree).nodes@, tree.nodes@);
        }
        let ghost pre_bp3 = tree.nodes@;
        backpropagate(tree, current, -1);
        proof {
            lemma_rollout_backprop_path(
                pre_bp3,
                tree.nodes@,
                old(tree).nodes@,
                current as int,
                -1,
                start as int,
                old(tree).nodes@.len() as int,
            );
        }
    }
}



/// The positions at or past `from` in the move order whose catalog moves
/// are valid on the state, in ascending order.
pub open spec fn spec_valid_positions(
    order: Seq<usize>,
    from: int,
    s: crate::game_state::GameStateV,
    cards: Seq<crate::card::Card>,
) -> Seq<int>
    decreases order.len() - from,
{
    if from < 0 || from >= order.len() {
        Seq::empty()
    } else {
        let rest = spec_valid_positions(order, from + 1, s, cards);
        if crate::moves::spec_is_valid(
            crate::all_moves::spec_move_at(order[from] as int),
            s,
            cards,
        ) {
            seq![from] + rest
        } else {
            rest
        }
    }
}

/// The first valid position splits the valid positions: it leads them, and
/// the rest lie past it; no first valid position means none at all.
pub proof fn lemma_valid_positions_split(
    order: Seq<usize>,
    from: int,
    s: crate::game_state::GameStateV,
    cards: Seq<crate::card::Card>,
)
    requires
        0 <= from,
    ensures
        match spec_next_valid(order, from, s, cards) {
            Some(k) => spec_valid_positions(order, from, s, cards) == seq![k]
                + spec_valid_positions(order, k + 1, s, cards),
            None => spec_valid_positions(order, from, s, cards) == Seq::<int>::empty(),
        },
    decreases order.len() - from,
{
    if 0 <= from < order.len() {
        if !crate::moves::spec_is_valid(
            crate::all_moves::spec_move_at(order[from] as int),
            s,
            cards,
        ) {
            lemma_valid_positions_split(order, from + 1, s, cards);
        }
    } else {
        assert(spec_valid_positions(order, from, s, cards) =~= Seq::<int>::empty());
    }
}

/// Expand every currently valid move of the root as a depth-1 child, giving
/// the search full first-ply breadth before any selection decision.
pub fn expand_root(
    tree: &mut Tree,
    cards: &CardStorage,
    nobles: &AristocratStorage,
    rng: &mut ChaCha8Rng,
)
    requires
        tree_wf(*old(tree)),
        old(tree).nodes@.len() >= 1,
        cards@.len() == N_CARDS,
        nobles@.len() == N_ARISTOCRATS,
    ensures
        tree_wf(*final(tree)),
        keeps_structure(*old(tree), *final(tree)),
        final(tree).nodes@.len() >= 1,
        forall|i: int|
            0 <= i < old(tree).nodes@.len() ==> (#[trigger] final(tree).nodes@[i]).visits == old(
                tree).nodes@[i].visits,
        forall|i: int|
            old(tree).nodes@.len() <= i < final(tree).nodes@.len() ==> (#[trigger] final(
                tree).nodes@[i]).visits == 0,
        ({
            let node0 = old(tree).nodes@[0];
            let ps = spec_valid_positions(
                node0.move_order@,
                node0.next_move_to_perform as int,
                node0.game_state@,
                cards@,
            );
            &&& final(tree).nodes@[0].next_move_to_perform == N_MOVES
            &&& final(tree).nodes@[0].game_state == node0.game_state
            &&& final(tree).nodes@[0].move_order@ == node0.move_order@
            &&& final(tree).nodes@[0].children@.len() == node0.children@.len() + ps.len()
            &&& final(tree).nodes@.len() == old(tree).nodes@.len() + ps.len()
            &&& (forall|k: int|
                0 <= k < node0.children@.len() ==> #[trigger] final(tree).nodes@[0].children@[k]
                    == node0.children@[k])
            &&& (forall|k: int|
                0 <= k < ps.len() ==> {
                    let c = #[trigger] final(tree).nodes@[0].children@[node0.children@.len() + k];
                    &&& (c as int) == old(tree).nodes@.len() + k
                    &&& final(tree).nodes@[c as int].game_state@ == crate::moves::spec_step(
                        crate::all_moves::spec_move_at(node0.move_order@[ps[k]] as int),
                        node0.game_state@,
                        cards@,
                        nobles@,
                    )
                })
        }),
{
    let ghost node0 = old(tree).nodes@[0];
    let ghost ps = spec_valid_positions(
        node0.move_order@,
        node0.next_move_to_perform as int,
        node0.game_state@,
        cards@,
    );
    let mut attempts: usize = 0;
    let mut done = false;
    while attempts < N_MOVES && !done
        invariant
            tree_wf(*tree),
            keeps_structure(*old(tree), *tree),
            tree.nodes@.len() >= 1,
            cards@.len() == N_CARDS,
            nobles@.len() == N_ARISTOCRATS,
            attempts <= N_MOVES,
            forall|i: int|
                0 <= i < old(tree).nodes@.len() ==> (#[trigger] tree.nodes@[i]).visits == old(
                    tree).nodes@[i].visits,
            forall|i: int|
                old(tree).nodes@.len() <= i < tree.nodes@.len() ==> (#[trigger] tree
                    .nodes@[i]).visits == 0,
            done ==> attempts == ps.len() && tree.nodes@[0].next_move_to_perform == N_MOVES,
            node0 == old(tree).nodes@[0],
            ps == spec_valid_positions(
                node0.move_order@,
                node0.next_move_to_perform as int,
                node0.game_state@,
                cards@,
            ),
            tree.nodes@[0].game_state == node0.game_state,
            tree.nodes@[0].move_order@ == node0.move_order@,
            attempts <= ps.len(),
            tree.nodes@[0].children@.len() == node0.children@.len() + attempts,
            tree.nodes@.len() == old(tree).nodes@.len() + attempts,
            tree.nodes@[0].next_move_to_perform as int >= attempts,
            forall|k: int|
                0 <= k < node0.children@.len() ==> #[trigger] tree.nodes@[0].children@[k]
                    == node0.children@[k],
            forall|k: int|
                0 <= k < attempts ==> {
                    let c = #[trigger] tree.nodes@[0].children@[node0.children@.len() + k];
                    &&& (c as int) == old(tree).nodes@.len() + k
                    &&& tree.nodes@[c as int].game_state@ == crate::moves::spec_step(
                        crate::all_moves::spec_move_at(node0.move_order@[ps[k]] as int),
                        node0.game_state@,
                        cards@,
                        nobles@,
                    )
                },
            spec_valid_positions(
                node0.move_order@,
                tree.nodes@[0].next_move_to_perform as int,
                node0.game_state@,
                cards@,
            ) == ps.skip(attempts as int),
        decreases N_MOVES - attempts + (if done {
            0int
        } else {
            1int
        }),
    {
        let ghost cursor_now = tree.nodes@[0].next_move_to_perform as int;
        let expanded = try_expand(tree, 0, cards, nobles, rng);
        proof {
            lemma_valid_positions_split(
                node0.move_order@,
                cursor_now,
                node0.game_state@,
                cards@,
            );
        }
        if expanded.is_none() {
            proof {
                assert(ps.skip(attempts as int) =~= Seq::<int>::empty());
                assert(ps.len() == attempts);
            }
            done = true;
        } else {
            proof {
                let remaining = ps.skip(attempts as int);
                let rest = spec_valid_positions(
                    node0.move_order@,
                    spec_next_valid(
                        node0.move_order@,
                        cursor_now,
                        node0.game_state@,
                        cards@,
                    )->Some_0 + 1,
                    node0.game_state@,
                    cards@,
                );
                let pos = spec_next_valid(
                    node0.move_order@,
                    cursor_now,
                    node0.game_state@,
                    cards@,
                )->Some_0;
                assert(remaining == seq![pos] + rest);
                assert(remaining[0] == pos);
                assert(ps[attempts as int] == pos);
                assert(remaining.len() == ps.len() - attempts);
                assert(attempts < ps.len());
                assert forall|j: int|
                    0 <= j < ps.len() - (attempts + 1) implies ps.skip(attempts + 1)[j] == rest[j] by {
                    assert(ps.skip(attempts + 1)[j] == ps[attempts + 1 + j]);
                    assert(remaining[j + 1] == ps[attempts + 1 + j]);
                    assert(remaining[j + 1] == (seq![pos] + rest)[j + 1]);
                }
                assert(ps.skip(attempts + 1).len() == rest.len());
                assert(ps.skip(attempts + 1) =~= rest);
            }
            attempts = attempts + 1;
        }
    }
    proof {
        if !done {
            // The attempt budget can only run out with the cursor spent,
            // leaving no valid position behind.
            assert(node_wf(tree.nodes@[0], tree.nodes@.len() as int, 0));
            assert(attempts == N_MOVES);
            assert(tree.nodes@[0].next_move_to_perform as int >= N_MOVES);
            assert(tree.nodes@[0].next_move_to_perform == N_MOVES);
            if attempts < ps.len() {
                assert(spec_valid_positions(
                    node0.move_order@,
                    N_MOVES as int,
                    node0.game_state@,
                    cards@,
                ) =~= Seq::<int>::empty());
                assert(ps.skip(attempts as int).len() == 0);
                assert(false);
            }
            assert(attempts >= ps.len());
            assert(ps.skip(attempts as int).len() == 0 || true);
            assert(attempts == ps.len() || attempts > ps.len());
            if attempts > ps.len() {
                assert(false);
            }
        }
        assert(attempts == ps.len());
        assert(node_wf(tree.nodes@[0], tree.nodes@.len() as int, 0));
        assert(tree.nodes@[0].next_move_to_perform == N_MOVES);
    }
}

/// The top-level search: build the root, expand its full first ply, visit
/// each depth-1 child once, then spend the configured rollout budget from
/// the selection rule at the root. The tree is returned for reporting; node
/// zero still holds the given root state.
pub fn run_search(
    root_state: GameState,
    n_rollouts: u32,
    cards: &CardStorage,
    nobles: &AristocratStorage,
    rng: &mut ChaCha8Rng,
) -> (r: Tree)
    requires
        crate::game_state::wf_state(root_state@),
        cards@.len() == N_CARDS,
        nobles@.len() == N_ARISTOCRATS,
    ensures
        tree_wf(r),
        r.nodes@.len() >= 1,
        r.nodes@[0].game_state == root_state,
        r.nodes@[0].visits as int == r.nodes@[0].children@.len() + (if r.nodes@[0].children@.len()
            > 0 {
            n_rollouts as int
        } else {
            0int
        }),
        ({
            let order = r.nodes@[0].move_order@;
            let ps = spec_valid_positions(order, 0, root_state@, cards@);
            &&& order.no_duplicates()
            &&& r.nodes@[0].children@.len() == ps.len()
            &&& (forall|k: int|
                0 <= k < ps.len()
                    ==> r.nodes@[#[trigger] r.nodes@[0].children@[k] as int].game_state@
                    == crate::moves::spec_step(
                    crate::all_moves::spec_move_at(order[ps[k]] as int),
                    root_state@,
                    cards@,
                    nobles@,
                ))
        }),
{
    let mut tree = Tree::new(root_state, rng);
    let ghost order = tree.nodes@[0].move_order@;
    let ghost pre = tree;
    expand_root(&mut tree, cards, nobles, rng);
    let ghost ps = spec_valid_positions(order, 0, root_state@, cards@);
    proof {
        assert(tree.nodes@[0].move_order@ == order);
        assert(pre.nodes@[0].children@.len() == 0);
        assert(pre.nodes@[0].next_move_to_perform == 0);
        assert(tree.nodes@[0].children@.len() == ps.len());
        assert forall|k: int|
            0 <= k < ps.len() implies (#[trigger] tree.nodes@[0].children@[k] as int) == 1 + k
            && tree.nodes@[tree.nodes@[0].children@[k] as int].game_state@
            == crate::moves::spec_step(
            crate::all_moves::spec_move_at(order[ps[k]] as int),
            root_state@,
            cards@,
            nobles@,
        ) by {
            assert(tree.nodes@[0].children@[pre.nodes@[0].children@.len() + k]
                == tree.nodes@[0].children@[k]);
        }
    }
    let n_children = tree.nodes[0].children.len();
    proof {
        assert(node_wf(tree.nodes@[0], tree.nodes@.len() as int, 0));
        assert(n_children <= N_MOVES);
    }
    let ghost base = tree;
    let mut c: usize = 0;
    while c < n_children
        invariant
            tree_wf(tree),
            keeps_structure(base, tree),
            tree.nodes@.len() >= 1,
            cards@.len() == N_CARDS,
            nobles@.len() == N_ARISTOCRATS,
            c <= n_children <= N_MOVES,
            base.nodes@.len() >= 1,
            tree.nodes@[0].game_state == base.nodes@[0].game_state,
            tree.nodes@[0].move_order@ == base.nodes@[0].move_order@,
            tree.nodes@[0].children@ == base.nodes@[0].children@,
            forall|i: int|
                0 <= i < base.nodes@.len() ==> (#[trigger] tree.nodes@[i]).game_state
                    == base.nodes@[i].game_state,
            forall|i: int|
                0 <= i < tree.nodes@.len() ==> (#[trigger] tree.nodes@[i]).visits <= c,
            tree.nodes@[0].visits == c,
            n_children == tree.nodes@[0].children@.len(),
        decreases n_children - c,
    {
        proof {
            assert(node_wf(tree.nodes@[0], tree.nodes@.len() as int, 0));
        }
        let child = tree.nodes[0].children[c];
        let ghost head = tree;
        proof {
            assert(child >= 1);
            assert(head.nodes@[child as int].parent == Some(0usize));
            assert forall|i: int|
                0 <= i < tree.nodes@.len() implies (#[trigger] tree.nodes@[i]).visits
                < MAX_VISITS by {}
        }
        rollout(&mut tree, child, cards, nobles, rng);
        proof {
            assert forall|i: int|
                0 <= i < base.nodes@.len() implies (#[trigger] tree.nodes@[i]).game_state
                == base.nodes@[i].game_state && tree.nodes@[i].parent == base.nodes@[i].parent by {
                assert(head.nodes@[i].game_state == base.nodes@[i].game_state);
                assert(tree.nodes@[i].game_state == head.nodes@[i].game_state);
            }
            let d = choose|d: int|
                (d == 1 || d == -1) && #[trigger] spec_path_updated(
                    head.nodes@,
                    tree.nodes@,
                    child as int,
                    d,
                );
            assert(spec_path_updated(head.nodes@, tree.nodes@, 0, -d));
            assert(tree.nodes@[0].visits == head.nodes@[0].visits + 1);
        }
        c = c + 1;
    }
    let mut k: u32 = 0;
    while k < n_rollouts && n_children > 0
        invariant
            tree_wf(tree),
            tree.nodes@.len() >= 1,
            cards@.len() == N_CARDS,
            nobles@.len() == N_ARISTOCRATS,
            k <= n_rollouts,
            keeps_structure(base, tree),
            base.nodes@.len() >= 1,
            tree.nodes@[0].game_state == base.nodes@[0].game_state,
            tree.nodes@[0].move_order@ == base.nodes@[0].move_order@,
            tree.nodes@[0].children@ == base.nodes@[0].children@,
            forall|i: int|
                0 <= i < base.nodes@.len() ==> (#[trigger] tree.nodes@[i]).game_state
                    == base.nodes@[i].game_state,
            forall|i: int|
                0 <= i < tree.nodes@.len() ==> (#[trigger] tree.nodes@[i]).visits <= 45 + k,
            n_children == tree.nodes@[0].children@.len(),
            tree.nodes@[0].visits as int == n_children + k,
            n_children == 0 ==> k == 0,
        decreases n_rollouts - k,
    {
        let pick = get_expanded_leaf_index(&tree, 0, rng);
        proof {
            assert(node_wf(tree.nodes@[0], tree.nodes@.len() as int, 0));
        }
        let child = tree.nodes[0].children[pick];
        let ghost head = tree;
        proof {
            assert(child >= 1);
            assert(head.nodes@[child as int].parent == Some(0usize));
            assert forall|i: int|
                0 <= i < tree.nodes@.len() implies (#[trigger] tree.nodes@[i]).visits
                < MAX_VISITS by {}
        }
        rollout(&mut tree, child, cards, nobles, rng);
        proof {
            assert forall|i: int|
                0 <= i < base.nodes@.len() implies (#[trigger] tree.nodes@[i]).game_state
                == base.nodes@[i].game_state && tree.nodes@[i].parent == base.nodes@[i].parent by {
                assert(head.nodes@[i].game_state == base.nodes@[i].game_state);
                assert(tree.nodes@[i].game_state == head.nodes@[i].game_state);
            }
            let d = choose|d: int|
                (d == 1 || d == -1) && #[trigger] spec_path_updated(
                    head.nodes@,
                    tree.nodes@,
                    child as int,
                    d,
                );
            assert(spec_path_updated(head.nodes@, tree.nodes@, 0, -d));
            assert(tree.nodes@[0].visits == head.nodes@[0].visits + 1);
        }
        k = k + 1;
    }
    proof {
        assert(tree.nodes@[0].game_state == base.nodes@[0].game_state);
        assert(tree.nodes@[0].move_order@ == order);
        assert(tree.nodes@[0].children@ == base.nodes@[0].children@);
        if n_children > 0 {
            assert(k == n_rollouts);
            assert(tree.nodes@[0].visits as int == n_children + n_rollouts);
        } else {
            assert(k == 0);
            assert(tree.nodes@[0].visits as int == 0);
        }
        assert forall|k: int| 0 <= k < ps.len() implies tree.nodes@[#[trigger] tree
            .nodes@[0].children@[k] as int].game_state@ == crate::moves::spec_step(
            crate::all_moves::spec_move_at(order[ps[k]] as int),
            root_state@,
            cards@,
            nobles@,
        ) by {
            assert(tree.nodes@[0].children@[k] == base.nodes@[0].children@[k]);
            assert((tree.nodes@[0].children@[k] as int) < base.nodes@.len());
        }
    }
    tree
}

/// Per root child: its visit count and accumulated signed score, in child
/// order. The win rate `(visits + score) / visits / 2` is derived by the
/// caller.
pub fn root_child_stats(tree: &Tree) -> (r: Vec<(u64, i64)>)
    requires
        tree_wf(*tree),
        tree.nodes@.len() >= 1,
    ensures
        r@.len() == tree.nodes@[0].children@.len(),
        forall|i: int|
            0 <= i < r@.len() ==> (#[trigger] r@[i]).0 == tree.nodes@[tree.nodes@[0].children@[i] as int].visits
                && r@[i].1 == tree.nodes@[tree.nodes@[0].children@[i] as int].score,
{
    let n = tree.nodes[0].children.len();
    let mut r: Vec<(u64, i64)> = Vec::new();
    let mut i: usize = 0;
    while i < n
        invariant
            tree_wf(*tree),
            tree.nodes@.len() >= 1,
            n == tree.nodes@[0].children@.len(),
            i <= n,
            r@.len() == i,
            forall|j: int|
                0 <= j < i ==> (#[trigger] r@[j]).0 == tree.nodes@[tree.nodes@[0].children@[j] as int].visits
                    && r@[j].1 == tree.nodes@[tree.nodes@[0].children@[j] as int].score,
        decreases n - i,
    {
        proof {
            assert(node_wf(tree.nodes@[0], tree.nodes@.len() as int, 0));
        }
        let child = tree.nodes[0].children[i];
        r.push((tree.nodes[child].visits, tree.nodes[child].score));
        i = i + 1;
    }
    r
}

} // verus!
