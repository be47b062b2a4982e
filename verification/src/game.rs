//! Session-level queries and the guarded move-application entry point.

use vstd::prelude::*;

use crate::all_moves::{get_all_moves, spec_move_at, N_MOVES};
use crate::aristocrat_storage::{AristocratStorage, N_ARISTOCRATS};
use crate::card_storage::{CardStorage, N_CARDS};
use crate::game_state::{wf_state, GameState, GameStateV};
use crate::moves::{spec_is_valid, spec_step};
use crate::player::{points_of, PlayerV};

verus! {

/// Points needed to end a game.
pub const WINNING_POINTS: u16 = 15;

/// The largest point total among the given players.
pub open spec fn max_points_upto(players: Seq<PlayerV>) -> int
    decreases players.len(),
{
    if players.len() == 0 {
        0
    } else {
        let m = max_points_upto(players.drop_last());
        let p = points_of(players.last());
        if p > m {
            p
        } else {
            m
        }
    }
}

/// The point total of every player, in seating order.
pub fn get_all_player_points(state: &GameState) -> (r: Vec<u16>)
    requires
        wf_state(state@),
    ensures
        r@.len() == state@.players.len(),
        forall|i: int| 0 <= i < r@.len() ==> #[trigger] r@[i] == points_of(state@.players[i]),
{
    let players = state.get_players();
    let mut r: Vec<u16> = Vec::new();
    let mut i: usize = 0;
    while i < players.len()
        invariant
            i <= players@.len(),
            wf_state(state@),
            players@.len() == state@.players.len(),
            forall|k: int| 0 <= k < players@.len() ==> #[trigger] players@[k]@ == state@.players[k],
            r@.len() == i,
            forall|k: int| 0 <= k < i ==> #[trigger] r@[k] == points_of(state@.players[k]),
        decreases players.len() - i,
    {
        proof {
            assert(crate::game_state::wf_player(state@.players[i as int], state@.board));
        }
        r.push(players[i].get_points());
        i = i + 1;
    }
    r
}

/// The largest point total in the state.
pub fn max_points(state: &GameState) -> (r: u16)
    requires
        wf_state(state@),
    ensures
        r == max_points_upto(state@.players),
{
    let points = get_all_player_points(state);
    let mut best: u16 = 0;
    let mut i: usize = 0;
    proof {
        assert(state@.players.take(0) =~= Seq::<PlayerV>::empty());
    }
    while i < points.len()
        invariant
            i <= points@.len(),
            points@.len() == state@.players.len(),
            forall|k: int|
                0 <= k < points@.len() ==> #[trigger] points@[k] == points_of(state@.players[k]),
            best == max_points_upto(state@.players.take(i as int)),
        decreases points.len() - i,
    {
        proof {
            assert(state@.players.take(i + 1).drop_last() =~= state@.players.take(i as int));
            assert(state@.players.take(i + 1).last() == state@.players[i as int]);
            lemma_max_points_nonneg(state@.players.take(i as int));
        }
        if points[i] > best {
            best = points[i];
        }
        i = i + 1;
    }
    proof {
        assert(state@.players.take(state@.players.len() as int) =~= state@.players);
    }
    best
}

/// The largest point total is never negative.
pub proof fn lemma_max_points_nonneg(players: Seq<PlayerV>)
    ensures
        max_points_upto(players) >= 0,
    decreases players.len(),
{
    if players.len() > 0 {
        lemma_max_points_nonneg(players.drop_last());
    }
}

/// Whether some player has reached the winning threshold.
pub fn is_game_over(state: &GameState) -> (r: bool)
    requires
        wf_state(state@),
    ensures
        r == (max_points_upto(state@.players) >= WINNING_POINTS),
{
    max_points(state) >= WINNING_POINTS
}

/// The first player, in seating order, holding the maximum point total, if
/// that total has reached the winning threshold.
pub fn get_winner(state: &GameState) -> (r: Option<usize>)
    requires
        wf_state(state@),
    ensures
        ({
            let m = max_points_upto(state@.players);
            match r {
                Some(i) => m >= WINNING_POINTS && (i as int) < state@.players.len() && points_of(
                    state@.players[i as int],
                ) == m && (forall|j: int|
                    0 <= j < i ==> points_of(#[trigger] state@.players[j]) != m),
                None => m < WINNING_POINTS,
            }
        }),
{
    let points = get_all_player_points(state);
    let m = max_points(state);
    if m < WINNING_POINTS {
        return None;
    }
    let mut i: usize = 0;
    while i < points.len()
        invariant
            i <= points@.len(),
            points@.len() == state@.players.len(),
            forall|k: int|
                0 <= k < points@.len() ==> #[trigger] points@[k] == points_of(state@.players[k]),
            m == max_points_upto(state@.players),
            m >= WINNING_POINTS,
            forall|j: int| 0 <= j < i ==> points_of(#[trigger] state@.players[j]) != m,
        decreases points.len() - i,
    {
        if points[i] == m {
            return Some(i);
        }
        i = i + 1;
    }
    proof {
        lemma_max_points_attained(state@.players);
        assert(false);
    }
    None
}

/// A non-empty set of players attains its maximum: point totals are sums of
/// non-negative card points and noble bonuses, so the zero base of the fold
/// never exceeds every player.
pub proof fn lemma_max_points_attained(players: Seq<PlayerV>)
    requires
        players.len() > 0,
    ensures
        exists|i: int|
            0 <= i < players.len() && points_of(#[trigger] players[i]) == max_points_upto(players),
    decreases players.len(),
{
    crate::player::lemma_deck_points_bounds(players.last().deck);
    assert(points_of(players.last()) >= 0);
    let rest = players.drop_last();
    let m = max_points_upto(players);
    let last_idx = players.len() - 1;
    if players.len() == 1 {
        assert(max_points_upto(rest) == 0);
        assert(points_of(players[0]) == m);
    } else {
        if points_of(players.last()) > max_points_upto(rest) {
            assert(points_of(players[last_idx as int]) == m);
        } else {
            lemma_max_points_attained(rest);
            let i = choose|i: int|
                0 <= i < rest.len() && points_of(#[trigger] rest[i]) == max_points_upto(rest);
            assert(players[i] == rest[i]);
            assert(points_of(players[i]) == m);
        }
    }
}

/// Why a requested move application was refused.
#[derive(Clone, Copy, Debug, PartialEq, Eq, Structural)]
pub enum GameError {
    /// The given index lies outside the move catalog.
    MoveIndexOutOfRange,
    /// The indexed move is not valid on the current state.
    InvalidMove,
}

/// The catalog indices of every move valid on the state, in ascending order.
pub fn get_valid_moves(state: &GameState, cards: &CardStorage) -> (r: Vec<usize>)
    requires
        wf_state(state@),
        cards@.len() == N_CARDS,
    ensures
        forall|k: int|
            0 <= k < r@.len() ==> (#[trigger] r@[k]) < N_MOVES && spec_is_valid(
                spec_move_at(r@[k] as int),
                state@,
                cards@,
            ),
        forall|mi: int|
            0 <= mi < N_MOVES && spec_is_valid(spec_move_at(mi), state@, cards@) ==> exists|k: int|
                0 <= k < r@.len() && #[trigger] r@[k] == mi,
        forall|k1: int, k2: int|
            #![trigger r@[k1], r@[k2]]
            0 <= k1 < k2 < r@.len() ==> r@[k1] < r@[k2],
{
    let all = get_all_moves();
    let mut r: Vec<usize> = Vec::new();
    let mut i: usize = 0;
    while i < all.len()
        invariant
            i <= all@.len(),
            all@.len() == N_MOVES,
            wf_state(state@),
            cards@.len() == N_CARDS,
            forall|k: int| 0 <= k < N_MOVES ==> #[trigger] all@[k] == spec_move_at(k),
            forall|k: int| 0 <= k < N_MOVES ==> crate::moves::move_wf(#[trigger] all@[k]),
            forall|k: int|
                0 <= k < r@.len() ==> (#[trigger] r@[k]) < N_MOVES && spec_is_valid(
                    spec_move_at(r@[k] as int),
                    state@,
                    cards@,
                ),
            forall|mi: int|
                0 <= mi < i && spec_is_valid(spec_move_at(mi), state@, cards@) ==> exists|k: int|
                    0 <= k < r@.len() && #[trigger] r@[k] == mi,
            forall|k: int| 0 <= k < r@.len() ==> (#[trigger] r@[k] as int) < i,
            forall|k1: int, k2: int|
                #![trigger r@[k1], r@[k2]]
                0 <= k1 < k2 < r@.len() ==> r@[k1] < r@[k2],
        decreases all.len() - i,
    {
        let ghost old_r = r@;
        let valid = all[i].is_valid(state, cards);
        if valid {
            r.push(i);
        }
        proof {
            assert forall|mi: int|
                0 <= mi < i + 1 && spec_is_valid(spec_move_at(mi), state@, cards@)
                    implies exists|k: int| 0 <= k < r@.len() && #[trigger] r@[k] == mi by {
                if mi == i {
                    assert(r@[r@.len() - 1] == i);
                } else {
                    let k = choose|k: int| 0 <= k < old_r.len() && #[trigger] old_r[k] == mi;
                    assert(r@[k] == mi);
                }
            }
        }
        i = i + 1;
    }
    r
}

/// Apply the catalog move at `move_index` to the state: succeeds exactly
/// when the index is in range and the move is valid, yielding the successor
/// state; otherwise reports which of the two checks failed.
pub fn apply_move(
    state: &GameState,
    move_index: usize,
    cards: &CardStorage,
    nobles: &AristocratStorage,
) -> (r: Result<GameState, GameError>)
    requires
        wf_state(state@),
        cards@.len() == N_CARDS,
        nobles@.len() == N_ARISTOCRATS,
    ensures
        r is Ok <==> (move_index < N_MOVES && spec_is_valid(
            spec_move_at(move_index as int),
            state@,
            cards@,
        )),
        r matches Ok(s2) ==> s2@ == spec_step(
            spec_move_at(move_index as int),
            state@,
            cards@,
            nobles@,
        ) && wf_state(s2@),
        r matches Err(e) ==> e == (if move_index >= N_MOVES {
            GameError::MoveIndexOutOfRange
        } else {
            GameError::InvalidMove
        }),
{
    let all = get_all_moves();
    if move_index >= all.len() {
        return Err(GameError::MoveIndexOutOfRange);
    }
    let m = all[move_index];
    if !m.is_valid(state, cards) {
        return Err(GameError::InvalidMove);
    }
    Ok(m.perform(state, cards, nobles))
}

} // verus!
