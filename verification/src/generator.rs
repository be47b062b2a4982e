//! Random self-play and labeled training-position generation.

use vstd::prelude::*;

use rand_chacha::ChaCha8Rng;

use crate::aristocrat_storage::{AristocratStorage, N_ARISTOCRATS};
use crate::card_storage::{CardStorage, N_CARDS};
use crate::encoder::{
    game_state_to_bytes, spec_players_bytes, spec_rows_bytes_upto, StateEncoder,
};
use crate::eval::{evaluate_player_zero_state, get_last_player_points, spec_evaluate, spec_label};
use crate::game::{apply_move, get_valid_moves, WINNING_POINTS};
use crate::game_state::{create_initial_game_state, wf_state, GameState, GameStateV};
use crate::moves::{move_wf, spec_is_valid, spec_step, Move};
use crate::player::points_of;
use crate::rng::rand_below;

verus! {

/// Adjacent recorded states are joined by one validly performed move.
pub open spec fn spec_chained(
    h: Seq<GameState>,
    cards: Seq<crate::card::Card>,
    nobles: Seq<crate::aristocrat::Aristocrat>,
) -> bool {
    forall|i: int|
        0 <= i < h.len() - 1 ==> exists|mv: Move|
            move_wf(mv) && spec_is_valid(mv, #[trigger] h[i]@, cards) && h[i + 1]@ == spec_step(
                mv,
                h[i]@,
                cards,
                nobles,
            )
}

/// The cap on the recorded move-count bytes: the move limit, clamped to a
/// byte and floored at zero.
pub open spec fn spec_clamped_limit(n_moves_limit: int) -> int {
    if n_moves_limit < 0 {
        0
    } else if n_moves_limit > 255 {
        255
    } else {
        n_moves_limit
    }
}

/// A result row is honest: its bytes serialize a well-formed position with
/// the distinguished player to act, and its label is that position's
/// evaluation verdict.
pub open spec fn spec_row_labeled<E: StateEncoder>(
    bytes: Seq<u8>,
    label: i8,
    enc: E,
    n_players: int,
    max_depth: int,
) -> bool {
    exists|ps: GameStateV, cv: Seq<crate::card::Card>, nv: Seq<crate::aristocrat::Aristocrat>|
        {
            &&& wf_state(ps)
            &&& ps.players.len() == n_players
            &&& ps.current_player_index == 0
            &&& cv.len() == N_CARDS
            &&& nv.len() == N_ARISTOCRATS
            &&& bytes == spec_players_bytes(ps, n_players) + spec_rows_bytes_upto(
                enc,
                ps.board.rows,
                cv,
                3,
            )
            &&& label as int == spec_label(
                #[trigger] spec_evaluate(ps, n_players, max_depth, cv, nv),
            )
        }
}

/// The point total of the player who just finished a turn in `s`.
pub open spec fn spec_last_player_points(s: GameStateV) -> int {
    points_of(s.players[(s.current_player_index + s.players.len() - 1) % (s.players.len() as int)])
}

/// Play one random game to the winning threshold, recording every state
/// before each move into `state_history`. A dead end restarts the game from
/// scratch; a spent step budget gives up and returns nothing.
pub fn play_game(
    n_players: u8,
    rng: &mut ChaCha8Rng,
    state_history: &mut Vec<GameState>,
    cards: &CardStorage,
    nobles: &AristocratStorage,
) -> (r: Option<(u32, GameState)>)
    requires
        2 <= n_players <= 4,
        cards@.len() == N_CARDS,
        nobles@.len() == N_ARISTOCRATS,
    ensures
        r matches Some(pair) ==> wf_state(pair.1@) && pair.1@.players.len() == n_players
            && spec_last_player_points(pair.1@) >= WINNING_POINTS,
        forall|i: int|
            0 <= i < final(state_history)@.len() ==> wf_state(
                (#[trigger] final(state_history)@[i])@,
            ) && final(state_history)@[i]@.players.len() == n_players,
        spec_chained(final(state_history)@, cards@, nobles@),
        r matches Some(pair) ==> (final(state_history)@.len() > 0 ==> exists|mv: Move|
            move_wf(mv) && spec_is_valid(
                mv,
                final(state_history)@[final(state_history)@.len() - 1]@,
                cards@,
            ) && pair.1@ == spec_step(
                mv,
                final(state_history)@[final(state_history)@.len() - 1]@,
                cards@,
                nobles@,
            )),
{
    state_history.clear();
    let mut current_state = create_initial_game_state(n_players, rng);
    let mut move_num: u32 = 0;
    let mut fuel: u32 = 1_000_000;
    while fuel > 0
        invariant
            2 <= n_players <= 4,
            cards@.len() == N_CARDS,
            nobles@.len() == N_ARISTOCRATS,
            wf_state(current_state@),
            current_state@.players.len() == n_players,
            forall|i: int|
                0 <= i < state_history@.len() ==> wf_state((#[trigger] state_history@[i])@)
                    && state_history@[i]@.players.len() == n_players,
            spec_chained(state_history@, cards@, nobles@),
            state_history@.len() > 0 ==> exists|mv: Move|
                move_wf(mv) && spec_is_valid(
                    mv,
                    state_history@[state_history@.len() - 1]@,
                    cards@,
                ) && current_state@ == spec_step(
                    mv,
                    state_history@[state_history@.len() - 1]@,
                    cards@,
                    nobles@,
                ),
        decreases fuel,
    {
        fuel = fuel - 1;
        if move_num == u32::MAX {
            return None;
        }
        move_num = move_num + 1;
        let valid_move_indices = get_valid_moves(&current_state, cards);
        if valid_move_indices.len() == 0 {
            state_history.clear();
            current_state = create_initial_game_state(n_players, rng);
            move_num = 0;
            continue ;
        }
        let pick = rand_below(rng, valid_move_indices.len());
        let chosen = valid_move_indices[pick];
        let ghost prev_history = state_history@;
        state_history.push(current_state.duplicate());
        let applied = apply_move(&current_state, chosen, cards, nobles);
        let ghost before = current_state@;
        current_state = match applied {
            Ok(s) => s,
            Err(_) => {
                proof {
                    assert(false);
                }
                current_state
            },
        };
        proof {
            let h = state_history@;
            let last = h.len() - 1;
            let mv = crate::all_moves::spec_move_at(chosen as int);
            assert(h[last]@ == before);
            assert(move_wf(mv) && spec_is_valid(mv, h[last]@, cards@) && current_state@
                == spec_step(mv, h[last]@, cards@, nobles@));
            assert forall|i: int| 0 <= i < h.len() - 1 implies exists|m2: Move|
                move_wf(m2) && spec_is_valid(m2, #[trigger] h[i]@, cards@) && h[i + 1]@
                    == spec_step(m2, h[i]@, cards@, nobles@) by {
                if i < prev_history.len() - 1 {
                    assert(h[i] == prev_history[i]);
                    assert(h[i + 1] == prev_history[i + 1]);
                    let m2 = choose|m2: Move|
                        move_wf(m2) && spec_is_valid(m2, prev_history[i]@, cards@)
                            && prev_history[i + 1]@ == spec_step(
                            m2,
                            prev_history[i]@,
                            cards@,
                            nobles@,
                        );
                    assert(move_wf(m2) && spec_is_valid(m2, h[i]@, cards@) && h[i + 1]@
                        == spec_step(m2, h[i]@, cards@, nobles@));
                } else {
                    // The new last link: the freshly recorded state steps to
                    // the state the chosen move produced, which is now held
                    // by the successor of the previous recording.
                    assert(i == prev_history.len() - 1);
                    let m2 = choose|m2: Move|
                        move_wf(m2) && spec_is_valid(m2, prev_history[i]@, cards@)
                            && before == spec_step(m2, prev_history[i]@, cards@, nobles@);
                    assert(h[i] == prev_history[i]);
                    assert(h[i + 1]@ == before);
                    assert(move_wf(m2) && spec_is_valid(m2, h[i]@, cards@) && h[i + 1]@
                        == spec_step(m2, h[i]@, cards@, nobles@));
                }
            }
        }
        if get_last_player_points(&current_state, n_players) >= WINNING_POINTS {
            return Some((move_num, current_state));
        }
    }
    None
}

/// Generate labeled training positions: play random games to completion,
/// keep those within the move limit, label the last position where the
/// distinguished player was to act, and serialize it under the chosen
/// encoder. The three result columns line up one-to-one; fewer than the
/// requested number of games come back only if the retry budget is spent.
pub fn generate_synthetic_data<E: StateEncoder>(
    num_games: u32,
    n_players: u8,
    rng: &mut ChaCha8Rng,
    n_moves_limit: i32,
    max_depth: u8,
    encoder: &E,
) -> (r: (Vec<Vec<u8>>, Vec<i8>, Vec<u8>))
    requires
        2 <= n_players <= 4,
    ensures
        r.0@.len() == r.1@.len(),
        r.0@.len() == r.2@.len(),
        r.0@.len() <= num_games,
        forall|i: int| 0 <= i < r.1@.len() ==> -1 <= #[trigger] r.1@[i] <= 1,
        forall|i: int|
            0 <= i < r.2@.len() ==> (#[trigger] r.2@[i] as int) <= spec_clamped_limit(
                n_moves_limit as int,
            ),
        forall|i: int|
            0 <= i < r.0@.len() ==> spec_row_labeled(
                (#[trigger] r.0@[i])@,
                r.1@[i],
                *encoder,
                n_players as int,
                max_depth as int,
            ),
{
    let cards = CardStorage::new();
    let nobles = AristocratStorage::new();
    let mut all_states: Vec<Vec<u8>> = Vec::new();
    let mut all_labels: Vec<i8> = Vec::new();
    let mut all_n_moves: Vec<u8> = Vec::new();
    let mut games_generated: u32 = 0;
    let mut attempts: u64 = (num_games as u64) * 100 + 100;
    let mut state_history: Vec<GameState> = Vec::new();
    while games_generated < num_games && attempts > 0
        invariant
            2 <= n_players <= 4,
            cards@.len() == N_CARDS,
            nobles@.len() == N_ARISTOCRATS,
            all_states@.len() == all_labels@.len(),
            all_states@.len() == all_n_moves@.len(),
            all_states@.len() == games_generated,
            games_generated <= num_games,
            forall|i: int| 0 <= i < all_labels@.len() ==> -1 <= #[trigger] all_labels@[i] <= 1,
            forall|i: int|
                0 <= i < all_n_moves@.len() ==> (#[trigger] all_n_moves@[i] as int)
                    <= spec_clamped_limit(n_moves_limit as int),
            forall|i: int|
                0 <= i < all_states@.len() ==> spec_row_labeled(
                    (#[trigger] all_states@[i])@,
                    all_labels@[i],
                    *encoder,
                    n_players as int,
                    max_depth as int,
                ),
        decreases attempts,
    {
        attempts = attempts - 1;
        let played = play_game(n_players, rng, &mut state_history, &cards, &nobles);
        let (n_moves, _final_state) = match played {
            Some(pair) => pair,
            None => {
                continue ;
            },
        };
        if n_moves_limit >= 0 && n_moves > n_moves_limit as u32 {
            continue ;
        }
        if n_moves_limit < 0 {
            continue ;
        }
        // The last recorded position where the distinguished player was to
        // act.
        let mut found: Option<usize> = None;
        let mut back: usize = state_history.len();
        while back > 0
            invariant
                back <= state_history@.len(),
                forall|i: int|
                    0 <= i < state_history@.len() ==> wf_state((#[trigger] state_history@[i])@)
                        && state_history@[i]@.players.len() == n_players,
                found matches Some(fi) ==> (fi as int) < state_history@.len()
                    && state_history@[fi as int]@.current_player_index == 0,
            decreases back,
        {
            back = back - 1;
            if state_history[back].get_current_player_index() == 0 {
                found = Some(back);
                break ;
            }
        }

        let player_zero_index = match found {
            Some(fi) => fi,
            None => {
                continue ;
            },
        };
        let player_zero_state = &state_history[player_zero_index];
        let evaluation_result = evaluate_player_zero_state(
            player_zero_state,
            n_players,
            max_depth,
            &cards,
            &nobles,
        );
        let state_bytes = game_state_to_bytes(player_zero_state, encoder, &cards);
        let ghost row_bytes = state_bytes@;
        let ghost ps_v = player_zero_state@;
        all_states.push(state_bytes);
        let label = evaluation_result.to_label();
        all_labels.push(label);
        proof {
            let idx = all_states@.len() - 1;
            assert(all_states@[idx]@ == row_bytes);
            assert(all_labels@[idx] == label);
            assert(spec_row_labeled(
                row_bytes,
                label,
                *encoder,
                n_players as int,
                max_depth as int,
            )) by {
                assert({
                    &&& wf_state(ps_v)
                    &&& ps_v.players.len() == n_players
                    &&& ps_v.current_player_index == 0
                    &&& cards@.len() == N_CARDS
                    &&& nobles@.len() == N_ARISTOCRATS
                    &&& row_bytes == spec_players_bytes(ps_v, n_players as int)
                        + spec_rows_bytes_upto(*encoder, ps_v.board.rows, cards@, 3)
                    &&& label as int == spec_label(spec_evaluate(
                        ps_v,
                        n_players as int,
                        max_depth as int,
                        cards@,
                        nobles@,
                    ))
                });
            }
        }
        let n_moves_byte: u8 = if n_moves > 255 {
            255
        } else {
            n_moves as u8
        };
        all_n_moves.push(n_moves_byte);
        games_generated = games_generated + 1;
    }
    (all_states, all_labels, all_n_moves)
}

} // verus!
