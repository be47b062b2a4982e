//! Exhaustive short-horizon evaluation of a position from the distinguished
//! player's seat: label a state winning, losing, or drawn by exploring every
//! opponent reply up to a depth budget.

use vstd::prelude::*;

use crate::all_moves::{get_all_moves, spec_move_at, N_MOVES};
use crate::aristocrat_storage::{AristocratStorage, N_ARISTOCRATS};
use crate::card_storage::{CardStorage, N_CARDS};
use crate::game::WINNING_POINTS;
use crate::game_state::{wf_state, GameState, GameStateV};
use crate::moves::{spec_is_valid, spec_step};
use crate::player::{deck_production, points_of, Player};

verus! {

/// The verdict of an evaluation.
#[derive(Debug, Clone, Copy, PartialEq, Eq, Structural)]
pub enum EvaluationResult {
    Winning,
    Losing,
    Draw,
}

pub open spec fn spec_label(r: EvaluationResult) -> int {
    match r {
        EvaluationResult::Winning => 1,
        EvaluationResult::Losing => -1,
        EvaluationResult::Draw => 0,
    }
}

impl EvaluationResult {
    /// Map this verdict to an integer: win `1`, loss `-1`, draw `0`.
    pub fn to_label(self) -> (r: i8)
        ensures
            r as int == spec_label(self),
    {
        match self {
            EvaluationResult::Winning => 1,
            EvaluationResult::Losing => -1,
            EvaluationResult::Draw => 0,
        }
    }
}

/// The seat of the player who just finished a turn: one before the current
/// index, modulo the player count.
pub fn get_last_player_index(game_state: &GameState, n_players: u8) -> (r: usize)
    requires
        wf_state(game_state@),
        n_players as int == game_state@.players.len(),
    ensures
        r as int == (game_state@.current_player_index + game_state@.players.len() - 1) % (
        game_state@.players.len() as int),
        (r as int) < game_state@.players.len(),
{
    (game_state.get_current_player_index() + n_players as usize - 1) % n_players as usize
}

/// The player who just finished a turn.
pub fn get_last_player<'a>(game_state: &'a GameState, n_players: u8) -> (r: &'a Player)
    requires
        wf_state(game_state@),
        n_players as int == game_state@.players.len(),
    ensures
        r@ == game_state@.players[(game_state@.current_player_index + game_state@.players.len()
            - 1) % (game_state@.players.len() as int)],
{
    let idx = get_last_player_index(game_state, n_players);
    &game_state.get_players()[idx]
}

/// The point total of the player who just finished a turn.
pub fn get_last_player_points(game_state: &GameState, n_players: u8) -> (r: u16)
    requires
        wf_state(game_state@),
        n_players as int == game_state@.players.len(),
    ensures
        r == points_of(
            game_state@.players[(game_state@.current_player_index + game_state@.players.len() - 1)
                % (game_state@.players.len() as int)],
        ),
{
    let p = get_last_player(game_state, n_players);
    proof {
        assert(crate::game_state::wf_player(p@, game_state@.board));
    }
    p.get_points()
}

/// The ordering value of the player who just finished a turn: the point
/// total first, then the fewer built cards the better.
pub fn get_value(state: &GameState, n_players: u8) -> (r: (u16, i16))
    requires
        wf_state(state@),
        n_players as int == state@.players.len(),
    ensures
        ({
            let p = state@.players[(state@.current_player_index + state@.players.len() - 1) % (
            state@.players.len() as int)];
            r.0 == points_of(p) && r.1 as int == -(deck_production(p.deck).total())
        }),
{
    let p = get_last_player(state, n_players);
    proof {
        assert(crate::game_state::wf_player(p@, state@.board));
        crate::player::lemma_deck_production_bounds(p@.deck);
    }
    let points = p.get_points();
    let prod = p.get_production();
    let n_cards = prod.sum();
    proof {
        assert(prod@.sum() == deck_production(p@.deck).total());
    }
    (points, -(n_cards as i16))
}

/// An element-wise copy of a list of states.
pub fn copy_states(v: &Vec<GameState>) -> (r: Vec<GameState>)
    ensures
        r@.len() == v@.len(),
        forall|i: int| 0 <= i < v@.len() ==> #[trigger] r@[i]@ == v@[i]@,
{
    let mut r: Vec<GameState> = Vec::new();
    let mut i: usize = 0;
    while i < v.len()
        invariant
            i <= v@.len(),
            r@.len() == i,
            forall|k: int| 0 <= k < i ==> #[trigger] r@[k]@ == v@[k]@,
        decreases v.len() - i,
    {
        r.push(v[i].duplicate());
        i = i + 1;
    }
    r
}


/// The successor states of the catalog moves from `mi` on that are valid on
/// `s`, in catalog order.
pub open spec fn spec_children_from(
    s: GameStateV,
    mi: int,
    cards: Seq<crate::card::Card>,
    nobles: Seq<crate::aristocrat::Aristocrat>,
) -> Seq<GameStateV>
    decreases N_MOVES - mi,
{
    if mi < 0 || mi >= N_MOVES {
        Seq::empty()
    } else {
        let rest = spec_children_from(s, mi + 1, cards, nobles);
        if spec_is_valid(spec_move_at(mi), s, cards) {
            seq![spec_step(spec_move_at(mi), s, cards, nobles)] + rest
        } else {
            rest
        }
    }
}

/// All one-move extensions of `trace` over base `s0`: per catalog move from
/// `mi` on that is valid on the trace's tip (the base when the trace is
/// empty), the trace with the stepped state appended, in catalog order.
pub open spec fn spec_extended_traces(
    s0: GameStateV,
    trace: Seq<GameStateV>,
    mi: int,
    cards: Seq<crate::card::Card>,
    nobles: Seq<crate::aristocrat::Aristocrat>,
) -> Seq<Seq<GameStateV>>
    decreases N_MOVES - mi,
{
    if mi < 0 || mi >= N_MOVES {
        Seq::empty()
    } else {
        let cur = if trace.len() == 0 {
            s0
        } else {
            trace.last()
        };
        let rest = spec_extended_traces(s0, trace, mi + 1, cards, nobles);
        if spec_is_valid(spec_move_at(mi), cur, cards) {
            seq![trace.push(spec_step(spec_move_at(mi), cur, cards, nobles))] + rest
        } else {
            rest
        }
    }
}

/// One extension round over a list of traces, in list order.
pub open spec fn spec_extend_round(
    s0: GameStateV,
    traces: Seq<Seq<GameStateV>>,
    cards: Seq<crate::card::Card>,
    nobles: Seq<crate::aristocrat::Aristocrat>,
) -> Seq<Seq<GameStateV>>
    decreases traces.len(),
{
    if traces.len() == 0 {
        Seq::empty()
    } else {
        spec_extend_round(s0, traces.drop_last(), cards, nobles) + spec_extended_traces(
            s0,
            traces.last(),
            0,
            cards,
            nobles,
        )
    }
}

/// Every opponent continuation of length `rounds` from `s0`: that many
/// extension rounds applied to the single empty trace.
pub open spec fn spec_continuations(
    s0: GameStateV,
    rounds: int,
    cards: Seq<crate::card::Card>,
    nobles: Seq<crate::aristocrat::Aristocrat>,
) -> Seq<Seq<GameStateV>>
    decreases rounds,
{
    if rounds <= 0 {
        seq![Seq::<GameStateV>::empty()]
    } else {
        spec_extend_round(s0, spec_continuations(s0, rounds - 1, cards, nobles), cards, nobles)
    }
}

/// The exec trace list realizes the spec trace list, element for element.
pub open spec fn traces_match(ex: Seq<Vec<GameState>>, ts: Seq<Seq<GameStateV>>) -> bool {
    &&& ex.len() == ts.len()
    &&& (forall|j: int| 0 <= j < ts.len() ==> (#[trigger] ex[j])@.len() == ts[j].len())
    &&& (forall|j: int, k: int|
        0 <= j < ts.len() && 0 <= k < ts[j].len() ==> (#[trigger] ex[j]@[k])@ == ts[j][k])
}

/// Appending matching traces keeps the lists matching.
proof fn lemma_traces_match_push(
    ex: Seq<Vec<GameState>>,
    ts: Seq<Seq<GameStateV>>,
    v: Vec<GameState>,
    t: Seq<GameStateV>,
)
    requires
        traces_match(ex, ts),
        v@.len() == t.len(),
        forall|k: int| 0 <= k < t.len() ==> (#[trigger] v@[k])@ == t[k],
    ensures
        traces_match(ex.push(v), ts.push(t)),
{
    let ex2 = ex.push(v);
    let ts2 = ts.push(t);
    assert forall|j: int| 0 <= j < ts2.len() implies (#[trigger] ex2[j])@.len()
        == ts2[j].len() by {
        if j < ts.len() {
            assert(ex2[j] == ex[j]);
        } else {
            assert(ex2[j] == v);
        }
    }
    assert forall|j: int, k: int|
        0 <= j < ts2.len() && 0 <= k < ts2[j].len() implies (#[trigger] ex2[j]@[k])@
        == ts2[j][k] by {
        if j < ts.len() {
            assert(ex2[j] == ex[j]);
        } else {
            assert(ex2[j] == v);
        }
    }
}

/// All well-formed states in a list of traces.
pub open spec fn traces_wf(traces: Seq<Vec<GameState>>, n: int) -> bool {
    forall|j: int, k: int|
        0 <= j < traces.len() && 0 <= k < traces[j]@.len() ==> wf_state(
            #[trigger] traces[j]@[k]@,
        ) && traces[j]@[k]@.players.len() == n
}

/// From a state where the distinguished player is to act, generate every
/// immediate child and, per child, every opponent continuation of length
/// one turn round (player count minus one moves).
/// Dropping the head of a tail: when the tail from `d` starts with one
/// element followed by `rest`, the tail from `d + 1` is exactly `rest`.
proof fn lemma_skip_shift<A>(s: Seq<A>, d: int, rest: Seq<A>)
    requires
        0 <= d < s.len(),
        s.skip(d) == seq![s[d]] + rest,
    ensures
        s.skip(d + 1) == rest,
{
    assert(s.skip(d).len() == 1 + rest.len());
    assert forall|j: int| 0 <= j < s.len() - (d + 1) implies s.skip(d + 1)[j] == rest[j] by {
        assert(s.skip(d + 1)[j] == s[d + 1 + j]);
        assert(s.skip(d)[j + 1] == s[d + 1 + j]);
        assert(s.skip(d)[j + 1] == (seq![s[d]] + rest)[j + 1]);
    }
    assert(s.skip(d + 1) =~= rest);
}

/// From a state where the distinguished player is to act, generate every
/// immediate child and, per child, every opponent continuation of one turn
/// round (player count minus one moves): one pair per catalog move valid on
/// the input, in catalog order, the child equal to that move's step, and
/// the trace lists exactly the continuation enumeration.
pub fn generate_traces_from_player_zero_state(
    player_zero_state: &GameState,
    n_players: u8,
    cards: &CardStorage,
    nobles: &AristocratStorage,
) -> (r: Vec<(GameState, Vec<Vec<GameState>>)>)
    requires
        wf_state(player_zero_state@),
        n_players as int == player_zero_state@.players.len(),
        cards@.len() == N_CARDS,
        nobles@.len() == N_ARISTOCRATS,
    ensures
        forall|i: int|
            0 <= i < r@.len() ==> wf_state((#[trigger] r@[i]).0@) && r@[i].0@.players.len()
                == n_players && traces_wf(r@[i].1@, n_players as int),
        ({
            let cs = spec_children_from(player_zero_state@, 0, cards@, nobles@);
            &&& r@.len() == cs.len()
            &&& (forall|i: int| 0 <= i < cs.len() ==> (#[trigger] r@[i]).0@ == cs[i])
            &&& (forall|i: int|
                0 <= i < cs.len() ==> traces_match(
                    (#[trigger] r@[i]).1@,
                    spec_continuations(cs[i], n_players - 1, cards@, nobles@),
                ))
        }),
{
    let ghost cs = spec_children_from(player_zero_state@, 0, cards@, nobles@);
    let all = get_all_moves();
    let mut result: Vec<(GameState, Vec<Vec<GameState>>)> = Vec::new();
    let mut mi: usize = 0;
    proof {
        assert(spec_children_from(player_zero_state@, 0, cards@, nobles@) =~= cs.skip(0));
    }
    while mi < all.len()
        invariant
            wf_state(player_zero_state@),
            n_players as int == player_zero_state@.players.len(),
            cards@.len() == N_CARDS,
            nobles@.len() == N_ARISTOCRATS,
            all@.len() == N_MOVES,
            forall|k: int| 0 <= k < N_MOVES ==> #[trigger] all@[k] == spec_move_at(k),
            forall|k: int| 0 <= k < N_MOVES ==> crate::moves::move_wf(#[trigger] all@[k]),
            mi <= all@.len(),
            cs == spec_children_from(player_zero_state@, 0, cards@, nobles@),
            result@.len() <= cs.len(),
            spec_children_from(player_zero_state@, mi as int, cards@, nobles@) == cs.skip(
                result@.len() as int,
            ),
            forall|i: int|
                0 <= i < result@.len() ==> wf_state((#[trigger] result@[i]).0@)
                    && result@[i].0@.players.len() == n_players && traces_wf(
                    result@[i].1@,
                    n_players as int,
                ),
            forall|i: int| 0 <= i < result@.len() ==> (#[trigger] result@[i]).0@ == cs[i],
            forall|i: int|
                0 <= i < result@.len() ==> traces_match(
                    (#[trigger] result@[i]).1@,
                    spec_continuations(cs[i], n_players - 1, cards@, nobles@),
                ),
        decreases all.len() - mi,
    {
        let ghost d = result@.len() as int;
        let m = all[mi];
        if m.is_valid(player_zero_state, cards) {
            proof {
                assert(spec_children_from(player_zero_state@, mi as int, cards@, nobles@)
                    == seq![spec_step(spec_move_at(mi as int), player_zero_state@, cards@, nobles@)]
                    + spec_children_from(player_zero_state@, mi + 1, cards@, nobles@));
                assert(cs.skip(d).len() >= 1);
                assert(d < cs.len());
                assert(cs.skip(d)[0] == spec_step(
                    spec_move_at(mi as int),
                    player_zero_state@,
                    cards@,
                    nobles@,
                ));
                assert(cs[d] == spec_step(
                    spec_move_at(mi as int),
                    player_zero_state@,
                    cards@,
                    nobles@,
                ));
                lemma_skip_shift(
                    cs,
                    d,
                    spec_children_from(player_zero_state@, mi + 1, cards@, nobles@),
                );
            }
            let child_state = m.perform(player_zero_state, cards, nobles);
            let ghost child_v = child_state@;
            let mut traces_from_child: Vec<Vec<GameState>> = Vec::new();
            traces_from_child.push(Vec::new());
            proof {
                assert(traces_from_child@[0]@.len() == 0);
                assert(traces_match(
                    traces_from_child@,
                    spec_continuations(child_v, 0, cards@, nobles@),
                ));
            }
            let mut round: u8 = 1;
            while round < n_players
                invariant
                    wf_state(child_v),
                    child_state@ == child_v,
                    child_v.players.len() == n_players,
                    cards@.len() == N_CARDS,
                    nobles@.len() == N_ARISTOCRATS,
                    all@.len() == N_MOVES,
                    forall|k: int| 0 <= k < N_MOVES ==> #[trigger] all@[k] == spec_move_at(k),
                    forall|k: int|
                        0 <= k < N_MOVES ==> crate::moves::move_wf(#[trigger] all@[k]),
                    1 <= round <= n_players,
                    traces_wf(traces_from_child@, n_players as int),
                    traces_match(
                        traces_from_child@,
                        spec_continuations(child_v, round - 1, cards@, nobles@),
                    ),
                decreases n_players - round,
            {
                let ghost prior = spec_continuations(child_v, round - 1, cards@, nobles@);
                let mut new_traces: Vec<Vec<GameState>> = Vec::new();
                let mut t: usize = 0;
                proof {
                    assert(prior.take(0) =~= Seq::<Seq<GameStateV>>::empty());
                    assert(traces_match(
                        new_traces@,
                        spec_extend_round(child_v, prior.take(0), cards@, nobles@),
                    ));
                }
                while t < traces_from_child.len()
                    invariant
                        wf_state(child_v),
                        child_state@ == child_v,
                        child_v.players.len() == n_players,
                        cards@.len() == N_CARDS,
                        nobles@.len() == N_ARISTOCRATS,
                        all@.len() == N_MOVES,
                        forall|k: int| 0 <= k < N_MOVES ==> #[trigger] all@[k] == spec_move_at(k),
                        forall|k: int|
                            0 <= k < N_MOVES ==> crate::moves::move_wf(#[trigger] all@[k]),
                        t <= traces_from_child@.len(),
                        traces_from_child@.len() == prior.len(),
                        traces_match(traces_from_child@, prior),
                        traces_wf(traces_from_child@, n_players as int),
                        traces_wf(new_traces@, n_players as int),
                        traces_match(
                            new_traces@,
                            spec_extend_round(child_v, prior.take(t as int), cards@, nobles@),
                        ),
                    decreases traces_from_child.len() - t,
                {
                    let ghost done_part = spec_extend_round(
                        child_v,
                        prior.take(t as int),
                        cards@,
                        nobles@,
                    );
                    let ghost trv = prior[t as int];
                    let ghost full_ext = spec_extended_traces(child_v, trv, 0, cards@, nobles@);
                    let ghost base_len = new_traces@.len() as int;
                    proof {
                        assert(new_traces@.len() == done_part.len());
                        assert(spec_extended_traces(child_v, trv, 0, cards@, nobles@)
                            =~= full_ext.skip(0));
                        assert(full_ext.take(0) =~= Seq::<Seq<GameStateV>>::empty());
                        assert(traces_match(new_traces@, done_part + full_ext.take(0)));
                    }
                    let trace = &traces_from_child[t];
                    let mut mj: usize = 0;
                    while mj < all.len()
                        invariant
                            wf_state(child_v),
                            child_state@ == child_v,
                            child_v.players.len() == n_players,
                            cards@.len() == N_CARDS,
                            nobles@.len() == N_ARISTOCRATS,
                            all@.len() == N_MOVES,
                            forall|k: int|
                                0 <= k < N_MOVES ==> #[trigger] all@[k] == spec_move_at(k),
                            forall|k: int|
                                0 <= k < N_MOVES ==> crate::moves::move_wf(#[trigger] all@[k]),
                            mj <= all@.len(),
                            t < traces_from_child@.len(),
                            trace == &traces_from_child[t as int],
                            trace@.len() == trv.len(),
                            forall|k: int| 0 <= k < trv.len() ==> (#[trigger] trace@[k])@ == trv[k],
                            traces_wf(traces_from_child@, n_players as int),
                            traces_wf(new_traces@, n_players as int),
                            done_part == spec_extend_round(
                                child_v,
                                prior.take(t as int),
                                cards@,
                                nobles@,
                            ),
                            full_ext == spec_extended_traces(child_v, trv, 0, cards@, nobles@),
                            base_len == done_part.len(),
                            base_len <= new_traces@.len(),
                            new_traces@.len() - base_len <= full_ext.len(),
                            spec_extended_traces(child_v, trv, mj as int, cards@, nobles@)
                                == full_ext.skip(new_traces@.len() - base_len),
                            traces_match(
                                new_traces@,
                                done_part + full_ext.take(new_traces@.len() - base_len),
                            ),
                        decreases all.len() - mj,
                    {
                        let ghost cur_v = if trv.len() == 0 {
                            child_v
                        } else {
                            trv.last()
                        };
                        let ghost d2 = new_traces@.len() - base_len;
                        let m2 = all[mj];
                        let current_valid: bool = if trace.len() == 0 {
                            m2.is_valid(&child_state, cards)
                        } else {
                            proof {
                                assert(wf_state(trace@[trace@.len() - 1]@));
                                assert(trace@[trace@.len() - 1]@ == cur_v);
                            }
                            m2.is_valid(&trace[trace.len() - 1], cards)
                        };
                        if current_valid {
                            proof {
                                assert(spec_extended_traces(child_v, trv, mj as int, cards@, nobles@)
                                    == seq![trv.push(spec_step(
                                    spec_move_at(mj as int),
                                    cur_v,
                                    cards@,
                                    nobles@,
                                ))] + spec_extended_traces(child_v, trv, mj + 1, cards@, nobles@));
                                assert(full_ext.skip(d2).len() >= 1);
                                assert(d2 < full_ext.len());
                                assert(full_ext.skip(d2)[0] == trv.push(spec_step(
                                    spec_move_at(mj as int),
                                    cur_v,
                                    cards@,
                                    nobles@,
                                )));
                                assert(full_ext[d2] == trv.push(spec_step(
                                    spec_move_at(mj as int),
                                    cur_v,
                                    cards@,
                                    nobles@,
                                )));
                                lemma_skip_shift(
                                    full_ext,
                                    d2,
                                    spec_extended_traces(child_v, trv, mj + 1, cards@, nobles@),
                                );
                            }
                            let new_state = if trace.len() == 0 {
                                m2.perform(&child_state, cards, nobles)
                            } else {
                                proof {
                                    assert(wf_state(trace@[trace@.len() - 1]@));
                                }
                                m2.perform(&trace[trace.len() - 1], cards, nobles)
                            };
                            proof {
                                assert(new_state@ == spec_step(
                                    spec_move_at(mj as int),
                                    cur_v,
                                    cards@,
                                    nobles@,
                                ));
                            }
                            let mut new_trace = copy_states(trace);
                            new_trace.push(new_state);
                            let ghost pre_nt = new_traces@;
                            proof {
                                assert(new_trace@.len() == full_ext[d2].len());
                                assert forall|k: int|
                                    0 <= k < full_ext[d2].len() implies (#[trigger] new_trace@[k])@
                                    == full_ext[d2][k] by {
                                    if k < trv.len() {
                                        assert(new_trace@[k]@ == trace@[k]@);
                                        assert(trace@[k]@ == trv[k]);
                                    } else {
                                        assert(new_trace@[k] == new_state);
                                    }
                                }
                            }
                            new_traces.push(new_trace);
                            proof {
                                lemma_traces_match_push(
                                    pre_nt,
                                    done_part + full_ext.take(d2),
                                    new_trace,
                                    full_ext[d2],
                                );
                                assert((done_part + full_ext.take(d2)).push(full_ext[d2])
                                    =~= done_part + full_ext.take(d2 + 1));
                                assert(traces_match(
                                    new_traces@,
                                    done_part + full_ext.take(d2 + 1),
                                ));
                            }
                        }
                        mj = mj + 1;
                    }
                    proof {
                        assert(spec_extended_traces(child_v, trv, N_MOVES as int, cards@, nobles@)
                            =~= Seq::<Seq<GameStateV>>::empty());
                        assert(full_ext.skip(new_traces@.len() - base_len).len() == 0);
                        assert(new_traces@.len() - base_len == full_ext.len());
                        assert(full_ext.take(full_ext.len() as int) =~= full_ext);
                        assert(prior.take(t + 1).drop_last() =~= prior.take(t as int));
                        assert(prior.take(t + 1).last() == prior[t as int]);
                        assert(spec_extend_round(child_v, prior.take(t + 1), cards@, nobles@)
                            == done_part + full_ext);
                        assert(traces_match(
                            new_traces@,
                            spec_extend_round(child_v, prior.take(t + 1), cards@, nobles@),
                        ));
                    }
                    t = t + 1;
                }
                proof {
                    assert(prior.take(prior.len() as int) =~= prior);
                    assert(spec_continuations(child_v, round as int, cards@, nobles@)
                        == spec_extend_round(child_v, prior, cards@, nobles@));
                }
                traces_from_child = new_traces;
                round = round + 1;
            }
            result.push((child_state, traces_from_child));
            proof {
                assert(result@[d].0@ == cs[d]);
            }
        }
        mi = mi + 1;
    }
    proof {
        assert(spec_children_from(player_zero_state@, N_MOVES as int, cards@, nobles@)
            =~= Seq::<GameStateV>::empty());
        assert(cs.skip(result@.len() as int).len() == 0);
        assert(result@.len() == cs.len());
    }
    result
}

/// The ordering value of a state: the just-finished player's point total,
/// then the fewer built cards the better.
pub open spec fn spec_value(s: GameStateV) -> (int, int) {
    let p = s.players[(s.current_player_index + s.players.len() - 1) % (s.players.len() as int)];
    (points_of(p), -deck_production(p.deck).total())
}

/// The value `v` strictly outranks every state of every trace.
pub open spec fn spec_all_below(ts: Seq<Seq<GameStateV>>, v: (int, int)) -> bool {
    forall|j: int, k: int|
        0 <= j < ts.len() && 0 <= k < ts[j].len() ==> (v.0 > (#[trigger] spec_value(
            ts[j][k],
        )).0 || (v.0 == spec_value(ts[j][k]).0 && v.1 > spec_value(ts[j][k]).1))
}

/// Some state of some trace matches the value `v` exactly.
pub open spec fn spec_any_equal(ts: Seq<Seq<GameStateV>>, v: (int, int)) -> bool {
    exists|j: int, k: int|
        0 <= j < ts.len() && 0 <= k < ts[j].len() && (#[trigger] spec_value(ts[j][k])) == v
}

/// Some state of some trace has its just-finished player at or past the
/// winning threshold.
pub open spec fn spec_any_finished(ts: Seq<Seq<GameStateV>>) -> bool {
    exists|j: int, k: int|
        0 <= j < ts.len() && 0 <= k < ts[j].len() && (#[trigger] spec_value(ts[j][k])).0
            >= WINNING_POINTS
}

/// The trailing states of the first `n` traces that put the distinguished
/// player back to act, in trace order.
pub open spec fn spec_child_recurse(ts: Seq<Seq<GameStateV>>, n: int) -> Seq<GameStateV>
    decreases n,
{
    if n <= 0 {
        Seq::empty()
    } else {
        spec_child_recurse(ts, n - 1) + ({
            let tr = ts[n - 1];
            if tr.len() > 0 && tr.last().current_player_index == 0 {
                seq![tr.last()]
            } else {
                Seq::empty()
            }
        })
    }
}

/// The positions to recurse into, collected over the first `n` children in
/// order: the player-zero tails of every trace of every child none of whose
/// traces lets an opponent finish.
pub open spec fn spec_recurse_upto(
    s: GameStateV,
    n: int,
    rounds: int,
    cards: Seq<crate::card::Card>,
    nobles: Seq<crate::aristocrat::Aristocrat>,
) -> Seq<GameStateV>
    decreases n,
{
    let cs = spec_children_from(s, 0, cards, nobles);
    if n <= 0 {
        Seq::empty()
    } else {
        spec_recurse_upto(s, n - 1, rounds, cards, nobles) + ({
            let conts = spec_continuations(cs[n - 1], rounds, cards, nobles);
            if !spec_any_finished(conts) {
                spec_child_recurse(conts, conts.len() as int)
            } else {
                Seq::empty()
            }
        })
    }
}

/// The verdict of the exhaustive short-horizon evaluation, as a pure
/// function of the position and the depth budget.
pub open spec fn spec_evaluate(
    s: GameStateV,
    n_players: int,
    max_depth: int,
    cards: Seq<crate::card::Card>,
    nobles: Seq<crate::aristocrat::Aristocrat>,
) -> EvaluationResult
    decreases max_depth,
{
    if max_depth <= 0 {
        EvaluationResult::Draw
    } else {
        let cs = spec_children_from(s, 0, cards, nobles);
        let rounds = n_players - 1;
        if exists|i: int|
            0 <= i < cs.len() && (#[trigger] spec_value(cs[i])).0 >= WINNING_POINTS
                && spec_all_below(
                spec_continuations(cs[i], rounds, cards, nobles),
                spec_value(cs[i]),
            ) {
            EvaluationResult::Winning
        } else if forall|i: int|
            0 <= i < cs.len() ==> spec_any_finished(
                #[trigger] spec_continuations(cs[i], rounds, cards, nobles),
            ) {
            EvaluationResult::Losing
        } else {
            let rl = spec_recurse_upto(s, cs.len() as int, rounds, cards, nobles);
            if exists|j: int|
                0 <= j < rl.len() && spec_evaluate(
                    #[trigger] rl[j],
                    n_players,
                    max_depth - 1,
                    cards,
                    nobles,
                ) == EvaluationResult::Winning {
                EvaluationResult::Winning
            } else {
                let has_draw = (exists|i: int|
                    0 <= i < cs.len() && (#[trigger] spec_value(cs[i])).0 >= WINNING_POINTS
                        && spec_any_equal(
                        spec_continuations(cs[i], rounds, cards, nobles),
                        spec_value(cs[i]),
                    )) || (exists|j: int|
                    0 <= j < rl.len() && spec_evaluate(
                        #[trigger] rl[j],
                        n_players,
                        max_depth - 1,
                        cards,
                        nobles,
                    ) == EvaluationResult::Draw);
                if has_draw {
                    EvaluationResult::Draw
                } else {
                    EvaluationResult::Losing
                }
            }
        }
    }
}

/// Evaluate a position where the distinguished player is to act: exactly
/// the verdict `spec_evaluate` names — winning if some immediate move
/// reaches the threshold and outranks every opponent continuation (or some
/// collected deeper position wins), losing if every child lets an opponent
/// finish, drawn otherwise or when the depth budget is spent.
pub fn evaluate_player_zero_state(
    player_zero_state: &GameState,
    n_players: u8,
    max_depth: u8,
    cards: &CardStorage,
    nobles: &AristocratStorage,
) -> (r: EvaluationResult)
    requires
        wf_state(player_zero_state@),
        n_players as int == player_zero_state@.players.len(),
        cards@.len() == N_CARDS,
        nobles@.len() == N_ARISTOCRATS,
    ensures
        r == spec_evaluate(
            player_zero_state@,
            n_players as int,
            max_depth as int,
            cards@,
            nobles@,
        ),
        max_depth == 0 ==> r == EvaluationResult::Draw,
    decreases max_depth,
{
    let ghost sv = player_zero_state@;
    let ghost cs = spec_children_from(sv, 0, cards@, nobles@);
    let ghost rounds = n_players - 1 as int;
    if max_depth == 0 {
        return EvaluationResult::Draw;
    }
    let traces = generate_traces_from_player_zero_state(player_zero_state, n_players, cards, nobles);
    let mut all_children_losing = true;
    let mut has_draw_child = false;
    let mut player_zero_states_to_recurse: Vec<GameState> = Vec::new();
    let mut ci: usize = 0;
    while ci < traces.len()
        invariant
            cards@.len() == N_CARDS,
            nobles@.len() == N_ARISTOCRATS,
            max_depth >= 1,
            2 <= n_players,
            sv == player_zero_state@,
            cs == spec_children_from(sv, 0, cards@, nobles@),
            rounds == n_players - 1,
            ci <= traces@.len(),
            traces@.len() == cs.len(),
            forall|i: int|
                0 <= i < traces@.len() ==> wf_state((#[trigger] traces@[i]).0@)
                    && traces@[i].0@.players.len() == n_players && traces_wf(
                    traces@[i].1@,
                    n_players as int,
                ),
            forall|i: int| 0 <= i < cs.len() ==> (#[trigger] traces@[i]).0@ == cs[i],
            forall|i: int|
                0 <= i < cs.len() ==> traces_match(
                    (#[trigger] traces@[i]).1@,
                    spec_continuations(cs[i], rounds, cards@, nobles@),
                ),
            forall|i: int|
                0 <= i < ci ==> !((#[trigger] spec_value(cs[i])).0 >= WINNING_POINTS
                    && spec_all_below(
                    spec_continuations(cs[i], rounds, cards@, nobles@),
                    spec_value(cs[i]),
                )),
            all_children_losing == (forall|i: int|
                0 <= i < ci ==> spec_any_finished(
                    #[trigger] spec_continuations(cs[i], rounds, cards@, nobles@),
                )),
            has_draw_child == (exists|i: int|
                0 <= i < ci && (#[trigger] spec_value(cs[i])).0 >= WINNING_POINTS
                    && spec_any_equal(
                    spec_continuations(cs[i], rounds, cards@, nobles@),
                    spec_value(cs[i]),
                )),
            player_zero_states_to_recurse@.len() == spec_recurse_upto(
                sv,
                ci as int,
                rounds,
                cards@,
                nobles@,
            ).len(),
            forall|k: int|
                0 <= k < player_zero_states_to_recurse@.len()
                    ==> (#[trigger] player_zero_states_to_recurse@[k])@ == spec_recurse_upto(
                    sv,
                    ci as int,
                    rounds,
                    cards@,
                    nobles@,
                )[k],
            forall|i: int|
                0 <= i < player_zero_states_to_recurse@.len() ==> wf_state(
                    (#[trigger] player_zero_states_to_recurse@[i])@,
                ) && player_zero_states_to_recurse@[i]@.players.len() == n_players,
        decreases traces.len() - ci,
    {
        let ghost conts = spec_continuations(cs[ci as int], rounds, cards@, nobles@);
        let ghost rec_before = spec_recurse_upto(sv, ci as int, rounds, cards@, nobles@);
        let child_state = &traces[ci].0;
        let trace_list = &traces[ci].1;
        let child_value = get_value(child_state, n_players);
        proof {
            assert((child_value.0 as int, child_value.1 as int) == spec_value(cs[ci as int]));
        }
        if child_value.0 >= WINNING_POINTS {
            let is_better = trace_states_all_below(
                trace_list,
                child_value,
                n_players,
                Ghost(conts),
            );
            if is_better {
                proof {
                    assert(spec_evaluate(sv, n_players as int, max_depth as int, cards@, nobles@)
                        == EvaluationResult::Winning);
                }
                return EvaluationResult::Winning;
            }
            let has_equal = trace_states_any_equal(trace_list, child_value, n_players, Ghost(conts));
            if has_equal {
                has_draw_child = true;
            }
        }
        let has_losing_trace = trace_states_any_finished(trace_list, n_players, Ghost(conts));
        if !has_losing_trace {
            all_children_losing = false;
            let mut t: usize = 0;
            proof {
                assert(spec_child_recurse(conts, 0) =~= Seq::<GameStateV>::empty());
            }
            while t < trace_list.len()
                invariant
                    n_players >= 2,
                    t <= trace_list@.len(),
                    traces_wf(trace_list@, n_players as int),
                    traces_match(trace_list@, conts),
                    rec_before.len() <= player_zero_states_to_recurse@.len(),
                    player_zero_states_to_recurse@.len() == rec_before.len()
                        + spec_child_recurse(conts, t as int).len(),
                    forall|k: int|
                        0 <= k < rec_before.len()
                            ==> (#[trigger] player_zero_states_to_recurse@[k])@ == rec_before[k],
                    forall|k: int|
                        0 <= k < spec_child_recurse(conts, t as int).len()
                            ==> (#[trigger] player_zero_states_to_recurse@[rec_before.len() + k])@
                            == spec_child_recurse(conts, t as int)[k],
                    forall|i: int|
                        0 <= i < player_zero_states_to_recurse@.len() ==> wf_state(
                            (#[trigger] player_zero_states_to_recurse@[i])@,
                        ) && player_zero_states_to_recurse@[i]@.players.len() == n_players,
                decreases trace_list.len() - t,
            {
                let trace = &trace_list[t];
                let ghost rec_now = player_zero_states_to_recurse@;
                if trace.len() > 0 {
                    proof {
                        assert(wf_state(trace@[trace@.len() - 1]@));
                        assert(trace@[trace@.len() - 1]@ == conts[t as int].last());
                    }
                    let last_state = &trace[trace.len() - 1];
                    if last_state.get_current_player_index() == 0 {
                        player_zero_states_to_recurse.push(last_state.duplicate());
                    }
                }
                proof {
                    assert(spec_child_recurse(conts, t + 1) == spec_child_recurse(conts, t as int)
                        + (if conts[t as int].len() > 0 && conts[t as int].last().current_player_index
                        == 0 {
                        seq![conts[t as int].last()]
                    } else {
                        Seq::<GameStateV>::empty()
                    }));
                }
                t = t + 1;
            }
            proof {
                assert(spec_child_recurse(conts, conts.len() as int) == spec_child_recurse(
                    conts,
                    trace_list@.len() as int,
                ));
                let upto_next = spec_recurse_upto(sv, ci + 1, rounds, cards@, nobles@);
                assert(upto_next == rec_before + spec_child_recurse(conts, conts.len() as int));
                assert forall|k: int|
                    0 <= k < player_zero_states_to_recurse@.len()
                        implies (#[trigger] player_zero_states_to_recurse@[k])@ == upto_next[k] by {
                    if k < rec_before.len() {
                        assert(upto_next[k] == rec_before[k]);
                        assert(player_zero_states_to_recurse@[k]@ == rec_before[k]);
                    } else {
                        let off = k - rec_before.len();
                        assert(upto_next[k] == spec_child_recurse(conts, conts.len() as int)[off]);
                        assert(player_zero_states_to_recurse@[rec_before.len() + off]@
                            == spec_child_recurse(conts, conts.len() as int)[off]);
                    }
                }
                assert(player_zero_states_to_recurse@.len() == upto_next.len());
            }
        } else {
            proof {
                assert(spec_recurse_upto(sv, ci + 1, rounds, cards@, nobles@) == rec_before
                    + Seq::<GameStateV>::empty());
                assert(rec_before + Seq::<GameStateV>::empty() =~= rec_before);
            }
        }
        ci = ci + 1;
    }
    if all_children_losing {
        proof {
            assert(spec_evaluate(sv, n_players as int, max_depth as int, cards@, nobles@)
                == EvaluationResult::Losing);
        }
        return EvaluationResult::Losing;
    }
    let ghost rl = spec_recurse_upto(sv, cs.len() as int, rounds, cards@, nobles@);
    let ghost draw_from_children = has_draw_child;
    let mut si: usize = 0;
    while si < player_zero_states_to_recurse.len()
        invariant
            cards@.len() == N_CARDS,
            nobles@.len() == N_ARISTOCRATS,
            max_depth >= 1,
            2 <= n_players,
            sv == player_zero_state@,
            cs == spec_children_from(sv, 0, cards@, nobles@),
            rounds == n_players - 1,
            rl == spec_recurse_upto(sv, cs.len() as int, rounds, cards@, nobles@),
            player_zero_states_to_recurse@.len() == rl.len(),
            forall|k: int|
                0 <= k < rl.len() ==> (#[trigger] player_zero_states_to_recurse@[k])@ == rl[k],
            forall|i: int|
                0 <= i < player_zero_states_to_recurse@.len() ==> wf_state(
                    (#[trigger] player_zero_states_to_recurse@[i])@,
                ) && player_zero_states_to_recurse@[i]@.players.len() == n_players,
            si <= rl.len(),
            forall|j: int|
                0 <= j < si ==> spec_evaluate(
                    #[trigger] rl[j],
                    n_players as int,
                    max_depth - 1,
                    cards@,
                    nobles@,
                ) != EvaluationResult::Winning,
            has_draw_child == (draw_from_children || exists|j: int|
                0 <= j < si && spec_evaluate(
                    #[trigger] rl[j],
                    n_players as int,
                    max_depth - 1,
                    cards@,
                    nobles@,
                ) == EvaluationResult::Draw),
            draw_from_children == (exists|i: int|
                0 <= i < cs.len() && (#[trigger] spec_value(cs[i])).0 >= WINNING_POINTS
                    && spec_any_equal(
                    spec_continuations(cs[i], rounds, cards@, nobles@),
                    spec_value(cs[i]),
                )),
            forall|i: int|
                0 <= i < cs.len() ==> !((#[trigger] spec_value(cs[i])).0 >= WINNING_POINTS
                    && spec_all_below(
                    spec_continuations(cs[i], rounds, cards@, nobles@),
                    spec_value(cs[i]),
                )),
            !(forall|i: int|
                0 <= i < cs.len() ==> spec_any_finished(
                    #[trigger] spec_continuations(cs[i], rounds, cards@, nobles@),
                )),
        decreases player_zero_states_to_recurse.len() - si,
    {
        let evaluation_result = evaluate_player_zero_state(
            &player_zero_states_to_recurse[si],
            n_players,
            max_depth - 1,
            cards,
            nobles,
        );
        if evaluation_result == EvaluationResult::Winning {
            proof {
                assert(spec_evaluate(rl[si as int], n_players as int, max_depth - 1, cards@, nobles@)
                    == EvaluationResult::Winning);
                assert(spec_evaluate(sv, n_players as int, max_depth as int, cards@, nobles@)
                    == EvaluationResult::Winning);
            }
            return EvaluationResult::Winning;
        }
        if evaluation_result == EvaluationResult::Draw {
            has_draw_child = true;
        }
        si = si + 1;
    }
    if has_draw_child {
        proof {
            assert(spec_evaluate(sv, n_players as int, max_depth as int, cards@, nobles@)
                == EvaluationResult::Draw);
        }
        EvaluationResult::Draw
    } else {
        proof {
            assert(spec_evaluate(sv, n_players as int, max_depth as int, cards@, nobles@)
                == EvaluationResult::Losing);
        }
        EvaluationResult::Losing
    }
}

/// Whether the child's ordering value strictly outranks every state of
/// every trace: exactly `spec_all_below` over the matched spec traces.
fn trace_states_all_below(
    trace_list: &Vec<Vec<GameState>>,
    child_value: (u16, i16),
    n_players: u8,
    Ghost(ts): Ghost<Seq<Seq<GameStateV>>>,
) -> (r: bool)
    requires
        traces_wf(trace_list@, n_players as int),
        traces_match(trace_list@, ts),
    ensures
        r == spec_all_below(ts, (child_value.0 as int, child_value.1 as int)),
{
    let ghost v = (child_value.0 as int, child_value.1 as int);
    let mut t: usize = 0;
    while t < trace_list.len()
        invariant
            traces_wf(trace_list@, n_players as int),
            traces_match(trace_list@, ts),
            v == (child_value.0 as int, child_value.1 as int),
            t <= ts.len(),
            forall|j: int, k: int|
                0 <= j < t && 0 <= k < ts[j].len() ==> (v.0 > (#[trigger] spec_value(
                    ts[j][k],
                )).0 || (v.0 == spec_value(ts[j][k]).0 && v.1 > spec_value(ts[j][k]).1)),
        decreases trace_list.len() - t,
    {
        let trace = &trace_list[t];
        let mut k: usize = 0;
        while k < trace.len()
            invariant
                t < trace_list@.len(),
                trace_list@.len() == ts.len(),
                trace == &trace_list[t as int],
                k <= trace@.len(),
                trace@.len() == ts[t as int].len(),
                traces_wf(trace_list@, n_players as int),
                traces_match(trace_list@, ts),
                v == (child_value.0 as int, child_value.1 as int),
                forall|k2: int|
                    0 <= k2 < k ==> (v.0 > (#[trigger] spec_value(ts[t as int][k2])).0 || (v.0
                        == spec_value(ts[t as int][k2]).0 && v.1 > spec_value(
                        ts[t as int][k2],
                    ).1)),
            decreases trace.len() - k,
        {
            proof {
                assert(wf_state(trace@[k as int]@));
                assert(trace@[k as int]@ == ts[t as int][k as int]);
            }
            let state_value = get_value(&trace[k], n_players);
            proof {
                assert(spec_value(ts[t as int][k as int]) == (
                    state_value.0 as int,
                    state_value.1 as int,
                ));
            }
            let strictly_better = child_value.0 > state_value.0 || (child_value.0 == state_value.0
                && child_value.1 > state_value.1);
            if !strictly_better {
                proof {
                    assert(0 <= (t as int) && (t as int) < ts.len());
                    assert(0 <= (k as int) && (k as int) < ts[t as int].len());
                    assert(!(v.0 > spec_value(ts[t as int][k as int]).0 || (v.0 == spec_value(
                        ts[t as int][k as int],
                    ).0 && v.1 > spec_value(ts[t as int][k as int]).1)));
                    assert(!spec_all_below(ts, v));
                }
                return false;
            }
            k = k + 1;
        }
        t = t + 1;
    }
    true
}

/// Whether some state of some trace matches the child's ordering value
/// exactly: `spec_any_equal` over the matched spec traces.
fn trace_states_any_equal(
    trace_list: &Vec<Vec<GameState>>,
    child_value: (u16, i16),
    n_players: u8,
    Ghost(ts): Ghost<Seq<Seq<GameStateV>>>,
) -> (r: bool)
    requires
        traces_wf(trace_list@, n_players as int),
        traces_match(trace_list@, ts),
    ensures
        r == spec_any_equal(ts, (child_value.0 as int, child_value.1 as int)),
{
    let ghost v = (child_value.0 as int, child_value.1 as int);
    let mut t: usize = 0;
    while t < trace_list.len()
        invariant
            traces_wf(trace_list@, n_players as int),
            traces_match(trace_list@, ts),
            v == (child_value.0 as int, child_value.1 as int),
            t <= ts.len(),
            forall|j: int, k: int|
                0 <= j < t && 0 <= k < ts[j].len() ==> (#[trigger] spec_value(ts[j][k])) != v,
        decreases trace_list.len() - t,
    {
        let trace = &trace_list[t];
        let mut k: usize = 0;
        while k < trace.len()
            invariant
                t < trace_list@.len(),
                trace_list@.len() == ts.len(),
                trace == &trace_list[t as int],
                k <= trace@.len(),
                trace@.len() == ts[t as int].len(),
                traces_wf(trace_list@, n_players as int),
                traces_match(trace_list@, ts),
                v == (child_value.0 as int, child_value.1 as int),
                forall|k2: int|
                    0 <= k2 < k ==> (#[trigger] spec_value(ts[t as int][k2])) != v,
            decreases trace.len() - k,
        {
            proof {
                assert(wf_state(trace@[k as int]@));
                assert(trace@[k as int]@ == ts[t as int][k as int]);
            }
            let state_value = get_value(&trace[k], n_players);
            proof {
                assert(spec_value(ts[t as int][k as int]) == (
                    state_value.0 as int,
                    state_value.1 as int,
                ));
            }
            if child_value.0 == state_value.0 && child_value.1 == state_value.1 {
                proof {
                    assert(spec_value(ts[t as int][k as int]) == v);
                }
                return true;
            }
            k = k + 1;
        }
        t = t + 1;
    }
    false
}

/// Whether some state of some trace has its just-finished player at or past
/// the winning threshold: `spec_any_finished` over the matched spec traces.
fn trace_states_any_finished(
    trace_list: &Vec<Vec<GameState>>,
    n_players: u8,
    Ghost(ts): Ghost<Seq<Seq<GameStateV>>>,
) -> (r: bool)
    requires
        traces_wf(trace_list@, n_players as int),
        traces_match(trace_list@, ts),
    ensures
        r == spec_any_finished(ts),
{
    let mut t: usize = 0;
    while t < trace_list.len()
        invariant
            traces_wf(trace_list@, n_players as int),
            traces_match(trace_list@, ts),
            t <= ts.len(),
            forall|j: int, k: int|
                0 <= j < t && 0 <= k < ts[j].len() ==> (#[trigger] spec_value(ts[j][k])).0
                    < WINNING_POINTS,
        decreases trace_list.len() - t,
    {
        let trace = &trace_list[t];
        let mut k: usize = 0;
        while k < trace.len()
            invariant
                t < trace_list@.len(),
                trace_list@.len() == ts.len(),
                trace == &trace_list[t as int],
                k <= trace@.len(),
                trace@.len() == ts[t as int].len(),
                traces_wf(trace_list@, n_players as int),
                traces_match(trace_list@, ts),
                forall|k2: int|
                    0 <= k2 < k ==> (#[trigger] spec_value(ts[t as int][k2])).0 < WINNING_POINTS,
            decreases trace.len() - k,
        {
            proof {
                assert(wf_state(trace@[k as int]@));
                assert(trace@[k as int]@ == ts[t as int][k as int]);
            }
            let lp = get_last_player_points(&trace[k], n_players);
            proof {
                assert(spec_value(ts[t as int][k as int]).0 == lp as int);
            }
            if lp >= WINNING_POINTS {
                return true;
            }
            k = k + 1;
        }
        t = t + 1;
    }
    false
}

} // verus!
