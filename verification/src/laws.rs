//! Global laws of the move catalog, stated and proved over the mathematical
//! model: the holdings cap, the turn-order law, and noble monotonicity.

use vstd::prelude::*;

use crate::aristocrat::Aristocrat;
use crate::aristocrat_storage::N_ARISTOCRATS;
use crate::card::Card;
use crate::card_storage::N_CARDS;
use crate::game_state::{wf_state, GameStateV};
use crate::moves::{
    first_claimable, lemma_step_preserves_wf, move_wf, spec_is_valid, spec_step, Move,
};
use crate::player::deck_production;

verus! {

/// The units a move grants to the acting player, all colors and the wildcard
/// together; building grants none.
pub open spec fn spec_grant_total(m: Move) -> int {
    match m {
        Move::GetThree { .. } => 3,
        Move::GetTwo { .. } => 2,
        Move::Reserve { .. } => 1,
        Move::ReserveFromHidden { .. } => 1,
        Move::BuildCard { .. } => 0,
        Move::BuildFromReserve { .. } => 0,
    }
}

pub open spec fn is_resource_granting(m: Move) -> bool {
    spec_grant_total(m) > 0
}

/// A resource-granting move performed validly leaves the acting player's
/// holdings total within the ten-unit cap.
pub proof fn lemma_grant_respects_cap(
    m: Move,
    s: GameStateV,
    cards: Seq<Card>,
    nobles: Seq<Aristocrat>,
)
    requires
        move_wf(m),
        wf_state(s),
        cards.len() == N_CARDS,
        nobles.len() == N_ARISTOCRATS,
        spec_is_valid(m, s, cards),
        is_resource_granting(m),
    ensures
        spec_step(m, s, cards, nobles).players[s.current_player_index].resources.sum() <= 10,
{
    lemma_step_preserves_wf(m, s, cards, nobles);
    let s2 = spec_step(m, s, cards, nobles);
    assert(crate::game_state::wf_player(s2.players[s.current_player_index], s2.board));
}

/// Conversely, a move whose grant would push the acting player's holdings
/// total past ten reports itself invalid.
pub proof fn lemma_overfull_grant_invalid(m: Move, s: GameStateV, cards: Seq<Card>)
    requires
        move_wf(m),
        wf_state(s),
        is_resource_granting(m),
        s.players[s.current_player_index].resources.sum() + spec_grant_total(m) > 10,
    ensures
        !spec_is_valid(m, s, cards),
{
}

/// The state after a sequence of moves, applied front to back.
pub open spec fn spec_apply_seq(
    s: GameStateV,
    ms: Seq<Move>,
    cards: Seq<Card>,
    nobles: Seq<Aristocrat>,
) -> GameStateV
    decreases ms.len(),
{
    if ms.len() == 0 {
        s
    } else {
        spec_apply_seq(spec_step(ms[0], s, cards, nobles), ms.drop_first(), cards, nobles)
    }
}

/// Every move of the sequence is well formed and valid on the state it is
/// applied to.
pub open spec fn seq_all_valid(
    s: GameStateV,
    ms: Seq<Move>,
    cards: Seq<Card>,
    nobles: Seq<Aristocrat>,
) -> bool
    decreases ms.len(),
{
    ms.len() == 0 || {
        &&& move_wf(ms[0])
        &&& spec_is_valid(ms[0], s, cards)
        &&& seq_all_valid(spec_step(ms[0], s, cards, nobles), ms.drop_first(), cards, nobles)
    }
}

/// Turn order law: starting at player index `p` with `n` players, after `k`
/// validly performed, finalizing moves the current index is `(p + k) mod n`.
/// The player count never changes, and well-formedness carries through.
pub proof fn lemma_turn_order(
    s: GameStateV,
    ms: Seq<Move>,
    cards: Seq<Card>,
    nobles: Seq<Aristocrat>,
)
    requires
        wf_state(s),
        cards.len() == N_CARDS,
        nobles.len() == N_ARISTOCRATS,
        seq_all_valid(s, ms, cards, nobles),
    ensures
        spec_apply_seq(s, ms, cards, nobles).players.len() == s.players.len(),
        wf_state(spec_apply_seq(s, ms, cards, nobles)),
        spec_apply_seq(s, ms, cards, nobles).current_player_index == (s.current_player_index
            + ms.len()) % (s.players.len() as int),
    decreases ms.len(),
{
    let n = s.players.len() as int;
    if ms.len() == 0 {
        vstd::arithmetic::div_mod::lemma_small_mod(
            s.current_player_index as nat,
            s.players.len() as nat,
        );
    } else {
        let s1 = spec_step(ms[0], s, cards, nobles);
        lemma_step_preserves_wf(ms[0], s, cards, nobles);
        assert(s1.players.len() == s.players.len());
        assert(s1.current_player_index == (s.current_player_index + 1) % n);
        lemma_turn_order(s1, ms.drop_first(), cards, nobles);
        let rest = ms.drop_first().len() as int;
        // ((p + 1) % n + rest) % n == (p + 1 + rest) % n
        vstd::arithmetic::div_mod::lemma_mod_twice(s.current_player_index + 1, n);
        vstd::arithmetic::div_mod::lemma_add_mod_noop(
            (s.current_player_index + 1) % n,
            rest,
            n,
        );
        vstd::arithmetic::div_mod::lemma_add_mod_noop(s.current_player_index + 1, rest, n);
        vstd::arithmetic::div_mod::lemma_mod_twice(rest, n);
        assert(((s.current_player_index + 1) % n + rest) % n == (s.current_player_index + 1 + rest)
            % n);
    }
}

/// What one step does to the board's nobles: either nothing, or exactly one
/// award, which removes the awarded noble from the board for good.
pub proof fn lemma_noble_award_monotonic(
    m: Move,
    s: GameStateV,
    cards: Seq<Card>,
    nobles: Seq<Aristocrat>,
)
    requires
        move_wf(m),
        wf_state(s),
        cards.len() == N_CARDS,
        nobles.len() == N_ARISTOCRATS,
        spec_is_valid(m, s, cards),
    ensures
        ({
            let before = s.board.aristocrats;
            let after = spec_step(m, s, cards, nobles).board.aristocrats;
            after == before || (exists|k: int|
                0 <= k < before.len() && after == before.remove(k) && after.len() == before.len()
                    - 1 && !after.contains(before[k]))
        }),
{
    let before = s.board.aristocrats;
    let after = spec_step(m, s, cards, nobles).board.aristocrats;
    match m {
        Move::BuildCard { .. } | Move::BuildFromReserve { .. } => {
            let p1 = build_result_player_of(m, s, cards);
            crate::moves::lemma_first_claimable_characterization(
                before,
                deck_production(p1.deck),
                nobles,
            );
            match first_claimable(before, deck_production(p1.deck), nobles) {
                Some(k) => {
                    crate::moves::lemma_remove_no_duplicates(before, k);
                    assert(after == before.remove(k));
                    before.remove_ensures(k);
                    assert(!after.contains(before[k]));
                },
                None => {
                    assert(after == before);
                },
            }
        },
        _ => {
            assert(after == before);
        },
    }
}

/// The player as it stands right after a build's payment, before the noble
/// claim: the shape the claim is decided on.
pub open spec fn build_result_player_of(m: Move, s: GameStateV, cards: Seq<Card>) -> crate::player::PlayerV {
    let cur = s.current_player_index;
    let p = s.players[cur];
    match m {
        Move::BuildCard { card_reference } => {
            let row = s.board.rows[card_reference.spec_row_index()];
            let card = cards[row.visible[card_reference.spec_card_index()] as int];
            crate::moves::build_pay(p, card)
        },
        Move::BuildFromReserve { index } => {
            let card = p.reserve[index as int];
            let p0 = crate::player::PlayerV { reserve: p.reserve.remove(index as int), ..p };
            crate::moves::build_pay(p0, card)
        },
        _ => p,
    }
}

/// A noble absent from the board can never be awarded again: no move puts a
/// noble back into play.
pub proof fn lemma_absent_noble_stays_absent(
    m: Move,
    s: GameStateV,
    cards: Seq<Card>,
    nobles: Seq<Aristocrat>,
    id: usize,
)
    requires
        move_wf(m),
        wf_state(s),
        cards.len() == N_CARDS,
        nobles.len() == N_ARISTOCRATS,
        spec_is_valid(m, s, cards),
        !s.board.aristocrats.contains(id),
    ensures
        !spec_step(m, s, cards, nobles).board.aristocrats.contains(id),
{
    let before = s.board.aristocrats;
    let after = spec_step(m, s, cards, nobles).board.aristocrats;
    match m {
        Move::BuildCard { .. } | Move::BuildFromReserve { .. } => {
            let p1 = build_result_player_of(m, s, cards);
            crate::moves::lemma_first_claimable_characterization(
                before,
                deck_production(p1.deck),
                nobles,
            );
            match first_claimable(before, deck_production(p1.deck), nobles) {
                Some(k) => {
                    assert(after == before.remove(k));
                    before.remove_ensures(k);
                    assert forall|j: int| 0 <= j < after.len() implies after[j] != id by {
                        let j0: int = if j < k {
                            j
                        } else {
                            j + 1
                        };
                        assert(after[j] == before[j0]);
                        assert(before[j0] != id);
                    }
                },
                None => {},
            }
        },
        _ => {},
    }
}

} // verus!
