//! The closed catalog of state transitions and their mathematical model.
//!
//! Each move exposes `is_valid` and `perform`; `perform` is defined only on
//! states its `is_valid` accepts, and every performed move finalizes the turn
//! by advancing the pointer exactly once, modulo the player count.

use vstd::prelude::*;

use crate::aristocrat::Aristocrat;
use crate::aristocrat_storage::{AristocratStorage, N_ARISTOCRATS};
use crate::card::Card;
use crate::card_reference::CardReference;
use crate::card_storage::{CardStorage, N_CARDS};
use crate::cost::{Cost, CostV};
use crate::game_state::{wf_state, GameState, GameStateV};
use crate::player::{deck_production, one_hot, Player, PlayerV};
use crate::resource::Resource;
use crate::resources::{
    missing_from, sat_sub_u8, spec_can_pay, spec_pay, spec_spent_colors, Resources, ResourcesV,
};
use crate::row::{spec_remove_hidden, spec_remove_visible};

verus! {

/// The closed set of state-transition operations.
#[derive(Clone, Copy, Debug, PartialEq, Eq, Structural)]
pub enum Move {
    /// Take one unit each of three distinct colors from the bank.
    GetThree { first: Resource, second: Resource, third: Resource },
    /// Take two units of one color; the bank must have held at least four.
    GetTwo { resource: Resource },
    /// Reserve a visible card, taking one wildcard unit from the bank.
    Reserve { card_reference: CardReference },
    /// Reserve the top hidden card of a tier, unseen.
    ReserveFromHidden { row_index: u8 },
    /// Build a visible card from the board.
    BuildCard { card_reference: CardReference },
    /// Build a previously reserved card.
    BuildFromReserve { index: usize },
}

/// Structural sanity of a move's own fields, independent of any state.
pub open spec fn move_wf(m: Move) -> bool {
    match m {
        Move::GetThree { first, second, third } => first != second && first != third && second
            != third,
        Move::GetTwo { .. } => true,
        Move::Reserve { card_reference } => card_reference.row_index < 3,
        Move::ReserveFromHidden { row_index } => row_index < 3,
        Move::BuildCard { card_reference } => card_reference.row_index < 3,
        Move::BuildFromReserve { index } => index < 3,
    }
}

/// The grant of a three-distinct-colors move.
pub open spec fn three_cost_v(a: Resource, b: Resource, c: Resource) -> CostV {
    one_hot(a).plus(one_hot(b)).plus(one_hot(c))
}

/// The grant of a two-of-one-color move.
pub open spec fn two_cost_v(c: Resource) -> CostV {
    one_hot(c).plus(one_hot(c))
}

/// The named color's quantity in a bundle.
pub open spec fn component_of(r: ResourcesV, c: Resource) -> int {
    match c {
        Resource::Green => r.green,
        Resource::Red => r.red,
        Resource::Blue => r.blue,
        Resource::White => r.white,
        Resource::Black => r.black,
    }
}

/// Whether the bank can supply the given per-color demand outright, without
/// touching its wildcard units.
pub open spec fn bank_covers(bank: ResourcesV, c: CostV) -> bool {
    bank.colors().covers(c)
}

/// Validity of a move against a state, per the rules:
/// - three distinct colors: the bank supplies one of each, and the grant
///   keeps the holdings total within ten;
/// - two of a color: the bank held at least four of it before the grant,
///   and the total stays within ten;
/// - reserving: a wildcard unit is available, the reserve is short of three,
///   the total stays within ten, and the targeted card exists;
/// - building: the card exists and its cost, discounted by production, is
///   covered by held colors plus wildcard units for any shortfall.
pub open spec fn spec_is_valid(m: Move, s: GameStateV, cards: Seq<Card>) -> bool {
    let cur = s.players[s.current_player_index];
    match m {
        Move::GetThree { first, second, third } => {
            let grant = three_cost_v(first, second, third);
            bank_covers(s.board.resources, grant) && cur.resources.sum() + grant.total() <= 10
        },
        Move::GetTwo { resource } => component_of(s.board.resources, resource) >= 4
            && cur.resources.sum() + 2 <= 10,
        Move::Reserve { card_reference } => {
            &&& s.board.resources.gold > 0
            &&& cur.resources.sum() + 1 <= 10
            &&& cur.reserve.len() < 3
            &&& card_reference.spec_card_index()
                < s.board.rows[card_reference.spec_row_index()].visible.len()
        },
        Move::ReserveFromHidden { row_index } => {
            &&& s.board.rows[row_index as int].hidden.len() > 0
            &&& s.board.resources.gold > 0
            &&& cur.resources.sum() + 1 <= 10
            &&& cur.reserve.len() < 3
        },
        Move::BuildCard { card_reference } => {
            let row = s.board.rows[card_reference.spec_row_index()];
            &&& card_reference.spec_card_index() < row.visible.len()
            &&& spec_can_pay(
                cur.resources,
                cards[row.visible[card_reference.spec_card_index()] as int]@.cost.minus(
                    deck_production(cur.deck),
                ),
            )
        },
        Move::BuildFromReserve { index } => {
            &&& (index as int) < cur.reserve.len()
            &&& spec_can_pay(
                cur.resources,
                cur.reserve[index as int]@.cost.minus(deck_production(cur.deck)),
            )
        },
    }
}

/// A state after a pure resource grant: the units move from the bank to the
/// acting player; nothing else changes.
pub open spec fn grant_step(s: GameStateV, grant: CostV) -> GameStateV {
    let cur = s.current_player_index;
    let p = s.players[cur];
    let p2 = PlayerV {
        resources: ResourcesV {
            green: p.resources.green + grant.green,
            red: p.resources.red + grant.red,
            blue: p.resources.blue + grant.blue,
            white: p.resources.white + grant.white,
            black: p.resources.black + grant.black,
            gold: p.resources.gold,
        },
        ..p
    };
    let bank = s.board.resources;
    let bank2 = ResourcesV {
        green: bank.green - grant.green,
        red: bank.red - grant.red,
        blue: bank.blue - grant.blue,
        white: bank.white - grant.white,
        black: bank.black - grant.black,
        gold: bank.gold,
    };
    GameStateV {
        players: s.players.update(cur, p2),
        current_player_index: cur,
        board: crate::board::BoardV { resources: bank2, ..s.board },
    }
}

/// The player after reserving `card`: one wildcard unit granted, the card
/// appended to the reserve.
pub open spec fn reserve_grant(p: PlayerV, card: Card) -> PlayerV {
    PlayerV {
        resources: ResourcesV { gold: p.resources.gold + 1, ..p.resources },
        reserve: p.reserve.push(card),
        ..p
    }
}

pub open spec fn bank_minus_gold(b: ResourcesV) -> ResourcesV {
    ResourcesV { gold: b.gold - 1, ..b }
}

/// The bank after the spent colors return to it; wildcard units spent on a
/// build leave play.
pub open spec fn bank_plus_colors(b: ResourcesV, c: CostV) -> ResourcesV {
    ResourcesV {
        green: b.green + c.green,
        red: b.red + c.red,
        blue: b.blue + c.blue,
        white: b.white + c.white,
        black: b.black + c.black,
        gold: b.gold,
    }
}

/// The player after paying for `card` and taking it into the deck. The cost
/// is discounted by the production held before this build.
pub open spec fn build_pay(p: PlayerV, card: Card) -> PlayerV {
    let rem = card@.cost.minus(deck_production(p.deck));
    PlayerV { deck: p.deck.push(card), resources: spec_pay(p.resources, rem), ..p }
}

/// Whether the noble in board slot `k` is claimable by the given production.
pub open spec fn claimable_at(
    board_nobles: Seq<usize>,
    prod: CostV,
    nobles: Seq<Aristocrat>,
    k: int,
) -> bool {
    prod.covers(nobles[board_nobles[k] as int]@.cost)
}

/// The first noble, in board order, whose threshold the production meets.
pub open spec fn first_claimable(
    board_nobles: Seq<usize>,
    prod: CostV,
    nobles: Seq<Aristocrat>,
) -> Option<int>
    decreases board_nobles.len(),
{
    if board_nobles.len() == 0 {
        None
    } else if prod.covers(nobles[board_nobles[0] as int]@.cost) {
        Some(0int)
    } else {
        match first_claimable(board_nobles.drop_first(), prod, nobles) {
            Some(k) => Some(k + 1),
            None => None,
        }
    }
}

/// `first_claimable` returns exactly the first claimable slot: the slot it
/// names is claimable and none before it is; `None` means none is.
pub proof fn lemma_first_claimable_characterization(
    board_nobles: Seq<usize>,
    prod: CostV,
    nobles: Seq<Aristocrat>,
)
    ensures
        match first_claimable(board_nobles, prod, nobles) {
            Some(k) => 0 <= k < board_nobles.len() && claimable_at(board_nobles, prod, nobles, k)
                && (forall|j: int| 0 <= j < k ==> !claimable_at(board_nobles, prod, nobles, j)),
            None => forall|j: int|
                0 <= j < board_nobles.len() ==> !claimable_at(board_nobles, prod, nobles, j),
        },
    decreases board_nobles.len(),
{
    if board_nobles.len() > 0 {
        if !prod.covers(nobles[board_nobles[0] as int]@.cost) {
            let rest = board_nobles.drop_first();
            lemma_first_claimable_characterization(rest, prod, nobles);
            assert forall|j: int|
                1 <= j < board_nobles.len() implies claimable_at(board_nobles, prod, nobles, j)
                == claimable_at(rest, prod, nobles, j - 1) by {
                assert(rest[j - 1] == board_nobles[j]);
            }
            assert(!claimable_at(board_nobles, prod, nobles, 0));
            match first_claimable(rest, prod, nobles) {
                Some(k) => {
                    assert(first_claimable(board_nobles, prod, nobles) == Some(k + 1));
                    assert(claimable_at(rest, prod, nobles, k));
                    assert(claimable_at(board_nobles, prod, nobles, k + 1));
                    assert forall|j: int|
                        0 <= j < k + 1 implies !claimable_at(board_nobles, prod, nobles, j) by {
                        if j >= 1 {
                            assert(!claimable_at(rest, prod, nobles, j - 1));
                        }
                    }
                },
                None => {
                    assert(first_claimable(board_nobles, prod, nobles) is None);
                    assert forall|j: int|
                        0 <= j < board_nobles.len() implies !claimable_at(
                        board_nobles,
                        prod,
                        nobles,
                        j,
                    ) by {
                        if j >= 1 {
                            assert(!claimable_at(rest, prod, nobles, j - 1));
                        }
                    }
                },
            }
        }
    }
}

/// The player and the board nobles after the single auto-claim attempt of a
/// build: the first qualifying noble in board order, if any, moves from the
/// board to the player.
pub open spec fn claim_result_player(
    p: PlayerV,
    board_nobles: Seq<usize>,
    nobles: Seq<Aristocrat>,
) -> PlayerV {
    match first_claimable(board_nobles, deck_production(p.deck), nobles) {
        Some(k) => PlayerV { aristocrats: p.aristocrats.push(board_nobles[k]), ..p },
        None => p,
    }
}

pub open spec fn claim_result_board_nobles(
    p: PlayerV,
    board_nobles: Seq<usize>,
    nobles: Seq<Aristocrat>,
) -> Seq<usize> {
    match first_claimable(board_nobles, deck_production(p.deck), nobles) {
        Some(k) => board_nobles.remove(k),
        None => board_nobles,
    }
}

/// The turn-finalize step shared by every variant: the pointer advances by
/// exactly one, modulo the player count.
pub open spec fn spec_advance(s: GameStateV) -> GameStateV {
    GameStateV {
        current_player_index: (s.current_player_index + 1) % (s.players.len() as int),
        ..s
    }
}

/// The complete transition of one move on one state: the variant's own edits
/// followed by the uniform turn finalize.
pub open spec fn spec_step(
    m: Move,
    s: GameStateV,
    cards: Seq<Card>,
    nobles: Seq<Aristocrat>,
) -> GameStateV {
    spec_advance(spec_step_body(m, s, cards, nobles))
}

/// The variant's own edits, before the turn finalize.
pub open spec fn spec_step_body(
    m: Move,
    s: GameStateV,
    cards: Seq<Card>,
    nobles: Seq<Aristocrat>,
) -> GameStateV {
    let cur = s.current_player_index;
    let p = s.players[cur];
    match m {
        Move::GetThree { first, second, third } => grant_step(
            s,
            three_cost_v(first, second, third),
        ),
        Move::GetTwo { resource } => grant_step(s, two_cost_v(resource)),
        Move::Reserve { card_reference } => {
            let t = card_reference.spec_row_index();
            let slot = card_reference.spec_card_index();
            let row = s.board.rows[t];
            let card = cards[row.visible[slot] as int];
            GameStateV {
                players: s.players.update(cur, reserve_grant(p, card)),
                current_player_index: cur,
                board: crate::board::BoardV {
                    resources: bank_minus_gold(s.board.resources),
                    rows: s.board.rows.update(t, spec_remove_visible(row, slot)),
                    aristocrats: s.board.aristocrats,
                },
            }
        },
        Move::ReserveFromHidden { row_index } => {
            let t = row_index as int;
            let row = s.board.rows[t];
            let card = cards[row.hidden[0] as int];
            GameStateV {
                players: s.players.update(cur, reserve_grant(p, card)),
                current_player_index: cur,
                board: crate::board::BoardV {
                    resources: bank_minus_gold(s.board.resources),
                    rows: s.board.rows.update(t, spec_remove_hidden(row)),
                    aristocrats: s.board.aristocrats,
                },
            }
        },
        Move::BuildCard { card_reference } => {
            let t = card_reference.spec_row_index();
            let slot = card_reference.spec_card_index();
            let row = s.board.rows[t];
            let card = cards[row.visible[slot] as int];
            let spent = spec_spent_colors(p.resources, card@.cost.minus(deck_production(p.deck)));
            let p1 = build_pay(p, card);
            GameStateV {
                players: s.players.update(
                    cur,
                    claim_result_player(p1, s.board.aristocrats, nobles),
                ),
                current_player_index: cur,
                board: crate::board::BoardV {
                    resources: bank_plus_colors(s.board.resources, spent),
                    rows: s.board.rows.update(t, spec_remove_visible(row, slot)),
                    aristocrats: claim_result_board_nobles(p1, s.board.aristocrats, nobles),
                },
            }
        },
        Move::BuildFromReserve { index } => {
            let card = p.reserve[index as int];
            let p0 = PlayerV { reserve: p.reserve.remove(index as int), ..p };
            let spent = spec_spent_colors(p.resources, card@.cost.minus(deck_production(p.deck)));
            let p1 = build_pay(p0, card);
            GameStateV {
                players: s.players.update(
                    cur,
                    claim_result_player(p1, s.board.aristocrats, nobles),
                ),
                current_player_index: cur,
                board: crate::board::BoardV {
                    resources: bank_plus_colors(s.board.resources, spent),
                    rows: s.board.rows,
                    aristocrats: claim_result_board_nobles(p1, s.board.aristocrats, nobles),
                },
            }
        },
    }
}

/// Removing an element from a duplicate-free sequence keeps it duplicate
/// free, and the removed occurrence is gone for good.
pub proof fn lemma_remove_no_duplicates(s: Seq<usize>, i: int)
    requires
        0 <= i < s.len(),
        s.no_duplicates(),
    ensures
        s.remove(i).no_duplicates(),
        !s.remove(i).contains(s[i]),
{
    let r = s.remove(i);
    s.remove_ensures(i);
    assert forall|a: int, b: int|
        0 <= a < r.len() && 0 <= b < r.len() && a != b implies r[a] != r[b] by {
        let a0: int = if a < i {
            a
        } else {
            a + 1
        };
        let b0: int = if b < i {
            b
        } else {
            b + 1
        };
        assert(r[a] == s[a0]);
        assert(r[b] == s[b0]);
    }
    assert forall|j: int| 0 <= j < r.len() implies r[j] != s[i] by {
        let j0: int = if j < i {
            j
        } else {
            j + 1
        };
        assert(r[j] == s[j0]);
    }
    assert(!r.contains(s[i]));
}

/// The exec grant of a three-distinct-colors move.
fn three_cost(a: Resource, b: Resource, c: Resource) -> (r: Cost)
    ensures
        r@ == three_cost_v(a, b, c),
{
    let g = in3(Resource::Green, a, b, c);
    let rd = in3(Resource::Red, a, b, c);
    let bl = in3(Resource::Blue, a, b, c);
    let w = in3(Resource::White, a, b, c);
    let k = in3(Resource::Black, a, b, c);
    Cost::new(g, rd, bl, w, k)
}

/// How many of the three given colors equal `color`.
fn in3(color: Resource, a: Resource, b: Resource, c: Resource) -> (r: u8)
    ensures
        r == (if a == color {
            1int
        } else {
            0int
        }) + (if b == color {
            1int
        } else {
            0int
        }) + (if c == color {
            1int
        } else {
            0int
        }),
{
    let mut n: u8 = 0;
    if a == color {
        n = n + 1;
    }
    if b == color {
        n = n + 1;
    }
    if c == color {
        n = n + 1;
    }
    n
}

/// The exec grant of a two-of-one-color move.
fn two_cost(c: Resource) -> (r: Cost)
    ensures
        r@ == two_cost_v(c),
{
    match c {
        Resource::Green => Cost::new(2, 0, 0, 0, 0),
        Resource::Red => Cost::new(0, 2, 0, 0, 0),
        Resource::Blue => Cost::new(0, 0, 2, 0, 0),
        Resource::White => Cost::new(0, 0, 0, 2, 0),
        Resource::Black => Cost::new(0, 0, 0, 0, 2),
    }
}

/// `cost` discounted color-wise by a production bundle.
fn sub_cost(cost: &Cost, production: &Resources) -> (r: Cost)
    ensures
        r@ == cost@.minus(production@.colors()),
{
    Cost::new(
        sat_sub_u8(cost.n_green(), production.n_green()),
        sat_sub_u8(cost.n_red(), production.n_red()),
        sat_sub_u8(cost.n_blue(), production.n_blue()),
        sat_sub_u8(cost.n_white(), production.n_white()),
        sat_sub_u8(cost.n_black(), production.n_black()),
    )
}

/// The non-wildcard units actually spent paying `rem` out of `have`.
fn spent_cost(have: &Resources, rem: &Cost) -> (r: Cost)
    ensures
        r@ == spec_spent_colors(have@, rem@),
{
    let g = if have.n_green() >= rem.n_green() {
        rem.n_green()
    } else {
        have.n_green()
    };
    let rd = if have.n_red() >= rem.n_red() {
        rem.n_red()
    } else {
        have.n_red()
    };
    let bl = if have.n_blue() >= rem.n_blue() {
        rem.n_blue()
    } else {
        have.n_blue()
    };
    let w = if have.n_white() >= rem.n_white() {
        rem.n_white()
    } else {
        have.n_white()
    };
    let k = if have.n_black() >= rem.n_black() {
        rem.n_black()
    } else {
        have.n_black()
    };
    Cost::new(g, rd, bl, w, k)
}

/// One wildcard unit, as a grantable bundle.
fn gold_unit() -> (r: Resources)
    ensures
        r@ == (ResourcesV { green: 0, red: 0, blue: 0, white: 0, black: 0, gold: 1 }),
{
    Resources::new(0, 0, 0, 0, 0, 1)
}

/// Whether the bank supplies the given demand outright.
fn bank_covers_exec(bank: &Resources, c: &Cost) -> (r: bool)
    ensures
        r == bank_covers(bank@, c@),
{
    bank.n_green() >= c.n_green() && bank.n_red() >= c.n_red() && bank.n_blue() >= c.n_blue()
        && bank.n_white() >= c.n_white() && bank.n_black() >= c.n_black()
}

/// The named color's quantity in the bank.
fn bank_component(bank: &Resources, c: Resource) -> (r: u8)
    ensures
        r == component_of(bank@, c),
{
    match c {
        Resource::Green => bank.n_green(),
        Resource::Red => bank.n_red(),
        Resource::Blue => bank.n_blue(),
        Resource::White => bank.n_white(),
        Resource::Black => bank.n_black(),
    }
}

/// The slot of the first noble on the board, in board order, whose threshold
/// the production meets.
fn find_first_claimable(
    board_nobles: &Vec<usize>,
    production: &Resources,
    nobles: &AristocratStorage,
) -> (r: Option<usize>)
    requires
        production@.gold == 0,
        nobles@.len() == N_ARISTOCRATS,
        forall|i: int| 0 <= i < board_nobles@.len() ==> #[trigger] board_nobles@[i] < N_ARISTOCRATS,
    ensures
        match r {
            Some(k) => (k as int) < board_nobles@.len() && first_claimable(
                board_nobles@,
                production@.colors(),
                nobles@,
            ) == Some(k as int),
            None => first_claimable(board_nobles@, production@.colors(), nobles@) is None,
        },
{
    proof {
        lemma_first_claimable_characterization(board_nobles@, production@.colors(), nobles@);
    }
    let mut i: usize = 0;
    while i < board_nobles.len()
        invariant
            i <= board_nobles@.len(),
            production@.gold == 0,
            nobles@.len() == N_ARISTOCRATS,
            forall|k: int|
                0 <= k < board_nobles@.len() ==> #[trigger] board_nobles@[k] < N_ARISTOCRATS,
            forall|j: int|
                0 <= j < i ==> !claimable_at(board_nobles@, production@.colors(), nobles@, j),
        decreases board_nobles.len() - i,
    {
        let noble = nobles.get_aristocrat(board_nobles[i]);
        if production.can_pay(noble.cost()) {
            proof {
                assert(missing_from(production@, noble@.cost) <= 0);
                assert(claimable_at(board_nobles@, production@.colors(), nobles@, i as int));
                lemma_first_claimable_characterization(
                    board_nobles@,
                    production@.colors(),
                    nobles@,
                );
            }
            return Some(i);
        }
        proof {
            assert(missing_from(production@, noble@.cost) > 0);
            assert(!claimable_at(board_nobles@, production@.colors(), nobles@, i as int));
        }
        i = i + 1;
    }
    proof {
        lemma_first_claimable_characterization(board_nobles@, production@.colors(), nobles@);
    }
    None
}

impl Move {
    /// Whether this move may be performed on the given state.
    pub fn is_valid(&self, game_state: &GameState, cards: &CardStorage) -> (r: bool)
        requires
            move_wf(*self),
            wf_state(game_state@),
            cards@.len() == N_CARDS,
        ensures
            r == spec_is_valid(*self, game_state@, cards@),
    {
        let cur = game_state.get_current_player();
        match self {
            Move::GetThree { first, second, third } => {
                let grant = three_cost(*first, *second, *third);
                bank_covers_exec(game_state.get_board().get_resources(), &grant)
                    && cur.can_add_resources(&grant.to_resources())
            },
            Move::GetTwo { resource } => {
                let grant = two_cost(*resource);
                bank_component(game_state.get_board().get_resources(), *resource) >= 4
                    && cur.can_add_resources(&grant.to_resources())
            },
            Move::Reserve { card_reference } => {
                game_state.get_board().get_resources().n_gold() > 0 && cur.can_add_resources(
                    &gold_unit(),
                ) && cur.can_add_reserve() && card_reference.is_in_board(game_state.get_board())
            },
            Move::ReserveFromHidden { row_index } => {
                game_state.get_board().get_rows().get_row(*row_index).n_hidden() > 0
                    && game_state.get_board().get_resources().n_gold() > 0 && cur.can_add_resources(
                    &gold_unit(),
                ) && cur.can_add_reserve()
            },
            Move::BuildCard { card_reference } => {
                if !card_reference.is_in_board(game_state.get_board()) {
                    false
                } else {
                    proof {
                        cur_deck_bounded(game_state@);
                    }
                    let card = card_reference.get_from_board(game_state.get_board(), cards);
                    let production = cur.get_production();
                    let remaining = sub_cost(card.cost(), &production);
                    cur.get_resources().can_pay(&remaining)
                }
            },
            Move::BuildFromReserve { index } => {
                let reserve = cur.get_reserve();
                if *index >= reserve.len() {
                    false
                } else {
                    proof {
                        cur_deck_bounded(game_state@);
                    }
                    let card = reserve[*index];
                    let production = cur.get_production();
                    let remaining = sub_cost(card.cost(), &production);
                    cur.get_resources().can_pay(&remaining)
                }
            },
        }
    }

    /// Perform this move: defined only on states `is_valid` accepts, returns
    /// the successor state, and never touches its input. The turn pointer
    /// advances exactly once.
    #[verifier::rlimit(60)]
    pub fn perform(
        &self,
        game_state: &GameState,
        cards: &CardStorage,
        nobles: &AristocratStorage,
    ) -> (r: GameState)
        requires
            move_wf(*self),
            wf_state(game_state@),
            cards@.len() == N_CARDS,
            nobles@.len() == N_ARISTOCRATS,
            spec_is_valid(*self, game_state@, cards@),
        ensures
            r@ == spec_step(*self, game_state@, cards@, nobles@),
            wf_state(r@),
            r@.players.len() == game_state@.players.len(),
            r@.current_player_index == (game_state@.current_player_index + 1) % (
            game_state@.players.len() as int),
    {
        proof {
            lemma_step_preserves_wf(*self, game_state@, cards@, nobles@);
        }
        let stepped: GameState = match self {
            Move::GetThree { first, second, third } => {
                let grant = three_cost(*first, *second, *third);
                give_player_resources(&grant, game_state)
            },
            Move::GetTwo { resource } => {
                let grant = two_cost(*resource);
                give_player_resources(&grant, game_state)
            },
            Move::Reserve { card_reference } => {
                let t = card_reference.get_row_index();
                let slot = card_reference.get_card_index();
                let board = game_state.get_board();
                let mut rb = board.get_rows().get_row(t).to_builder();
                let card_id = rb.remove(slot);
                let new_rows = board.get_rows().replace_row(rb.build(), t);
                let card = cards.get_card(card_id);
                let cur = game_state.get_current_player();
                let p2 = cur.add_resources(&gold_unit()).add_reserve(card);
                let bank = board.get_resources();
                let new_bank = Resources::new(
                    bank.n_green(),
                    bank.n_red(),
                    bank.n_blue(),
                    bank.n_white(),
                    bank.n_black(),
                    bank.n_gold() - 1,
                );
                let new_board = crate::board::BoardBuilder {
                    resources: new_bank.to_builder(),
                    rows: new_rows.to_builder(),
                    aristocrats: crate::player::copy_indices(board.get_aristocrat_ids()),
                }.build();
                game_state.with_player_and_board(
                    game_state.get_current_player_index(),
                    p2,
                    new_board,
                )
            },
            Move::ReserveFromHidden { row_index } => {
                let t = *row_index;
                let board = game_state.get_board();
                let mut rb = board.get_rows().get_row(t).to_builder();
                let card_id = rb.remove_from_hidden();
                let new_rows = board.get_rows().replace_row(rb.build(), t);
                let card = cards.get_card(card_id);
                let cur = game_state.get_current_player();
                let p2 = cur.add_resources(&gold_unit()).add_reserve(card);
                let bank = board.get_resources();
                let new_bank = Resources::new(
                    bank.n_green(),
                    bank.n_red(),
                    bank.n_blue(),
                    bank.n_white(),
                    bank.n_black(),
                    bank.n_gold() - 1,
                );
                let new_board = crate::board::BoardBuilder {
                    resources: new_bank.to_builder(),
                    rows: new_rows.to_builder(),
                    aristocrats: crate::player::copy_indices(board.get_aristocrat_ids()),
                }.build();
                game_state.with_player_and_board(
                    game_state.get_current_player_index(),
                    p2,
                    new_board,
                )
            },
            Move::BuildCard { card_reference } => {
                let t = card_reference.get_row_index();
                let slot = card_reference.get_card_index();
                let board = game_state.get_board();
                let mut rb = board.get_rows().get_row(t).to_builder();
                let card_id = rb.remove(slot);
                let new_rows = board.get_rows().replace_row(rb.build(), t);
                let card = *cards.get_card(card_id);
                build_with_card(game_state, cards, nobles, card, None, Some(new_rows))
            },
            Move::BuildFromReserve { index } => {
                let cur = game_state.get_current_player();
                let card = cur.get_reserve()[*index];
                build_with_card(game_state, cards, nobles, card, Some(*index), None)
            },
        };
        stepped.advance_turn()
    }
}

/// The acting player's deck is bounded by the card table's size.
proof fn cur_deck_bounded(s: GameStateV)
    requires
        wf_state(s),
    ensures
        s.players[s.current_player_index].deck.len() <= N_CARDS,
        s.players[s.current_player_index].reserve.len() <= 3,
        s.players[s.current_player_index].resources.sum() <= 10,
        res_nonneg_state(s),
{
    assert(crate::game_state::wf_player(s.players[s.current_player_index], s.board));
}

/// All components of the acting player's holdings are non-negative.
pub open spec fn res_nonneg_state(s: GameStateV) -> bool {
    crate::game_state::res_nonneg(s.players[s.current_player_index].resources)
}

/// Grant the acting player the given units out of the bank. The turn pointer
/// is untouched; every performed move finalizes it afterwards.
pub fn give_player_resources(resources: &Cost, game_state: &GameState) -> (r: GameState)
    requires
        wf_state(game_state@),
        bank_covers(game_state@.board.resources, resources@),
        game_state@.players[game_state@.current_player_index].resources.sum() + resources@.total()
            <= 10,
    ensures
        r@ == grant_step(game_state@, resources@),
{
    proof {
        cur_deck_bounded(game_state@);
        crate::cost::lemma_cost_view_bounds(*resources);
    }
    let cur = game_state.get_current_player();
    let grant_res = resources.to_resources();
    let p2 = cur.add_resources(&grant_res);
    let bank = game_state.get_board().get_resources();
    proof {
        assert(missing_from(bank@, resources@) == 0);
    }
    let new_bank = bank.pay(resources);
    let board = game_state.get_board();
    let new_board = crate::board::BoardBuilder {
        resources: new_bank.to_builder(),
        rows: board.get_rows().to_builder(),
        aristocrats: crate::player::copy_indices(board.get_aristocrat_ids()),
    }.build();
    let r = game_state.with_player_and_board(
        game_state.get_current_player_index(),
        p2,
        new_board,
    );
    proof {
        let sv = grant_step(game_state@, resources@);
        assert(r@.players =~= sv.players);
        assert(r@.board.resources == sv.board.resources);
    }
    r
}

/// The shared trunk of the two build variants: pay for `card`, take it into
/// the deck, return the spent colors to the bank, and attempt exactly one
/// noble auto-claim. `reserve_slot` names the reserved card being built;
/// `new_rows` carries the row edit of a board build.
fn build_with_card(
    game_state: &GameState,
    cards: &CardStorage,
    nobles: &AristocratStorage,
    card: Card,
    reserve_slot: Option<usize>,
    new_rows: Option<crate::rows::Rows>,
) -> (r: GameState)
    requires
        wf_state(game_state@),
        nobles@.len() == N_ARISTOCRATS,
        spec_can_pay(
            game_state@.players[game_state@.current_player_index].resources,
            card@.cost.minus(
                deck_production(game_state@.players[game_state@.current_player_index].deck),
            ),
        ),
        match reserve_slot {
            Some(i) => (i as int)
                < game_state@.players[game_state@.current_player_index].reserve.len()
                && card == game_state@.players[game_state@.current_player_index].reserve[i as int]
                && new_rows is None,
            None => new_rows is Some,
        },
    ensures
        ({
            let s = game_state@;
            let cur = s.current_player_index;
            let p = s.players[cur];
            let p0 = match reserve_slot {
                Some(i) => PlayerV { reserve: p.reserve.remove(i as int), ..p },
                None => p,
            };
            let spent = spec_spent_colors(p.resources, card@.cost.minus(deck_production(p.deck)));
            let p1 = build_pay(p0, card);
            let rows2 = match new_rows {
                Some(nr) => nr@,
                None => s.board.rows,
            };
            r@ == (GameStateV {
                players: s.players.update(cur, claim_result_player(p1, s.board.aristocrats, nobles@)),
                current_player_index: cur,
                board: crate::board::BoardV {
                    resources: bank_plus_colors(s.board.resources, spent),
                    rows: rows2,
                    aristocrats: claim_result_board_nobles(p1, s.board.aristocrats, nobles@),
                },
            })
        }),
{
    proof {
        cur_deck_bounded(game_state@);
        crate::card::lemma_card_view_bounds(card);
        crate::player::lemma_deck_production_bounds(
            game_state@.players[game_state@.current_player_index].deck,
        );
    }
    let cur = game_state.get_current_player();
    let board = game_state.get_board();
    let production = cur.get_production();
    let remaining = sub_cost(card.cost(), &production);
    let spent = spent_cost(cur.get_resources(), &remaining);
    let new_res = cur.get_resources().pay(&remaining);
    let mut deck = crate::player::copy_cards(cur.get_deck());
    deck.push(card);
    let mut reserve = crate::player::copy_cards(cur.get_reserve());
    match reserve_slot {
        Some(i) => {
            reserve.remove(i);
        },
        None => {},
    }
    let p1 = Player::from_parts(
        deck,
        new_res,
        reserve,
        crate::player::copy_indices(cur.get_aristocrats()),
    );
    proof {
        assert(p1@.deck =~= game_state@.players[game_state@.current_player_index].deck.push(card));
    }
    let production2 = p1.get_production();
    let claim = find_first_claimable(board.get_aristocrat_ids(), &production2, nobles);
    let mut new_arist_board = crate::player::copy_indices(board.get_aristocrat_ids());
    let p2 = match claim {
        Some(k) => {
            let noble_id = new_arist_board.remove(k);
            let mut pa = crate::player::copy_indices(p1.get_aristocrats());
            pa.push(noble_id);
            Player::from_parts(
                crate::player::copy_cards(p1.get_deck()),
                new_res,
                crate::player::copy_cards(p1.get_reserve()),
                pa,
            )
        },
        None => p1,
    };
    let bank = board.get_resources();
    proof {
        lemma_bank_add_fits(game_state@, spent@);
        crate::resources::lemma_resources_view_bounds(*bank);
    }
    let new_bank = bank.add(&spent.to_resources());
    let rows_final = match new_rows {
        Some(nr) => nr,
        None => board.get_rows().to_builder().build(),
    };
    let new_board = crate::board::BoardBuilder {
        resources: new_bank.to_builder(),
        rows: rows_final.to_builder(),
        aristocrats: new_arist_board,
    }.build();
    let r = game_state.with_player_and_board(game_state.get_current_player_index(), p2, new_board);
    proof {
        let s = game_state@;
        let curi = s.current_player_index;
        let p = s.players[curi];
        let p0s = match reserve_slot {
            Some(i) => PlayerV { reserve: p.reserve.remove(i as int), ..p },
            None => p,
        };
        let p1s = build_pay(p0s, card);
        assert(p1@ == p1s);
        assert(r@.players =~= s.players.update(
            curi,
            claim_result_player(p1s, s.board.aristocrats, nobles@),
        ));
    }
    r
}

/// A performed move preserves the state invariant: bounds, row shape, noble
/// distinctness, and token conservation all carry to the successor state.
pub proof fn lemma_step_preserves_wf(
    m: Move,
    s: GameStateV,
    cards: Seq<Card>,
    nobles: Seq<Aristocrat>,
)
    requires
        move_wf(m),
        wf_state(s),
        cards.len() == N_CARDS,
        nobles.len() == N_ARISTOCRATS,
        spec_is_valid(m, s, cards),
    ensures
        wf_state(spec_step(m, s, cards, nobles)),
{
    let cur = s.current_player_index;
    let p = s.players[cur];
    match m {
        Move::GetThree { first, second, third } => {
            lemma_grant_wf(s, three_cost_v(first, second, third));
        },
        Move::GetTwo { resource } => {
            lemma_grant_wf(s, two_cost_v(resource));
        },
        Move::Reserve { card_reference } => {
            let t = card_reference.spec_row_index();
            let slot = card_reference.spec_card_index();
            let row = s.board.rows[t];
            crate::row::lemma_remove_visible_wf(row, slot);
            lemma_reserve_wf(s, t, spec_remove_visible(row, slot), cards[row.visible[slot] as int]);
        },
        Move::ReserveFromHidden { row_index } => {
            let t = row_index as int;
            let row = s.board.rows[t];
            crate::row::lemma_remove_hidden_wf(row);
            lemma_reserve_wf(s, t, spec_remove_hidden(row), cards[row.hidden[0] as int]);
        },
        Move::BuildCard { card_reference } => {
            let t = card_reference.spec_row_index();
            let slot = card_reference.spec_card_index();
            let row = s.board.rows[t];
            let card = cards[row.visible[slot] as int];
            crate::row::lemma_remove_visible_wf(row, slot);
            let rows2 = s.board.rows.update(t, spec_remove_visible(row, slot));
            assert(crate::rows::rows_card_count(rows2) == crate::rows::rows_card_count(
                s.board.rows,
            ) - 1);
            lemma_build_wf(s, card, None, rows2, nobles);
        },
        Move::BuildFromReserve { index } => {
            let card = p.reserve[index as int];
            lemma_build_wf(s, card, Some(index as int), s.board.rows, nobles);
        },
    }
}

/// A pure resource grant keeps the state well formed.
proof fn lemma_grant_wf(s: GameStateV, grant: CostV)
    requires
        wf_state(s),
        0 <= grant.green && 0 <= grant.red && 0 <= grant.blue && 0 <= grant.white && 0
            <= grant.black,
        bank_covers(s.board.resources, grant),
        s.players[s.current_player_index].resources.sum() + grant.total() <= 10,
    ensures
        wf_state(spec_step_grant_of(s, grant)),
        spec_step_grant_of(s, grant) == spec_advance(grant_step(s, grant)),
{
    let cur = s.current_player_index;
    let p = s.players[cur];
    let s1 = grant_step(s, grant);
    let p2 = s1.players[cur];
    let s2 = spec_advance(s1);
    assert(s2.players == s1.players);
    assert(s2.board == s1.board);
    assert(s1.players.len() == s.players.len());
    assert forall|i: int| 0 <= i < s2.players.len() implies crate::game_state::wf_player(
        #[trigger] s2.players[i],
        s2.board,
    ) by {
        assert(crate::game_state::wf_player(s.players[i], s.board));
        if i != cur {
            assert(s2.players[i] == s.players[i]);
        }
    }
    crate::game_state::lemma_total_holdings_update(s.players, cur, p2);
    let t0 = crate::game_state::total_holdings(s.players);
    let t1 = crate::game_state::total_holdings(s1.players);
    assert(t1.plus(s1.board.resources).green == t0.plus(s.board.resources).green);
    assert(t1.plus(s1.board.resources).red == t0.plus(s.board.resources).red);
    assert(t1.plus(s1.board.resources).blue == t0.plus(s.board.resources).blue);
    assert(t1.plus(s1.board.resources).white == t0.plus(s.board.resources).white);
    assert(t1.plus(s1.board.resources).black == t0.plus(s.board.resources).black);
    assert(t1.plus(s1.board.resources).gold == t0.plus(s.board.resources).gold);
    assert(crate::game_state::bank_within(s2));
}

/// The advanced grant state, named so the caller and the lemma agree on it.
pub open spec fn spec_step_grant_of(s: GameStateV, grant: CostV) -> GameStateV {
    spec_advance(grant_step(s, grant))
}

/// Reserving a card keeps the state well formed. `row2` is the edited row,
/// holding one card fewer than before.
proof fn lemma_reserve_wf(s: GameStateV, t: int, row2: crate::row::RowV, card: Card)
    requires
        wf_state(s),
        0 <= t < 3,
        crate::row::wf_row(row2),
        row2.card_count() == s.board.rows[t].card_count() - 1,
        s.board.resources.gold > 0,
        s.players[s.current_player_index].resources.sum() + 1 <= 10,
        s.players[s.current_player_index].reserve.len() < 3,
    ensures
        wf_state(
            spec_advance(
                GameStateV {
                    players: s.players.update(
                        s.current_player_index,
                        reserve_grant(s.players[s.current_player_index], card),
                    ),
                    current_player_index: s.current_player_index,
                    board: crate::board::BoardV {
                        resources: bank_minus_gold(s.board.resources),
                        rows: s.board.rows.update(t, row2),
                        aristocrats: s.board.aristocrats,
                    },
                },
            ),
        ),
{
    let cur = s.current_player_index;
    let p = s.players[cur];
    let p2 = reserve_grant(p, card);
    let rows2 = s.board.rows.update(t, row2);
    let board2 = crate::board::BoardV {
        resources: bank_minus_gold(s.board.resources),
        rows: rows2,
        aristocrats: s.board.aristocrats,
    };
    let s2 = spec_advance(
        GameStateV { players: s.players.update(cur, p2), current_player_index: cur, board: board2 },
    );
    assert(crate::rows::rows_card_count(rows2) == crate::rows::rows_card_count(s.board.rows) - 1);
    assert forall|i: int| 0 <= i < s2.players.len() implies crate::game_state::wf_player(
        #[trigger] s2.players[i],
        s2.board,
    ) by {
        assert(crate::game_state::wf_player(s.players[i], s.board));
        if i != cur {
            assert(s2.players[i] == s.players[i]);
        }
    }
    crate::game_state::lemma_total_holdings_update(s.players, cur, p2);
    let t0 = crate::game_state::total_holdings(s.players);
    let t1 = crate::game_state::total_holdings(s2.players);
    assert(t1.plus(board2.resources).green == t0.plus(s.board.resources).green);
    assert(t1.plus(board2.resources).gold == t0.plus(s.board.resources).gold);
    assert(t1.plus(board2.resources).red == t0.plus(s.board.resources).red);
    assert(t1.plus(board2.resources).blue == t0.plus(s.board.resources).blue);
    assert(t1.plus(board2.resources).white == t0.plus(s.board.resources).white);
    assert(t1.plus(board2.resources).black == t0.plus(s.board.resources).black);
    assert(crate::game_state::bank_within(s2));
}

/// Building a card keeps the state well formed. `rows2` is the rows after
/// the variant's own edit: one card fewer for a board build, unchanged for a
/// build from reserve.
proof fn lemma_build_wf(
    s: GameStateV,
    card: Card,
    reserve_slot: Option<int>,
    rows2: Seq<crate::row::RowV>,
    nobles: Seq<Aristocrat>,
)
    requires
        wf_state(s),
        nobles.len() == N_ARISTOCRATS,
        spec_can_pay(
            s.players[s.current_player_index].resources,
            card@.cost.minus(deck_production(s.players[s.current_player_index].deck)),
        ),
        rows2.len() == 3,
        forall|t: int| 0 <= t < 3 ==> crate::row::wf_row(#[trigger] rows2[t]),
        match reserve_slot {
            Some(i) => 0 <= i < s.players[s.current_player_index].reserve.len() && card
                == s.players[s.current_player_index].reserve[i] && crate::rows::rows_card_count(
                rows2,
            ) == crate::rows::rows_card_count(s.board.rows),
            None => crate::rows::rows_card_count(rows2) == crate::rows::rows_card_count(
                s.board.rows,
            ) - 1,
        },
    ensures
        wf_state(spec_build_state_of(s, card, reserve_slot, rows2, nobles)),
{
    let cur = s.current_player_index;
    let p = s.players[cur];
    let rem = card@.cost.minus(deck_production(p.deck));
    let spent = spec_spent_colors(p.resources, rem);
    let p0 = match reserve_slot {
        Some(i) => PlayerV { reserve: p.reserve.remove(i), ..p },
        None => p,
    };
    let p1 = build_pay(p0, card);
    let p2 = claim_result_player(p1, s.board.aristocrats, nobles);
    let nobles2 = claim_result_board_nobles(p1, s.board.aristocrats, nobles);
    let board2 = crate::board::BoardV {
        resources: bank_plus_colors(s.board.resources, spent),
        rows: rows2,
        aristocrats: nobles2,
    };
    let s2 = spec_advance(
        GameStateV { players: s.players.update(cur, p2), current_player_index: cur, board: board2 },
    );
    crate::card::lemma_card_view_bounds(card);
    crate::player::lemma_deck_production_bounds(p.deck);
    assert(crate::game_state::wf_player(p, s.board));
    // The payment leaves the holdings non-negative and no larger.
    assert(crate::game_state::res_nonneg(p1.resources));
    assert(p1.resources.sum() <= p.resources.sum());
    // The noble claim, if any, moves one index from the board to the player.
    lemma_first_claimable_characterization(s.board.aristocrats, deck_production(p1.deck), nobles);
    match first_claimable(s.board.aristocrats, deck_production(p1.deck), nobles) {
        Some(k) => {
            lemma_remove_no_duplicates(s.board.aristocrats, k);
            s.board.aristocrats.remove_ensures(k);
            assert(nobles2.no_duplicates());
            assert(p2.aristocrats.len() == p.aristocrats.len() + 1);
            assert(nobles2.len() == s.board.aristocrats.len() - 1);
            assert(forall|i: int|
                0 <= i < p2.aristocrats.len() ==> #[trigger] p2.aristocrats[i] < N_ARISTOCRATS);
        },
        None => {},
    }
    // Per-player invariants carry over.
    assert forall|i: int| 0 <= i < s2.players.len() implies crate::game_state::wf_player(
        #[trigger] s2.players[i],
        s2.board,
    ) by {
        assert(crate::game_state::wf_player(s.players[i], s.board));
        if i != cur {
            assert(s2.players[i] == s.players[i]);
        } else {
            assert(s2.players[i] == p2);
        }
    }
    // Conservation: the spent colors return to the bank, spent wildcards
    // leave play.
    crate::game_state::lemma_total_holdings_update(s.players, cur, p2);
    let t0 = crate::game_state::total_holdings(s.players);
    let t1 = crate::game_state::total_holdings(s2.players);
    assert(p2.resources == p1.resources);
    assert(t1.plus(board2.resources).green == t0.plus(s.board.resources).green);
    assert(t1.plus(board2.resources).red == t0.plus(s.board.resources).red);
    assert(t1.plus(board2.resources).blue == t0.plus(s.board.resources).blue);
    assert(t1.plus(board2.resources).white == t0.plus(s.board.resources).white);
    assert(t1.plus(board2.resources).black == t0.plus(s.board.resources).black);
    assert(t1.plus(board2.resources).gold <= t0.plus(s.board.resources).gold);
    assert(crate::game_state::bank_within(s2));
}

/// The state a build produces, before any turn finalize is considered; named
/// so the main lemma and this one agree on it.
pub open spec fn spec_build_state_of(
    s: GameStateV,
    card: Card,
    reserve_slot: Option<int>,
    rows2: Seq<crate::row::RowV>,
    nobles: Seq<Aristocrat>,
) -> GameStateV {
    let cur = s.current_player_index;
    let p = s.players[cur];
    let rem = card@.cost.minus(deck_production(p.deck));
    let spent = spec_spent_colors(p.resources, rem);
    let p0 = match reserve_slot {
        Some(i) => PlayerV { reserve: p.reserve.remove(i), ..p },
        None => p,
    };
    let p1 = build_pay(p0, card);
    spec_advance(
        GameStateV {
            players: s.players.update(cur, claim_result_player(p1, s.board.aristocrats, nobles)),
            current_player_index: cur,
            board: crate::board::BoardV {
                resources: bank_plus_colors(s.board.resources, spent),
                rows: rows2,
                aristocrats: claim_result_board_nobles(p1, s.board.aristocrats, nobles),
            },
        },
    )
}

/// After a build, the spent colors fit back into the bank without overflow:
/// conservation bounds the bank plus any player's holdings by the session
/// totals.
proof fn lemma_bank_add_fits(s: GameStateV, spent: CostV)
    requires
        wf_state(s),
        spent.green <= s.players[s.current_player_index].resources.green,
        spent.red <= s.players[s.current_player_index].resources.red,
        spent.blue <= s.players[s.current_player_index].resources.blue,
        spent.white <= s.players[s.current_player_index].resources.white,
        spent.black <= s.players[s.current_player_index].resources.black,
    ensures
        s.board.resources.green + spent.green <= 7,
        s.board.resources.red + spent.red <= 7,
        s.board.resources.blue + spent.blue <= 7,
        s.board.resources.white + spent.white <= 7,
        s.board.resources.black + spent.black <= 7,
{
    crate::game_state::lemma_total_holdings_ge_member(s.players, s.current_player_index);
}

} // verus!
