//! Byte encoders for ML feature extraction: the state accessor surface.
//!
//! Two encodings of a row are offered: a one-hot vector over the card table
//! per visible slot, and a compact per-card parameter block. A whole state
//! is serialized per player in turn order, the active player first.

use vstd::prelude::*;

use crate::card::Card;
use crate::card_storage::{CardStorage, N_CARDS};
use crate::game_state::{wf_state, GameState, GameStateV};
use crate::player::{deck_production, points_of, PlayerV};
use crate::resource::Resource;
use crate::row::{wf_row, Row, RowV};

verus! {

/// Bytes of one present card: its point value, its cost in the fixed byte
/// order (green, red, blue, black, white), and a one-hot production color
/// (green, red, blue, white, black).
pub open spec fn spec_card_bytes(c: Card) -> Seq<u8> {
    seq![
        c@.n_points as u8,
        c@.cost.green as u8,
        c@.cost.red as u8,
        c@.cost.blue as u8,
        c@.cost.black as u8,
        c@.cost.white as u8,
        if c@.production == Resource::Green {
            1u8
        } else {
            0u8
        },
        if c@.production == Resource::Red {
            1u8
        } else {
            0u8
        },
        if c@.production == Resource::Blue {
            1u8
        } else {
            0u8
        },
        if c@.production == Resource::White {
            1u8
        } else {
            0u8
        },
        if c@.production == Resource::Black {
            1u8
        } else {
            0u8
        },
    ]
}

/// The placeholder for an absent card: eleven zero bytes.
pub open spec fn spec_absent_card_bytes() -> Seq<u8> {
    seq![0u8, 0u8, 0u8, 0u8, 0u8, 0u8, 0u8, 0u8, 0u8, 0u8, 0u8]
}

/// Append one card descriptor (or the absent placeholder) to `state`.
pub fn add_card_to_state(state: &mut Vec<u8>, card: Option<&Card>)
    ensures
        final(state)@ == old(state)@ + (match card {
            Some(c) => spec_card_bytes(*c),
            None => spec_absent_card_bytes(),
        }),
{
    let ghost base = state@;
    match card {
        Some(c) => {
            state.push(c.n_points());
            state.push(c.cost().n_green());
            state.push(c.cost().n_red());
            state.push(c.cost().n_blue());
            state.push(c.cost().n_black());
            state.push(c.cost().n_white());
            match c.production() {
                Resource::Green => {
                    state.push(1);
                    state.push(0);
                    state.push(0);
                    state.push(0);
                    state.push(0);
                },
                Resource::Red => {
                    state.push(0);
                    state.push(1);
                    state.push(0);
                    state.push(0);
                    state.push(0);
                },
                Resource::Blue => {
                    state.push(0);
                    state.push(0);
                    state.push(1);
                    state.push(0);
                    state.push(0);
                },
                Resource::White => {
                    state.push(0);
                    state.push(0);
                    state.push(0);
                    state.push(1);
                    state.push(0);
                },
                Resource::Black => {
                    state.push(0);
                    state.push(0);
                    state.push(0);
                    state.push(0);
                    state.push(1);
                },
            }
            proof {
                assert(state@ =~= base + spec_card_bytes(*c));
            }
        },
        None => {
            let mut i: usize = 0;
            while i < 11
                invariant
                    i <= 11,
                    state@.len() == base.len() + i,
                    state@ == base + spec_absent_card_bytes().take(i as int),
                decreases 11 - i,
            {
                state.push(0);
                proof {
                    assert(state@ =~= base + spec_absent_card_bytes().take(i + 1));
                }
                i = i + 1;
            }
            proof {
                assert(spec_absent_card_bytes().take(11) =~= spec_absent_card_bytes());
            }
        },
    }
}

/// Width of one visible slot's one-hot block. It exceeds the card table's
/// size: the trailing entries are always zero and pad the block, keeping
/// the byte format's round slot width.
pub const ONE_HOT_WIDTH: usize = 90;

/// One byte of the one-hot row encoding: position `j` covers visible slot
/// `j / ONE_HOT_WIDTH` and card identity `j % ONE_HOT_WIDTH`; it is set
/// exactly when that slot shows that card.
pub open spec fn spec_onehot_row_byte(row: RowV, j: int) -> u8 {
    let slot = j / (ONE_HOT_WIDTH as int);
    let q = j % (ONE_HOT_WIDTH as int);
    if slot < row.visible.len() && row.visible[slot] == q {
        1u8
    } else {
        0u8
    }
}

/// Encodes each visible slot as a one-hot vector over the card table.
pub struct OneHotCardEncoder;

impl OneHotCardEncoder {
    pub fn new() -> (r: Self) {
        OneHotCardEncoder
    }

    /// The one-hot encoding of a row: four slots, one byte per card
    /// identity each, slot blocks padded to the round width.
    pub fn encode_row_exact(&self, row: &Row) -> (r: Vec<u8>)
        requires
            wf_row(row@),
        ensures
            r@.len() == 4 * ONE_HOT_WIDTH,
            forall|j: int| 0 <= j < r@.len() ==> #[trigger] r@[j] == spec_onehot_row_byte(row@, j),
    {
        let total: usize = 4 * ONE_HOT_WIDTH;
        let mut r: Vec<u8> = Vec::new();
        let mut j: usize = 0;
        while j < total
            invariant
                wf_row(row@),
                total == 4 * ONE_HOT_WIDTH,
                j <= total,
                r@.len() == j,
                forall|k: int| 0 <= k < j ==> #[trigger] r@[k] == spec_onehot_row_byte(row@, k),
            decreases total - j,
        {
            let slot = j / ONE_HOT_WIDTH;
            let q = j % ONE_HOT_WIDTH;
            let byte: u8 = if slot < row.n_visible() && row.get_card_id(slot) == q {
                1
            } else {
                0
            };
            r.push(byte);
            j = j + 1;
        }
        r
    }

    pub fn row_encoding_size_exact(&self) -> (r: usize)
        ensures
            r == 4 * ONE_HOT_WIDTH,
    {
        4 * ONE_HOT_WIDTH
    }
}

/// Encodes each visible slot as an eleven-byte parameter block.
pub struct ParameterEncoder;

impl ParameterEncoder {
    pub fn new() -> (r: Self) {
        ParameterEncoder
    }

    /// One card descriptor, or the absent placeholder.
    pub fn encode_card(card: Option<&Card>) -> (r: Vec<u8>)
        ensures
            r@ == (match card {
                Some(c) => spec_card_bytes(*c),
                None => spec_absent_card_bytes(),
            }),
    {
        let mut r: Vec<u8> = Vec::new();
        add_card_to_state(&mut r, card);
        proof {
            match card {
                Some(c) => {
                    assert(r@ =~= spec_card_bytes(*c));
                },
                None => {
                    assert(r@ =~= spec_absent_card_bytes());
                },
            }
        }
        r
    }

    /// The parameter encoding of a row: four slots of eleven bytes each.
    pub fn encode_row_exact(&self, row: &Row, cards: &CardStorage) -> (r: Vec<u8>)
        requires
            wf_row(row@),
            cards@.len() == N_CARDS,
        ensures
            r@ == spec_parameter_row_bytes(row@, cards@, 4),
    {
        let mut r: Vec<u8> = Vec::new();
        let mut position: usize = 0;
        proof {
            assert(spec_parameter_row_bytes(row@, cards@, 0) =~= Seq::<u8>::empty());
            assert(r@ =~= spec_parameter_row_bytes(row@, cards@, 0));
        }
        while position < 4
            invariant
                wf_row(row@),
                cards@.len() == N_CARDS,
                position <= 4,
                r@ == spec_parameter_row_bytes(row@, cards@, position as int),
            decreases 4 - position,
        {
            if row.has_card(position) {
                let card = row.get_card(position, cards);
                add_card_to_state(&mut r, Some(card));
            } else {
                add_card_to_state(&mut r, None);
            }
            position = position + 1;
        }
        r
    }

    pub fn row_encoding_size_exact(&self) -> (r: usize)
        ensures
            r == 44,
    {
        44
    }
}

/// The parameter bytes of the first `n` slots of a row: a present slot
/// contributes its card's descriptor, an absent one the placeholder.
pub open spec fn spec_parameter_row_bytes(row: RowV, cards: Seq<Card>, n: int) -> Seq<u8>
    decreases n,
{
    if n <= 0 {
        Seq::empty()
    } else {
        spec_parameter_row_bytes(row, cards, n - 1) + (if n - 1 < row.visible.len() {
            spec_card_bytes(cards[row.visible[n - 1] as int])
        } else {
            spec_absent_card_bytes()
        })
    }
}

/// A choice of row encoding for serialization. The two spec members pin
/// what each implementation produces, byte for byte, and how long it is.
pub trait StateEncoder {
    /// The bytes this encoder produces for a row.
    spec fn spec_row_bytes(&self, row: RowV, cards: Seq<Card>) -> Seq<u8>;

    /// The fixed length of one encoded row.
    spec fn spec_row_size(&self) -> int;

    fn encode_row(&self, row: &Row, cards: &CardStorage) -> (r: Vec<u8>)
        requires
            wf_row(row@),
            cards@.len() == N_CARDS,
        ensures
            r@ == self.spec_row_bytes(row@, cards@),
            r@.len() == self.spec_row_size(),
    ;

    fn row_encoding_size(&self) -> (r: usize)
        ensures
            r as int == self.spec_row_size(),
    ;
}

impl StateEncoder for OneHotCardEncoder {
    open spec fn spec_row_bytes(&self, row: RowV, cards: Seq<Card>) -> Seq<u8> {
        Seq::new((4 * ONE_HOT_WIDTH) as nat, |j: int| spec_onehot_row_byte(row, j))
    }

    open spec fn spec_row_size(&self) -> int {
        4 * ONE_HOT_WIDTH as int
    }

    fn encode_row(&self, row: &Row, cards: &CardStorage) -> (r: Vec<u8>) {
        let r = self.encode_row_exact(row);
        proof {
            assert(r@ =~= self.spec_row_bytes(row@, cards@));
        }
        r
    }

    fn row_encoding_size(&self) -> (r: usize) {
        self.row_encoding_size_exact()
    }
}

impl StateEncoder for ParameterEncoder {
    open spec fn spec_row_bytes(&self, row: RowV, cards: Seq<Card>) -> Seq<u8> {
        spec_parameter_row_bytes(row, cards, 4)
    }

    open spec fn spec_row_size(&self) -> int {
        44
    }

    fn encode_row(&self, row: &Row, cards: &CardStorage) -> (r: Vec<u8>) {
        let r = self.encode_row_exact(row, cards);
        proof {
            lemma_parameter_row_bytes_len(row@, cards@, 4);
        }
        r
    }

    fn row_encoding_size(&self) -> (r: usize) {
        self.row_encoding_size_exact()
    }
}

/// Each slot contributes eleven bytes to a parameter-encoded row.
proof fn lemma_parameter_row_bytes_len(row: RowV, cards: Seq<Card>, n: int)
    requires
        n >= 0,
    ensures
        spec_parameter_row_bytes(row, cards, n).len() == 11 * n,
    decreases n,
{
    if n > 0 {
        lemma_parameter_row_bytes_len(row, cards, n - 1);
    }
}

/// The clamp applied when a point total is written as one byte.
pub open spec fn spec_clamp_byte(x: int) -> u8 {
    if x > 255 {
        255u8
    } else {
        x as u8
    }
}

/// The fixed twelve-byte head of a player's block: the point total (clamped
/// to a byte), the six holdings, and the five production counts, in the
/// fixed byte order.
pub open spec fn spec_player_head_bytes(p: PlayerV) -> Seq<u8> {
    let res = p.resources;
    let prod = deck_production(p.deck);
    seq![
        spec_clamp_byte(points_of(p)),
        res.green as u8,
        res.red as u8,
        res.blue as u8,
        res.black as u8,
        res.white as u8,
        res.gold as u8,
        prod.green as u8,
        prod.red as u8,
        prod.blue as u8,
        prod.black as u8,
        prod.white as u8,
    ]
}

/// A player's whole block: the head plus three reserve slots.
pub open spec fn spec_player_bytes(p: PlayerV) -> Seq<u8> {
    spec_player_head_bytes(p) + spec_reserve_slot_bytes(p.reserve, 0)
        + spec_reserve_slot_bytes(p.reserve, 1) + spec_reserve_slot_bytes(p.reserve, 2)
}

pub open spec fn spec_reserve_slot_bytes(reserve: Seq<Card>, i: int) -> Seq<u8> {
    if i < reserve.len() {
        spec_card_bytes(reserve[i])
    } else {
        spec_absent_card_bytes()
    }
}

/// Append one player's block to `out`.
fn push_player_bytes(out: &mut Vec<u8>, player: &crate::player::Player)
    requires
        player@.deck.len() <= 100,
        player@.aristocrats.len() <= 10,
        player@.reserve.len() <= 3,
    ensures
        final(out)@ == old(out)@ + spec_player_bytes(player@),
{
    let ghost base = out@;
    let points = player.get_points();
    let clamped: u8 = if points > 255 {
        255
    } else {
        points as u8
    };
    out.push(clamped);
    let res = player.get_resources();
    out.push(res.n_green());
    out.push(res.n_red());
    out.push(res.n_blue());
    out.push(res.n_black());
    out.push(res.n_white());
    out.push(res.n_gold());
    let prod = player.get_production();
    out.push(prod.n_green());
    out.push(prod.n_red());
    out.push(prod.n_blue());
    out.push(prod.n_black());
    out.push(prod.n_white());
    proof {
        assert(out@ =~= base + spec_player_head_bytes(player@));
    }
    let reserve = player.get_reserve();
    let mut i: usize = 0;
    while i < 3
        invariant
            i <= 3,
            player@.reserve.len() <= 3,
            reserve@ == player@.reserve,
            out@ == base + spec_player_head_bytes(player@) + slots_upto(player@.reserve, i as int),
        decreases 3 - i,
    {
        if i < reserve.len() {
            add_card_to_state(out, Some(&reserve[i]));
        } else {
            add_card_to_state(out, None);
        }
        proof {
            assert(out@ =~= base + spec_player_head_bytes(player@) + slots_upto(
                player@.reserve,
                i + 1,
            ));
        }
        i = i + 1;
    }
    proof {
        let rs = player@.reserve;
        assert(slots_upto(rs, 0) =~= Seq::<u8>::empty());
        assert(slots_upto(rs, 1) =~= spec_reserve_slot_bytes(rs, 0));
        assert(slots_upto(rs, 2) == slots_upto(rs, 1) + spec_reserve_slot_bytes(rs, 1));
        assert(slots_upto(rs, 3) == slots_upto(rs, 2) + spec_reserve_slot_bytes(rs, 2));
        assert(slots_upto(rs, 3) =~= spec_reserve_slot_bytes(rs, 0) + spec_reserve_slot_bytes(
            rs,
            1,
        ) + spec_reserve_slot_bytes(rs, 2));
        assert(final(out)@ =~= old(out)@ + spec_player_bytes(player@));
    }
}

/// The concatenated reserve-slot bytes of the first `n` slots.
pub open spec fn slots_upto(reserve: Seq<Card>, n: int) -> Seq<u8>
    decreases n,
{
    if n <= 0 {
        Seq::empty()
    } else {
        slots_upto(reserve, n - 1) + spec_reserve_slot_bytes(reserve, n - 1)
    }
}

/// The concatenated player blocks, in turn order starting at the active
/// player, for the first `k` players.
pub open spec fn spec_players_bytes(s: GameStateV, k: int) -> Seq<u8>
    decreases k,
{
    if k <= 0 {
        Seq::empty()
    } else {
        spec_players_bytes(s, k - 1) + spec_player_bytes(
            s.players[(s.current_player_index + k - 1) % (s.players.len() as int)],
        )
    }
}

/// The concatenated encodings of the first `t` tier rows.
pub open spec fn spec_rows_bytes_upto<E: StateEncoder>(
    enc: E,
    rows: Seq<crate::row::RowV>,
    cards: Seq<Card>,
    t: int,
) -> Seq<u8>
    decreases t,
{
    if t <= 0 {
        Seq::empty()
    } else {
        spec_rows_bytes_upto(enc, rows, cards, t - 1) + enc.spec_row_bytes(rows[t - 1], cards)
    }
}

/// A player's block is 45 bytes: the twelve-byte head and three eleven-byte
/// reserve slots.
pub proof fn lemma_player_bytes_len(p: PlayerV)
    ensures
        spec_player_bytes(p).len() == 45,
{
}

/// The concatenated player blocks of the first `k` players are `45 * k`
/// bytes.
pub proof fn lemma_players_bytes_len(s: GameStateV, k: int)
    requires
        k >= 0,
    ensures
        spec_players_bytes(s, k).len() == 45 * k,
    decreases k,
{
    if k > 0 {
        lemma_players_bytes_len(s, k - 1);
        lemma_player_bytes_len(
            s.players[(s.current_player_index + k - 1) % (s.players.len() as int)],
        );
    }
}

/// Serialize a whole state: every player's block in turn order, the active
/// player first, followed by the three rows under the chosen encoder.
pub fn game_state_to_bytes<E: StateEncoder>(
    game_state: &GameState,
    encoder: &E,
    cards: &CardStorage,
) -> (r: Vec<u8>)
    requires
        wf_state(game_state@),
        cards@.len() == N_CARDS,
    ensures
        r@ == spec_players_bytes(game_state@, game_state@.players.len() as int)
            + spec_rows_bytes_upto(*encoder, game_state@.board.rows, cards@, 3),
        r@.len() == 45 * game_state@.players.len() + 3 * encoder.spec_row_size(),
{
    let mut out: Vec<u8> = Vec::new();
    let players = game_state.get_players();
    let n = players.len();
    let cur = game_state.get_current_player_index();
    let mut k: usize = 0;
    proof {
        assert(out@ =~= spec_players_bytes(game_state@, 0));
    }
    while k < n
        invariant
            wf_state(game_state@),
            cards@.len() == N_CARDS,
            n == game_state@.players.len(),
            players@.len() == n,
            forall|i: int|
                0 <= i < n ==> #[trigger] players@[i]@ == game_state@.players[i],
            cur == game_state@.current_player_index,
            cur < n,
            k <= n,
            out@ == spec_players_bytes(game_state@, k as int),
        decreases n - k,
    {
        let idx = (cur + k) % n;
        proof {
            assert(crate::game_state::wf_player(game_state@.players[idx as int], game_state@.board));
        }
        push_player_bytes(&mut out, &players[idx]);
        proof {
            assert((game_state@.current_player_index + (k + 1) - 1) % (
            game_state@.players.len() as int) == idx as int);
        }
        k = k + 1;
    }
    let ghost players_part = out@;
    let rows = game_state.get_board().get_rows();
    let mut t: u8 = 0;
    proof {
        assert(out@ =~= players_part + spec_rows_bytes_upto(
            *encoder,
            game_state@.board.rows,
            cards@,
            0,
        ));
    }
    while t < 3
        invariant
            wf_state(game_state@),
            cards@.len() == N_CARDS,
            rows@ == game_state@.board.rows,
            t <= 3,
            players_part == spec_players_bytes(game_state@, game_state@.players.len() as int),
            out@ == players_part + spec_rows_bytes_upto(
                *encoder,
                game_state@.board.rows,
                cards@,
                t as int,
            ),
            out@.len() == players_part.len() + (t as int) * encoder.spec_row_size(),
        decreases 3 - t,
    {
        proof {
            assert(wf_row(game_state@.board.rows[t as int]));
        }
        let mut row_bytes = encoder.encode_row(rows.get_row(t), cards);
        out.append(&mut row_bytes);
        proof {
            assert(out@ =~= players_part + spec_rows_bytes_upto(
                *encoder,
                game_state@.board.rows,
                cards@,
                t + 1,
            ));
            assert((t as int + 1) * encoder.spec_row_size() == (t as int)
                * encoder.spec_row_size() + encoder.spec_row_size()) by (nonlinear_arith);
        }
        t = t + 1;
    }
    proof {
        lemma_players_bytes_len(game_state@, game_state@.players.len() as int);
    }
    out
}

} // verus!
