//! The single unit of truth: ordered players, a turn pointer, and a board.
//! Always immutable: a move consumes a reference and returns a fresh value.

use vstd::prelude::*;

use rand_chacha::ChaCha8Rng;

use crate::aristocrat_storage::N_ARISTOCRATS;
use crate::board::{spec_bank_limit, wf_board, Board, BoardBuilder, BoardV, INITIAL_GOLD};
use crate::card_storage::N_CARDS;
use crate::player::{Player, PlayerBuilder, PlayerV};
use crate::resources::ResourcesV;
use crate::rows::rows_card_count;

verus! {

/// Mathematical model of a [`GameState`].
pub struct GameStateV {
    pub players: Seq<PlayerV>,
    pub current_player_index: int,
    pub board: BoardV,
}

/// Component-wise sum of all players' holdings.
pub open spec fn total_holdings(players: Seq<PlayerV>) -> ResourcesV
    decreases players.len(),
{
    if players.len() == 0 {
        ResourcesV::zero()
    } else {
        total_holdings(players.drop_last()).plus(players.last().resources)
    }
}

pub open spec fn res_nonneg(r: ResourcesV) -> bool {
    0 <= r.green && 0 <= r.red && 0 <= r.blue && 0 <= r.white && 0 <= r.black && 0 <= r.gold
}

/// Per-player invariant. The card-count bound ties the player's cards to the
/// rows' remaining supply: cards only ever move from the rows to reserves and
/// decks, so their joint count never exceeds the table's size.
pub open spec fn wf_player(p: PlayerV, b: BoardV) -> bool {
    &&& res_nonneg(p.resources)
    &&& p.resources.sum() <= 10
    &&& p.reserve.len() <= 3
    &&& p.deck.len() + p.reserve.len() + rows_card_count(b.rows) <= N_CARDS
    &&& p.aristocrats.len() + b.aristocrats.len() <= N_ARISTOCRATS
    &&& (forall|i: int| 0 <= i < p.aristocrats.len() ==> #[trigger] p.aristocrats[i] < N_ARISTOCRATS)
}

/// Token conservation: the bank and all players together never hold more of
/// a color than the session started with. Grants move units from the bank to
/// a player, payments move them back, and spent wildcards leave play.
pub open spec fn bank_within(s: GameStateV) -> bool {
    let total = total_holdings(s.players).plus(s.board.resources);
    let lim = spec_bank_limit(s.players.len() as int);
    &&& total.green <= lim
    &&& total.red <= lim
    &&& total.blue <= lim
    &&& total.white <= lim
    &&& total.black <= lim
    &&& total.gold <= INITIAL_GOLD as int
}

/// Well-formedness of a whole state: a supported player count, a valid turn
/// pointer, a well-formed board, well-formed players, and token conservation.
pub open spec fn wf_state(s: GameStateV) -> bool {
    &&& 2 <= s.players.len() <= 4
    &&& 0 <= s.current_player_index < s.players.len()
    &&& wf_board(s.board)
    &&& res_nonneg(s.board.resources)
    &&& (forall|p: int| 0 <= p < s.players.len() ==> wf_player(#[trigger] s.players[p], s.board))
    &&& bank_within(s)
}

/// Replacing one player's holdings changes the total by exactly the
/// difference of that player's bundles.
pub proof fn lemma_total_holdings_update(players: Seq<PlayerV>, i: int, p: PlayerV)
    requires
        0 <= i < players.len(),
    ensures
        total_holdings(players.update(i, p)) == total_holdings(players).plus(p.resources).plus(
            neg_of(players[i].resources),
        ),
    decreases players.len(),
{
    let updated = players.update(i, p);
    if i == players.len() - 1 {
        assert(updated.drop_last() =~= players.drop_last());
        assert(updated.last() == p);
        assert(total_holdings(updated) == total_holdings(players.drop_last()).plus(p.resources));
        assert(total_holdings(players) == total_holdings(players.drop_last()).plus(
            players[i].resources,
        ));
        assert(total_holdings(updated) =~= total_holdings(players).plus(p.resources).plus(
            neg_of(players[i].resources),
        ));
    } else {
        assert(updated.drop_last() =~= players.drop_last().update(i, p));
        assert(updated.last() == players.last());
        lemma_total_holdings_update(players.drop_last(), i, p);
        assert(players.drop_last()[i] == players[i]);
        assert(total_holdings(updated) =~= total_holdings(players).plus(p.resources).plus(
            neg_of(players[i].resources),
        ));
    }
}

/// The component-wise negation of a bundle, used to state differences.
pub open spec fn neg_of(r: ResourcesV) -> ResourcesV {
    ResourcesV {
        green: -r.green,
        red: -r.red,
        blue: -r.blue,
        white: -r.white,
        black: -r.black,
        gold: -r.gold,
    }
}

/// With every player's holdings non-negative, the total dominates each
/// single player's holdings, component by component.
pub proof fn lemma_total_holdings_ge_member(players: Seq<PlayerV>, i: int)
    requires
        0 <= i < players.len(),
        forall|j: int| 0 <= j < players.len() ==> res_nonneg(#[trigger] players[j].resources),
    ensures
        total_holdings(players).green >= players[i].resources.green,
        total_holdings(players).red >= players[i].resources.red,
        total_holdings(players).blue >= players[i].resources.blue,
        total_holdings(players).white >= players[i].resources.white,
        total_holdings(players).black >= players[i].resources.black,
        total_holdings(players).gold >= players[i].resources.gold,
        res_nonneg(total_holdings(players)),
    decreases players.len(),
{
    if players.len() > 0 {
        if i == players.len() - 1 {
            lemma_total_holdings_nonneg(players.drop_last());
        } else {
            assert(players.drop_last()[i] == players[i]);
            lemma_total_holdings_ge_member(players.drop_last(), i);
        }
    }
}

/// A sum of non-negative bundles is non-negative.
pub proof fn lemma_total_holdings_nonneg(players: Seq<PlayerV>)
    requires
        forall|j: int| 0 <= j < players.len() ==> res_nonneg(#[trigger] players[j].resources),
    ensures
        res_nonneg(total_holdings(players)),
    decreases players.len(),
{
    if players.len() > 0 {
        lemma_total_holdings_nonneg(players.drop_last());
    }
}

/// The ordered players, the turn pointer, and the board. Value semantics
/// throughout: no move ever mutates a state in place.
#[derive(Clone, Debug, PartialEq, Eq)]
pub struct GameState {
    players: Vec<Player>,
    current_player_index: usize,
    board: Board,
}

impl View for GameState {
    type V = GameStateV;

    closed spec fn view(&self) -> GameStateV {
        GameStateV {
            players: self.players@.map_values(|p: Player| p@),
            current_player_index: self.current_player_index as int,
            board: self.board@,
        }
    }
}

impl GameState {
    pub fn get_board(&self) -> (r: &Board)
        ensures
            r@ == self@.board,
    {
        &self.board
    }

    pub fn get_players(&self) -> (r: &Vec<Player>)
        ensures
            r@.map_values(|p: Player| p@) == self@.players,
            r@.len() == self@.players.len(),
            forall|i: int| 0 <= i < r@.len() ==> #[trigger] r@[i]@ == self@.players[i],
    {
        &self.players
    }

    pub fn get_current_player_index(&self) -> (r: usize)
        ensures
            r == self@.current_player_index,
    {
        self.current_player_index
    }

    pub fn get_current_player(&self) -> (r: &Player)
        requires
            0 <= self@.current_player_index < self@.players.len(),
        ensures
            r@ == self@.players[self@.current_player_index],
    {
        &self.players[self.current_player_index]
    }

    /// Assemble a state from parts.
    pub fn from_existing(players: Vec<Player>, current_player_index: usize, board: Board) -> (r:
        GameState)
        ensures
            r@.players == players@.map_values(|p: Player| p@),
            r@.current_player_index == current_player_index,
            r@.board == board@,
    {
        GameState { players, current_player_index, board }
    }

    pub fn to_builder(&self) -> (r: GameStateBuilder)
        ensures
            r@ == self@,
    {
        GameStateBuilder::new(self)
    }

    /// An element-wise copy of this state.
    pub fn duplicate(&self) -> (r: GameState)
        ensures
            r@ == self@,
    {
        self.to_builder().build()
    }

    /// A copy of this state with one player and the board replaced; the turn
    /// pointer is untouched.
    pub fn with_player_and_board(&self, idx: usize, p: Player, board: Board) -> (r: GameState)
        requires
            idx < self@.players.len(),
        ensures
            r@.players == self@.players.update(idx as int, p@),
            r@.board == board@,
            r@.current_player_index == self@.current_player_index,
    {
        let mut players: Vec<Player> = Vec::new();
        let mut i: usize = 0;
        while i < self.players.len()
            invariant
                i <= self.players@.len(),
                idx < self.players@.len(),
                players@.len() == i,
                forall|j: int|
                    0 <= j < i && j != idx ==> #[trigger] players@[j]@ == self.players@[j]@,
                idx < i ==> players@[idx as int]@ == p@,
        decreases self.players.len() - i,
        {
            if i == idx {
                players.push(p.duplicate());
            } else {
                players.push(self.players[i].duplicate());
            }
            i = i + 1;
        }
        let r = GameState { players, current_player_index: self.current_player_index, board };
        proof {
            assert(r@.players =~= self@.players.update(idx as int, p@));
        }
        r
    }

    /// A copy of this state with the turn finalized: the pointer advances by
    /// exactly one, modulo the player count.
    pub fn advance_turn(&self) -> (r: GameState)
        requires
            self@.players.len() > 0,
            self@.current_player_index < self@.players.len(),
        ensures
            r@.players == self@.players,
            r@.board == self@.board,
            r@.current_player_index == (self@.current_player_index + 1) % (
            self@.players.len() as int),
    {
        let n = self.players.len();
        let idx = (self.current_player_index + 1) % n;
        let mut players: Vec<Player> = Vec::new();
        let mut i: usize = 0;
        while i < self.players.len()
            invariant
                i <= self.players@.len(),
                players@.len() == i,
                forall|j: int| 0 <= j < i ==> #[trigger] players@[j]@ == self.players@[j]@,
            decreases self.players.len() - i,
        {
            players.push(self.players[i].duplicate());
            i = i + 1;
        }
        let r = GameState { players, current_player_index: idx, board: self.board.to_builder().build() };
        proof {
            assert(r@.players =~= self@.players);
        }
        r
    }
}

/// A fresh game: empty players, the turn pointer at zero, and a board set up
/// for the given player count.
pub fn create_initial_game_state(n_players: u8, rng: &mut ChaCha8Rng) -> (r: GameState)
    requires
        2 <= n_players <= 4,
    ensures
        wf_state(r@),
        r@.players.len() == n_players,
        r@.current_player_index == 0,
        forall|i: int|
            0 <= i < n_players ==> (#[trigger] r@.players[i]).deck.len() == 0
                && r@.players[i].reserve.len() == 0 && r@.players[i].aristocrats.len() == 0
                && r@.players[i].resources == ResourcesV::zero(),
        r@.board.resources == (ResourcesV {
            green: spec_bank_limit(n_players as int),
            red: spec_bank_limit(n_players as int),
            blue: spec_bank_limit(n_players as int),
            white: spec_bank_limit(n_players as int),
            black: spec_bank_limit(n_players as int),
            gold: INITIAL_GOLD as int,
        }),
        r@.board.aristocrats.len() == n_players,
        forall|t: int| 0 <= t < 3 ==> (#[trigger] r@.board.rows[t]).visible.len() == 4,
        r@.board.rows[0].hidden.len() == 36,
        r@.board.rows[1].hidden.len() == 23,
        r@.board.rows[2].hidden.len() == 16,
{
    let mut players: Vec<Player> = Vec::new();
    let mut i: usize = 0;
    while i < n_players as usize
        invariant
            i <= n_players,
            players@.len() == i,
            forall|j: int|
                0 <= j < i ==> (#[trigger] players@[j]@).deck.len() == 0 && players@[j]@.reserve.len()
                    == 0 && players@[j]@.aristocrats.len() == 0 && players@[j]@.resources
                    == ResourcesV::zero(),
        decreases n_players - i,
    {
        players.push(Player::new());
        i = i + 1;
    }
    let board = Board::new(n_players as usize, rng);
    let r = GameState { players, current_player_index: 0, board };
    proof {
        assert(r@.players.len() == n_players);
        assert forall|j: int| 0 <= j < n_players implies (#[trigger] r@.players[j]).deck.len() == 0
            && r@.players[j].reserve.len() == 0 && r@.players[j].aristocrats.len() == 0
            && r@.players[j].resources == ResourcesV::zero() by {
            assert(r@.players[j] == r.players@[j]@);
        }
        lemma_total_holdings_of_empty(r@.players);
        assert(total_holdings(r@.players).plus(r@.board.resources) =~= r@.board.resources);
        assert(bank_within(r@));
        assert forall|p: int| 0 <= p < r@.players.len() implies wf_player(
            #[trigger] r@.players[p],
            r@.board,
        ) by {
            assert(rows_card_count(r@.board.rows) == N_CARDS as int);
        }
    }
    r
}

/// The holdings total of players who hold nothing is zero.
proof fn lemma_total_holdings_of_empty(players: Seq<PlayerV>)
    requires
        forall|j: int|
            0 <= j < players.len() ==> (#[trigger] players[j]).resources == ResourcesV::zero(),
    ensures
        total_holdings(players) == ResourcesV::zero(),
    decreases players.len(),
{
    if players.len() > 0 {
        lemma_total_holdings_of_empty(players.drop_last());
        assert(total_holdings(players) =~= ResourcesV::zero());
    }
}

/// Mutable shadow of a whole [`GameState`]: the "shadow-then-materialize"
/// update idiom. Decomposing and reassembling without edits round-trips.
pub struct GameStateBuilder {
    pub players: Vec<PlayerBuilder>,
    pub current_player_index: usize,
    pub board: BoardBuilder,
}

impl View for GameStateBuilder {
    type V = GameStateV;

    open spec fn view(&self) -> GameStateV {
        GameStateV {
            players: self.players@.map_values(|p: PlayerBuilder| p@),
            current_player_index: self.current_player_index as int,
            board: self.board@,
        }
    }
}

impl GameStateBuilder {
    pub fn new(game_state: &GameState) -> (r: Self)
        ensures
            r@ == game_state@,
    {
        let mut players: Vec<PlayerBuilder> = Vec::new();
        let mut i: usize = 0;
        while i < game_state.players.len()
            invariant
                i <= game_state.players@.len(),
                players@.len() == i,
                forall|j: int| 0 <= j < i ==> #[trigger] players@[j]@ == game_state.players@[j]@,
            decreases game_state.players.len() - i,
        {
            players.push(game_state.players[i].to_builder());
            i = i + 1;
        }
        let r = Self {
            players,
            current_player_index: game_state.current_player_index,
            board: game_state.board.to_builder(),
        };
        proof {
            assert(r@.players =~= game_state@.players);
        }
        r
    }

    /// The shadow of the player whose turn it is, for in-place edits.
    pub fn get_current_player(&mut self) -> (r: &mut PlayerBuilder)
        requires
            old(self).current_player_index < old(self).players@.len(),
        ensures
            r@ == old(self)@.players[old(self).current_player_index as int],
            final(self).players@.len() == old(self).players@.len(),
            final(self).current_player_index == old(self).current_player_index,
            final(self).board == old(self).board,
            final(self).players@ == old(self).players@.update(
                old(self).current_player_index as int,
                *final(r),
            ),
    {
        let idx = self.current_player_index;
        &mut self.players[idx]
    }

    /// Add resources to the shadow of the player whose turn it is.
    pub fn add_resources_to_player(&mut self, resources_builder: &crate::resources::ResourcesBuilder)
        requires
            old(self).current_player_index < old(self).players@.len(),
            old(self)@.players[old(self).current_player_index as int].resources.green
                + resources_builder@.green <= u8::MAX,
            old(self)@.players[old(self).current_player_index as int].resources.red
                + resources_builder@.red <= u8::MAX,
            old(self)@.players[old(self).current_player_index as int].resources.blue
                + resources_builder@.blue <= u8::MAX,
            old(self)@.players[old(self).current_player_index as int].resources.white
                + resources_builder@.white <= u8::MAX,
            old(self)@.players[old(self).current_player_index as int].resources.black
                + resources_builder@.black <= u8::MAX,
            old(self)@.players[old(self).current_player_index as int].resources.gold
                + resources_builder@.gold <= u8::MAX,
        ensures
            final(self).current_player_index == old(self).current_player_index,
            final(self).board == old(self).board,
            final(self).players@.len() == old(self).players@.len(),
            ({
                let cur = old(self).current_player_index as int;
                let p = old(self)@.players[cur];
                final(self)@.players == old(self)@.players.update(
                    cur,
                    PlayerV { resources: p.resources.plus(resources_builder@), ..p },
                )
            }),
    {
        let p = self.get_current_player();
        p.add_resources(resources_builder);
        proof {
            assert(self@.players =~= old(self)@.players.update(
                old(self).current_player_index as int,
                PlayerV {
                    resources: old(self)@.players[old(self).current_player_index as int].resources.plus(
                        resources_builder@,
                    ),
                    ..old(self)@.players[old(self).current_player_index as int]
                },
            ));
        }
    }

    pub fn build(self) -> (r: GameState)
        ensures
            r@ == self@,
    {
        let mut players: Vec<Player> = Vec::new();
        let mut i: usize = 0;
        while i < self.players.len()
            invariant
                i <= self.players@.len(),
                players@.len() == i,
                forall|j: int| 0 <= j < i ==> #[trigger] players@[j]@ == self.players@[j]@,
            decreases self.players.len() - i,
        {
            players.push(self.players[i].to_player());
            i = i + 1;
        }
        let r = GameState {
            players,
            current_player_index: self.current_player_index,
            board: self.board.build(),
        };
        proof {
            assert(r@.players =~= self@.players);
        }
        r
    }
}

/// Decomposing a state into its shadow representation and reassembling it
/// without edits yields a state observationally equal to the original: the
/// shadow carries the state's whole mathematical value, and rebuilding
/// returns exactly that value.
pub proof fn lemma_builder_round_trip(s: GameState, b: GameStateBuilder, r: GameState)
    requires
        b@ == s@,
        r@ == b@,
    ensures
        r@ == s@,
{
}

} // verus!
