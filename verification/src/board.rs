//! The shared board: the bank, the three rows, and the nobles in play.

use vstd::prelude::*;

use rand_chacha::ChaCha8Rng;

use crate::aristocrat::Aristocrat;
use crate::aristocrat_storage::{AristocratStorage, N_ARISTOCRATS};
use crate::resources::{Resources, ResourcesBuilder, ResourcesV};
use crate::rng::rand_below;
use crate::row::{wf_row, RowV};
use crate::rows::{rows_card_count, Rows, RowsBuilder};

verus! {

/// Wildcard units the bank starts with.
pub const INITIAL_GOLD: u8 = 5;

/// Units of each color the bank starts with, by player count.
pub open spec fn spec_bank_limit(n_players: int) -> int {
    if n_players == 2 {
        4
    } else if n_players == 3 {
        5
    } else {
        7
    }
}

/// Mathematical model of a [`Board`]. Nobles are indices into the session's
/// noble table.
pub struct BoardV {
    pub resources: ResourcesV,
    pub rows: Seq<RowV>,
    pub aristocrats: Seq<usize>,
}

/// A board is well formed when it has exactly three well-formed rows and a
/// distinct set of noble indices pointing into the noble table.
pub open spec fn wf_board(b: BoardV) -> bool {
    &&& b.rows.len() == 3
    &&& (forall|t: int| 0 <= t < 3 ==> wf_row(#[trigger] b.rows[t]))
    &&& b.aristocrats.no_duplicates()
    &&& b.aristocrats.len() <= N_ARISTOCRATS
    &&& (forall|i: int| 0 <= i < b.aristocrats.len() ==> #[trigger] b.aristocrats[i] < N_ARISTOCRATS)
}

/// The bank, the card supply, and the subset of nobles still claimable.
#[derive(Clone, Debug, PartialEq, Eq)]
pub struct Board {
    resources: Resources,
    rows: Rows,
    aristocrats: Vec<usize>,
}

impl View for Board {
    type V = BoardV;

    closed spec fn view(&self) -> BoardV {
        BoardV { resources: self.resources@, rows: self.rows@, aristocrats: self.aristocrats@ }
    }
}

impl Board {
    /// Set up a fresh board: the bank filled by player count, the rows dealt,
    /// and one noble drawn per player, all distinct.
    pub fn new(n_aristocrats: usize, rng: &mut ChaCha8Rng) -> (r: Self)
        requires
            2 <= n_aristocrats <= 4,
        ensures
            wf_board(r@),
            r@.resources == (ResourcesV {
                green: spec_bank_limit(n_aristocrats as int),
                red: spec_bank_limit(n_aristocrats as int),
                blue: spec_bank_limit(n_aristocrats as int),
                white: spec_bank_limit(n_aristocrats as int),
                black: spec_bank_limit(n_aristocrats as int),
                gold: INITIAL_GOLD as int,
            }),
            r@.aristocrats.len() == n_aristocrats,
            rows_card_count(r@.rows) == crate::card_storage::N_CARDS,
            forall|t: int| 0 <= t < 3 ==> (#[trigger] r@.rows[t]).visible.len() == 4,
            r@.rows[0].hidden.len() == 36,
            r@.rows[1].hidden.len() == 23,
            r@.rows[2].hidden.len() == 16,
    {
        let n_resources: u8 = match n_aristocrats {
            2 => 4,
            3 => 5,
            _ => 7,
        };
        let aristocrats = draw_distinct_nobles(rng, n_aristocrats);
        Self {
            resources: Resources::new(
                n_resources,
                n_resources,
                n_resources,
                n_resources,
                n_resources,
                INITIAL_GOLD,
            ),
            rows: Rows::new(rng),
            aristocrats,
        }
    }

    pub fn get_rows(&self) -> (r: &Rows)
        ensures
            r@ == self@.rows,
    {
        &self.rows
    }

    pub fn get_resources(&self) -> (r: &Resources)
        ensures
            r@ == self@.resources,
    {
        &self.resources
    }

    /// The indices of the nobles still in play.
    pub fn get_aristocrat_ids(&self) -> (r: &Vec<usize>)
        ensures
            r@ == self@.aristocrats,
    {
        &self.aristocrats
    }

    /// The nobles still in play, looked up in the session's table.
    pub fn get_aristocrats(&self, storage: &AristocratStorage) -> (r: Vec<Aristocrat>)
        requires
            storage@.len() == N_ARISTOCRATS,
            forall|i: int|
                0 <= i < self@.aristocrats.len() ==> #[trigger] self@.aristocrats[i]
                    < N_ARISTOCRATS,
        ensures
            r@.len() == self@.aristocrats.len(),
            forall|i: int|
                0 <= i < r@.len() ==> #[trigger] r@[i] == storage@[self@.aristocrats[i] as int],
    {
        let mut r: Vec<Aristocrat> = Vec::new();
        let mut i: usize = 0;
        while i < self.aristocrats.len()
            invariant
                i <= self@.aristocrats.len(),
                self@.aristocrats == self.aristocrats@,
                storage@.len() == N_ARISTOCRATS,
                forall|k: int|
                    0 <= k < self@.aristocrats.len() ==> #[trigger] self@.aristocrats[k]
                        < N_ARISTOCRATS,
                r@.len() == i,
                forall|k: int|
                    0 <= k < i ==> #[trigger] r@[k] == storage@[self@.aristocrats[k] as int],
            decreases self.aristocrats.len() - i,
        {
            r.push(*storage.get_aristocrat(self.aristocrats[i]));
            i = i + 1;
        }
        r
    }

    pub fn to_builder(&self) -> (r: BoardBuilder)
        ensures
            r@ == self@,
    {
        BoardBuilder::new(self)
    }
}

/// Draw `n` distinct noble indices uniformly from the table's range.
fn draw_distinct_nobles(rng: &mut ChaCha8Rng, n: usize) -> (r: Vec<usize>)
    requires
        n <= N_ARISTOCRATS,
    ensures
        r@.len() == n,
        r@.no_duplicates(),
        forall|i: int| 0 <= i < n ==> #[trigger] r@[i] < N_ARISTOCRATS,
{
    let mut pool: Vec<usize> = Vec::new();
    let mut i: usize = 0;
    while i < N_ARISTOCRATS
        invariant
            i <= N_ARISTOCRATS,
            pool@.len() == i,
            forall|j: int| 0 <= j < i ==> #[trigger] pool@[j] == j,
        decreases N_ARISTOCRATS - i,
    {
        pool.push(i);
        i = i + 1;
    }
    let mut chosen: Vec<usize> = Vec::new();
    let mut k: usize = 0;
    while k < n
        invariant
            k <= n <= N_ARISTOCRATS,
            chosen@.len() == k,
            pool@.len() == N_ARISTOCRATS - k,
            chosen@.no_duplicates(),
            forall|j: int| 0 <= j < pool@.len() ==> #[trigger] pool@[j] < N_ARISTOCRATS,
            forall|j: int| 0 <= j < chosen@.len() ==> #[trigger] chosen@[j] < N_ARISTOCRATS,
            forall|a: int, b: int|
                0 <= a < chosen@.len() && 0 <= b < pool@.len() ==> chosen@[a] != pool@[b],
            pool@.no_duplicates(),
        decreases n - k,
    {
        let j = rand_below(rng, pool.len());
        let picked = pool.remove(j);
        chosen.push(picked);
        k = k + 1;
    }
    chosen
}

/// Mutable shadow of a [`Board`].
pub struct BoardBuilder {
    pub resources: ResourcesBuilder,
    pub rows: RowsBuilder,
    pub aristocrats: Vec<usize>,
}

impl View for BoardBuilder {
    type V = BoardV;

    open spec fn view(&self) -> BoardV {
        BoardV { resources: self.resources@, rows: self.rows@, aristocrats: self.aristocrats@ }
    }
}

impl BoardBuilder {
    pub fn new(board: &Board) -> (r: Self)
        ensures
            r@ == board@,
    {
        Self {
            resources: board.resources.to_builder(),
            rows: board.rows.to_builder(),
            aristocrats: crate::player::copy_indices(&board.aristocrats),
        }
    }

    pub fn build(self) -> (r: Board)
        ensures
            r@ == self@,
    {
        Board {
            resources: self.resources.build(),
            rows: self.rows.build(),
            aristocrats: self.aristocrats,
        }
    }
}

} // verus!
