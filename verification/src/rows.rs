//! The three tiers' card supplies.

use vstd::prelude::*;

use rand_chacha::ChaCha8Rng;

use crate::card_storage::{N_CARDS, SECOND_TIER_START, THIRD_TIER_START};
use crate::rng::shuffled_range;
use crate::row::{wf_row, Row, RowBuilder, RowV};

verus! {

/// Total number of cards the three rows still hold.
pub open spec fn rows_card_count(rows: Seq<RowV>) -> int
    recommends
        rows.len() == 3,
{
    rows[0].card_count() + rows[1].card_count() + rows[2].card_count()
}

/// The three tiers' supplies, lowest tier first.
#[derive(Clone, Debug, PartialEq, Eq)]
pub struct Rows {
    row0: Row,
    row1: Row,
    row2: Row,
}

impl View for Rows {
    type V = Seq<RowV>;

    closed spec fn view(&self) -> Seq<RowV> {
        seq![self.row0@, self.row1@, self.row2@]
    }
}

impl Rows {
    /// Deal the three rows: each tier's segment of the card table is put in a
    /// uniformly random order, the first four cards forming the visible
    /// window and the rest the hidden pile.
    pub fn new(rng: &mut ChaCha8Rng) -> (r: Rows)
        ensures
            r@.len() == 3,
            forall|t: int| 0 <= t < 3 ==> wf_row(#[trigger] r@[t]),
            r@[0].visible.len() == 4 && r@[0].hidden.len() == 36,
            r@[1].visible.len() == 4 && r@[1].hidden.len() == 23,
            r@[2].visible.len() == 4 && r@[2].hidden.len() == 16,
            rows_card_count(r@) == N_CARDS,
    {
        let first_tier_indices = shuffled_range(rng, 0, SECOND_TIER_START);
        let second_tier_indices = shuffled_range(rng, SECOND_TIER_START, THIRD_TIER_START);
        let third_tier_indices = shuffled_range(rng, THIRD_TIER_START, N_CARDS);
        let r0 = Row::new(first_tier_indices);
        let r1 = Row::new(second_tier_indices);
        let r2 = Row::new(third_tier_indices);
        let r = Rows { row0: r0, row1: r1, row2: r2 };
        proof {
            assert(r@[0] == r0@);
            assert(r@[1] == r1@);
            assert(r@[2] == r2@);
        }
        r
    }

    pub fn get_row(&self, index: u8) -> (r: &Row)
        requires
            index < 3,
        ensures
            r@ == self@[index as int],
    {
        match index {
            0 => &self.row0,
            1 => &self.row1,
            _ => &self.row2,
        }
    }

    /// A copy of these rows with one tier's supply replaced.
    pub fn replace_row(&self, updated_row: Row, updated_row_index: u8) -> (r: Self)
        requires
            updated_row_index < 3,
        ensures
            r@ == self@.update(updated_row_index as int, updated_row@),
    {
        let r = match updated_row_index {
            0 => Self { row0: updated_row, row1: self.row1.duplicate(), row2: self.row2.duplicate() },
            1 => Self { row0: self.row0.duplicate(), row1: updated_row, row2: self.row2.duplicate() },
            _ => Self { row0: self.row0.duplicate(), row1: self.row1.duplicate(), row2: updated_row },
        };
        proof {
            assert(r@ =~= self@.update(updated_row_index as int, updated_row@));
        }
        r
    }

    pub fn to_builder(&self) -> (r: RowsBuilder)
        ensures
            r@ == self@,
    {
        RowsBuilder::new(self)
    }
}

/// Mutable shadow of [`Rows`].
pub struct RowsBuilder {
    pub rows: (RowBuilder, RowBuilder, RowBuilder),
}

impl View for RowsBuilder {
    type V = Seq<RowV>;

    open spec fn view(&self) -> Seq<RowV> {
        seq![self.rows.0@, self.rows.1@, self.rows.2@]
    }
}

impl RowsBuilder {
    pub fn new(rows: &Rows) -> (r: Self)
        ensures
            r@ == rows@,
    {
        let r = Self {
            rows: (rows.get_row(0).to_builder(), rows.get_row(1).to_builder(), rows.get_row(
                2,
            ).to_builder()),
        };
        proof {
            assert(r@ =~= rows@);
        }
        r
    }

    /// The shadow of one tier's supply, for in-place edits.
    pub fn get(&mut self, index: u8) -> (r: &mut RowBuilder)
        requires
            index < 3,
        ensures
            r@ == old(self)@[index as int],
            final(self)@.len() == 3,
            final(self)@[index as int] == final(r)@,
            forall|j: int| 0 <= j < 3 && j != index ==> final(self)@[j] == old(self)@[j],
    {
        match index {
            0 => &mut self.rows.0,
            1 => &mut self.rows.1,
            _ => &mut self.rows.2,
        }
    }

    pub fn replace(&mut self, updated_row: RowBuilder, updated_row_index: u8)
        requires
            updated_row_index < 3,
        ensures
            final(self)@ == old(self)@.update(updated_row_index as int, updated_row@),
    {
        match updated_row_index {
            0 => { self.rows.0 = updated_row },
            1 => { self.rows.1 = updated_row },
            _ => { self.rows.2 = updated_row },
        }
        proof {
            assert(self@ =~= old(self)@.update(updated_row_index as int, updated_row@));
        }
    }

    pub fn build(self) -> (r: Rows)
        ensures
            r@ == self@,
    {
        Rows { row0: self.rows.0.build(), row1: self.rows.1.build(), row2: self.rows.2.build() }
    }
}

} // verus!
