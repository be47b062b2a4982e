//! One tier's card supply: a bounded visible window and a hidden backing
//! pile, both held as indices into the session's card table.

use vstd::prelude::*;

use crate::card::Card;
use crate::card_storage::{CardStorage, N_CARDS};
use crate::player::copy_indices;

verus! {

/// Width of the visible window.
pub const CARD_COUNT: usize = 4;

/// Mathematical model of a [`Row`].
pub struct RowV {
    pub visible: Seq<usize>,
    pub hidden: Seq<usize>,
}

impl RowV {
    /// Total number of cards the row still holds.
    pub open spec fn card_count(self) -> int {
        self.visible.len() + self.hidden.len() as int
    }
}

/// A row is well formed when its window is within bounds, the window is only
/// short once the hidden pile is exhausted, and every index points into the
/// card table.
pub open spec fn wf_row(r: RowV) -> bool {
    &&& r.visible.len() <= CARD_COUNT
    &&& (r.hidden.len() > 0 ==> r.visible.len() == CARD_COUNT)
    &&& (forall|i: int| 0 <= i < r.visible.len() ==> r.visible[i] < N_CARDS)
    &&& (forall|i: int| 0 <= i < r.hidden.len() ==> r.hidden[i] < N_CARDS)
}

/// The row after the visible card in slot `i` is taken: the slot is vacated
/// and immediately refilled from the top of the hidden pile if one remains,
/// else the window shrinks.
pub open spec fn spec_remove_visible(r: RowV, i: int) -> RowV {
    let vis = r.visible.remove(i);
    if r.hidden.len() > 0 {
        RowV { visible: vis.push(r.hidden[0]), hidden: r.hidden.drop_first() }
    } else {
        RowV { visible: vis, hidden: r.hidden }
    }
}

/// The row after the top hidden card is taken unseen.
pub open spec fn spec_remove_hidden(r: RowV) -> RowV {
    RowV { visible: r.visible, hidden: r.hidden.drop_first() }
}

/// Taking a card never changes the total a row holds by more than one, and
/// a well-formed row stays well formed.
pub proof fn lemma_remove_visible_wf(r: RowV, i: int)
    requires
        wf_row(r),
        0 <= i < r.visible.len(),
    ensures
        wf_row(spec_remove_visible(r, i)),
        spec_remove_visible(r, i).card_count() == r.card_count() - 1,
{
}

pub proof fn lemma_remove_hidden_wf(r: RowV)
    requires
        wf_row(r),
        r.hidden.len() > 0,
    ensures
        wf_row(spec_remove_hidden(r)),
        spec_remove_hidden(r).card_count() == r.card_count() - 1,
{
}

/// A tier's supply: up to four visible slots backed by a hidden pile.
#[derive(Clone, Debug, PartialEq, Eq)]
pub struct Row {
    visible: Vec<usize>,
    hidden: Vec<usize>,
}

impl View for Row {
    type V = RowV;

    closed spec fn view(&self) -> RowV {
        RowV { visible: self.visible@, hidden: self.hidden@ }
    }
}

impl Row {
    /// Deal a fresh row: the first up-to-four indices become the visible
    /// window, the rest the hidden pile.
    pub fn new(card_indices: Vec<usize>) -> (r: Row)
        ensures
            r@.visible == card_indices@.take(spec_min_window(card_indices@.len() as int)),
            r@.hidden == card_indices@.skip(spec_min_window(card_indices@.len() as int)),
    {
        let cut: usize = if card_indices.len() < CARD_COUNT {
            card_indices.len()
        } else {
            CARD_COUNT
        };
        let mut visible: Vec<usize> = Vec::new();
        let mut i: usize = 0;
        while i < cut
            invariant
                i <= cut <= card_indices@.len(),
                visible@ == card_indices@.take(i as int),
            decreases cut - i,
        {
            visible.push(card_indices[i]);
            proof {
                assert(visible@ =~= card_indices@.take(i + 1));
            }
            i = i + 1;
        }
        let mut hidden: Vec<usize> = Vec::new();
        let mut j: usize = cut;
        while j < card_indices.len()
            invariant
                cut <= j <= card_indices@.len(),
                hidden@ == card_indices@.subrange(cut as int, j as int),
            decreases card_indices.len() - j,
        {
            hidden.push(card_indices[j]);
            proof {
                assert(hidden@ =~= card_indices@.subrange(cut as int, j + 1));
            }
            j = j + 1;
        }
        proof {
            assert(card_indices@.subrange(cut as int, card_indices@.len() as int) =~= card_indices@.skip(cut as int));
        }
        Row { visible, hidden }
    }

    pub fn has_card(&self, index: usize) -> (r: bool)
        ensures
            r == (index < self@.visible.len()),
    {
        index < self.visible.len()
    }

    /// The table index of the card in visible slot `index`.
    pub fn get_card_id(&self, index: usize) -> (r: usize)
        requires
            index < self@.visible.len(),
        ensures
            r == self@.visible[index as int],
    {
        self.visible[index]
    }

    /// The card in visible slot `index`, looked up in the session's table.
    pub fn get_card<'a>(&self, index: usize, cards: &'a CardStorage) -> (r: &'a Card)
        requires
            index < self@.visible.len(),
            self@.visible[index as int] < cards@.len(),
        ensures
            *r == cards@[self@.visible[index as int] as int],
    {
        cards.get_card(self.visible[index])
    }

    pub fn n_visible(&self) -> (r: usize)
        ensures
            r == self@.visible.len(),
    {
        self.visible.len()
    }

    pub fn n_hidden(&self) -> (r: usize)
        ensures
            r == self@.hidden.len(),
    {
        self.hidden.len()
    }

    /// The hidden pile, looked up in the session's table.
    pub fn get_hidden(&self, cards: &CardStorage) -> (r: Vec<Card>)
        requires
            forall|i: int| 0 <= i < self@.hidden.len() ==> self@.hidden[i] < cards@.len(),
        ensures
            r@.len() == self@.hidden.len(),
            forall|i: int| 0 <= i < r@.len() ==> r@[i] == cards@[self@.hidden[i] as int],
    {
        let mut r: Vec<Card> = Vec::new();
        let mut i: usize = 0;
        while i < self.hidden.len()
            invariant
                i <= self@.hidden.len(),
                self@.hidden == self.hidden@,
                forall|k: int| 0 <= k < self@.hidden.len() ==> self@.hidden[k] < cards@.len(),
                r@.len() == i,
                forall|k: int| 0 <= k < i ==> r@[k] == cards@[self@.hidden[k] as int],
            decreases self.hidden.len() - i,
        {
            r.push(*cards.get_card(self.hidden[i]));
            i = i + 1;
        }
        r
    }

    pub fn to_builder(&self) -> (r: RowBuilder)
        ensures
            r@ == self@,
    {
        RowBuilder::new(self)
    }

    /// An element-wise copy of this row.
    pub fn duplicate(&self) -> (r: Row)
        ensures
            r@ == self@,
    {
        Row { visible: copy_indices(&self.visible), hidden: copy_indices(&self.hidden) }
    }
}

/// The window a deal of `n` cards produces: at most four.
pub open spec fn spec_min_window(n: int) -> int {
    if n < CARD_COUNT {
        n
    } else {
        CARD_COUNT as int
    }
}

/// Mutable shadow of a [`Row`].
pub struct RowBuilder {
    visible: Vec<usize>,
    hidden: Vec<usize>,
}

impl View for RowBuilder {
    type V = RowV;

    closed spec fn view(&self) -> RowV {
        RowV { visible: self.visible@, hidden: self.hidden@ }
    }
}

impl RowBuilder {
    pub fn new(row: &Row) -> (r: Self)
        ensures
            r@ == row@,
    {
        Self { visible: copy_indices(&row.visible), hidden: copy_indices(&row.hidden) }
    }

    /// Take the visible card in slot `index`, refilling the slot from the
    /// hidden pile when one remains. Returns the taken card's table index.
    pub fn remove(&mut self, index: usize) -> (r: usize)
        requires
            index < old(self)@.visible.len(),
        ensures
            r == old(self)@.visible[index as int],
            final(self)@ == spec_remove_visible(old(self)@, index as int),
    {
        let card_index = self.visible.remove(index);
        if self.hidden.len() > 0 {
            let refill = self.hidden.remove(0);
            self.visible.push(refill);
            proof {
                assert(old(self)@.hidden.drop_first() =~= old(self)@.hidden.subrange(
                    1,
                    old(self)@.hidden.len() as int,
                ));
            }
        }
        card_index
    }

    /// Take the top hidden card unseen. Returns its table index.
    pub fn remove_from_hidden(&mut self) -> (r: usize)
        requires
            old(self)@.hidden.len() > 0,
        ensures
            r == old(self)@.hidden[0],
            final(self)@ == spec_remove_hidden(old(self)@),
    {
        let r = self.hidden.remove(0);
        proof {
            assert(old(self)@.hidden.drop_first() =~= old(self)@.hidden.subrange(
                1,
                old(self)@.hidden.len() as int,
            ));
        }
        r
    }

    pub fn build(self) -> (r: Row)
        ensures
            r@ == self@,
    {
        Row { visible: self.visible, hidden: self.hidden }
    }
}

} // verus!
