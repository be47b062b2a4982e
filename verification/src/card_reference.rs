//! A slot address on the board: a tier and a position in its visible window.

use vstd::prelude::*;

use crate::board::Board;
use crate::card::Card;
use crate::card_storage::CardStorage;

verus! {

/// Addresses one visible slot of one tier's row.
#[derive(Clone, Copy, Debug, PartialEq, Eq, Structural)]
pub struct CardReference {
    pub row_index: u8,
    pub card_index: usize,
}

impl CardReference {
    pub fn new(row_index: u8, card_index: usize) -> (r: Self)
        ensures
            r.row_index == row_index,
            r.card_index == card_index,
    {
        Self { row_index, card_index }
    }

    pub open spec fn spec_row_index(self) -> int {
        self.row_index as int
    }

    pub open spec fn spec_card_index(self) -> int {
        self.card_index as int
    }

    /// Whether the addressed slot is populated on the given board.
    pub fn is_in_board(&self, board: &Board) -> (r: bool)
        requires
            self.row_index < 3,
            board@.rows.len() == 3,
        ensures
            r == (self.spec_card_index() < board@.rows[self.spec_row_index()].visible.len()),
    {
        board.get_rows().get_row(self.row_index).has_card(self.card_index)
    }

    /// The card in the addressed slot, looked up in the session's table.
    pub fn get_from_board<'a>(&self, board: &Board, cards: &'a CardStorage) -> (r: &'a Card)
        requires
            self.row_index < 3,
            board@.rows.len() == 3,
            self.spec_card_index() < board@.rows[self.spec_row_index()].visible.len(),
            board@.rows[self.spec_row_index()].visible[self.spec_card_index()] < cards@.len(),
        ensures
            *r == cards@[board@.rows[self.spec_row_index()].visible[self.spec_card_index()] as int],
    {
        board.get_rows().get_row(self.row_index).get_card(self.card_index, cards)
    }

    pub fn get_row_index(&self) -> (r: u8)
        ensures
            r == self.row_index,
    {
        self.row_index
    }

    pub fn get_card_index(&self) -> (r: usize)
        ensures
            r == self.card_index,
    {
        self.card_index
    }
}

} // verus!
