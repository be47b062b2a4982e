//! The fixed, enumerable move catalog and its index contract.
//!
//! The numbering is bit-exact and consumed by outside tools: indices 0-9 are
//! the ten three-distinct-color grants over the fixed five-color ordering,
//! 10-14 the two-of-one-color grants per color in the same ordering, 15-38
//! interleave reserve and build per (tier, slot), 39-41 reserve from each
//! tier's hidden pile, and 42-44 build from each reserve slot.

use vstd::prelude::*;

use crate::card_reference::CardReference;
use crate::moves::{move_wf, Move};
use crate::resource::Resource;

verus! {

/// Size of the catalog.
pub const N_MOVES: usize = 45;

/// The color at a position of the fixed five-color catalog ordering.
pub open spec fn color_at(i: int) -> Resource {
    if i == 0 {
        Resource::Green
    } else if i == 1 {
        Resource::Blue
    } else if i == 2 {
        Resource::Red
    } else if i == 3 {
        Resource::White
    } else {
        Resource::Black
    }
}

/// The move at each catalog index, per the external numbering contract.
pub open spec fn spec_move_at(i: int) -> Move {
    if i == 0 {
        Move::GetThree { first: Resource::Green, second: Resource::Blue, third: Resource::Red }
    } else if i == 1 {
        Move::GetThree { first: Resource::Green, second: Resource::Blue, third: Resource::White }
    } else if i == 2 {
        Move::GetThree { first: Resource::Green, second: Resource::Blue, third: Resource::Black }
    } else if i == 3 {
        Move::GetThree { first: Resource::Green, second: Resource::Red, third: Resource::White }
    } else if i == 4 {
        Move::GetThree { first: Resource::Green, second: Resource::Red, third: Resource::Black }
    } else if i == 5 {
        Move::GetThree { first: Resource::Green, second: Resource::White, third: Resource::Black }
    } else if i == 6 {
        Move::GetThree { first: Resource::Blue, second: Resource::Red, third: Resource::White }
    } else if i == 7 {
        Move::GetThree { first: Resource::Blue, second: Resource::Red, third: Resource::Black }
    } else if i == 8 {
        Move::GetThree { first: Resource::Blue, second: Resource::White, third: Resource::Black }
    } else if i == 9 {
        Move::GetThree { first: Resource::Red, second: Resource::White, third: Resource::Black }
    } else if 10 <= i < 15 {
        Move::GetTwo { resource: color_at(i - 10) }
    } else if 15 <= i < 39 {
        let off = i - 15;
        let tier = off / 8;
        let within = off % 8;
        let slot = within / 2;
        if within % 2 == 0 {
            Move::Reserve {
                card_reference: CardReference { row_index: tier as u8, card_index: slot as usize },
            }
        } else {
            Move::BuildCard {
                card_reference: CardReference { row_index: tier as u8, card_index: slot as usize },
            }
        }
    } else if 39 <= i < 42 {
        Move::ReserveFromHidden { row_index: (i - 39) as u8 }
    } else {
        Move::BuildFromReserve { index: (i - 42) as usize }
    }
}

/// The closed catalog, materialized in index order.
pub struct AllMoves {
    moves: Vec<Move>,
}

impl View for AllMoves {
    type V = Seq<Move>;

    closed spec fn view(&self) -> Seq<Move> {
        self.moves@
    }
}

impl AllMoves {
    /// Build the catalog. Every entry matches the numbering contract and is
    /// structurally well formed.
    pub fn new() -> (r: Self)
        ensures
            r@.len() == N_MOVES,
            forall|i: int| 0 <= i < N_MOVES ==> #[trigger] r@[i] == spec_move_at(i),
            forall|i: int| 0 <= i < N_MOVES ==> move_wf(#[trigger] r@[i]),
    {
        let mut moves: Vec<Move> = Vec::new();
        moves.push(Move::GetThree { first: Resource::Green, second: Resource::Blue, third: Resource::Red });
        proof {
            assert(forall|j: int| 0 <= j < moves@.len() ==> #[trigger] moves@[j] == spec_move_at(j));
        }
        moves.push(Move::GetThree { first: Resource::Green, second: Resource::Blue, third: Resource::White });
        proof {
            assert(forall|j: int| 0 <= j < moves@.len() ==> #[trigger] moves@[j] == spec_move_at(j));
        }
        moves.push(Move::GetThree { first: Resource::Green, second: Resource::Blue, third: Resource::Black });
        proof {
            assert(forall|j: int| 0 <= j < moves@.len() ==> #[trigger] moves@[j] == spec_move_at(j));
        }
        moves.push(Move::GetThree { first: Resource::Green, second: Resource::Red, third: Resource::White });
        proof {
            assert(forall|j: int| 0 <= j < moves@.len() ==> #[trigger] moves@[j] == spec_move_at(j));
        }
        moves.push(Move::GetThree { first: Resource::Green, second: Resource::Red, third: Resource::Black });
        proof {
            assert(forall|j: int| 0 <= j < moves@.len() ==> #[trigger] moves@[j] == spec_move_at(j));
        }
        moves.push(Move::GetThree { first: Resource::Green, second: Resource::White, third: Resource::Black });
        proof {
            assert(forall|j: int| 0 <= j < moves@.len() ==> #[trigger] moves@[j] == spec_move_at(j));
        }
        moves.push(Move::GetThree { first: Resource::Blue, second: Resource::Red, third: Resource::White });
        proof {
            assert(forall|j: int| 0 <= j < moves@.len() ==> #[trigger] moves@[j] == spec_move_at(j));
        }
        moves.push(Move::GetThree { first: Resource::Blue, second: Resource::Red, third: Resource::Black });
        proof {
            assert(forall|j: int| 0 <= j < moves@.len() ==> #[trigger] moves@[j] == spec_move_at(j));
        }
        moves.push(Move::GetThree { first: Resource::Blue, second: Resource::White, third: Resource::Black });
        proof {
            assert(forall|j: int| 0 <= j < moves@.len() ==> #[trigger] moves@[j] == spec_move_at(j));
        }
        moves.push(Move::GetThree { first: Resource::Red, second: Resource::White, third: Resource::Black });
        proof {
            assert(forall|j: int| 0 <= j < moves@.len() ==> #[trigger] moves@[j] == spec_move_at(j));
        }
        moves.push(Move::GetTwo { resource: Resource::Green });
        proof {
            assert(forall|j: int| 0 <= j < moves@.len() ==> #[trigger] moves@[j] == spec_move_at(j));
        }
        moves.push(Move::GetTwo { resource: Resource::Blue });
        proof {
            assert(forall|j: int| 0 <= j < moves@.len() ==> #[trigger] moves@[j] == spec_move_at(j));
        }
        moves.push(Move::GetTwo { resource: Resource::Red });
        proof {
            assert(forall|j: int| 0 <= j < moves@.len() ==> #[trigger] moves@[j] == spec_move_at(j));
        }
        moves.push(Move::GetTwo { resource: Resource::White });
        proof {
            assert(forall|j: int| 0 <= j < moves@.len() ==> #[trigger] moves@[j] == spec_move_at(j));
        }
        moves.push(Move::GetTwo { resource: Resource::Black });
        proof {
            assert(forall|j: int| 0 <= j < moves@.len() ==> #[trigger] moves@[j] == spec_move_at(j));
        }
        moves.push(Move::Reserve { card_reference: CardReference::new(0, 0) });
        proof {
            assert(forall|j: int| 0 <= j < moves@.len() ==> #[trigger] moves@[j] == spec_move_at(j));
        }
        moves.push(Move::BuildCard { card_reference: CardReference::new(0, 0) });
        proof {
            assert(forall|j: int| 0 <= j < moves@.len() ==> #[trigger] moves@[j] == spec_move_at(j));
        }
        moves.push(Move::Reserve { card_reference: CardReference::new(0, 1) });
        proof {
            assert(forall|j: int| 0 <= j < moves@.len() ==> #[trigger] moves@[j] == spec_move_at(j));
        }
        moves.push(Move::BuildCard { card_reference: CardReference::new(0, 1) });
        proof {
            assert(forall|j: int| 0 <= j < moves@.len() ==> #[trigger] moves@[j] == spec_move_at(j));
        }
        moves.push(Move::Reserve { card_reference: CardReference::new(0, 2) });
        proof {
            assert(forall|j: int| 0 <= j < moves@.len() ==> #[trigger] moves@[j] == spec_move_at(j));
        }
        moves.push(Move::BuildCard { card_reference: CardReference::new(0, 2) });
        proof {
            assert(forall|j: int| 0 <= j < moves@.len() ==> #[trigger] moves@[j] == spec_move_at(j));
        }
        moves.push(Move::Reserve { card_reference: CardReference::new(0, 3) });
        proof {
            assert(forall|j: int| 0 <= j < moves@.len() ==> #[trigger] moves@[j] == spec_move_at(j));
        }
        moves.push(Move::BuildCard { card_reference: CardReference::new(0, 3) });
        proof {
            assert(forall|j: int| 0 <= j < moves@.len() ==> #[trigger] moves@[j] == spec_move_at(j));
        }
        moves.push(Move::Reserve { card_reference: CardReference::new(1, 0) });
        proof {
            assert(forall|j: int| 0 <= j < moves@.len() ==> #[trigger] moves@[j] == spec_move_at(j));
        }
        moves.push(Move::BuildCard { card_reference: CardReference::new(1, 0) });
        proof {
            assert(forall|j: int| 0 <= j < moves@.len() ==> #[trigger] moves@[j] == spec_move_at(j));
        }
        moves.push(Move::Reserve { card_reference: CardReference::new(1, 1) });
        proof {
            assert(forall|j: int| 0 <= j < moves@.len() ==> #[trigger] moves@[j] == spec_move_at(j));
        }
        moves.push(Move::BuildCard { card_reference: CardReference::new(1, 1) });
        proof {
            assert(forall|j: int| 0 <= j < moves@.len() ==> #[trigger] moves@[j] == spec_move_at(j));
        }
        moves.push(Move::Reserve { card_reference: CardReference::new(1, 2) });
        proof {
            assert(forall|j: int| 0 <= j < moves@.len() ==> #[trigger] moves@[j] == spec_move_at(j));
        }
        moves.push(Move::BuildCard { card_reference: CardReference::new(1, 2) });
        proof {
            assert(forall|j: int| 0 <= j < moves@.len() ==> #[trigger] moves@[j] == spec_move_at(j));
        }
        moves.push(Move::Reserve { card_reference: CardReference::new(1, 3) });
        proof {
            assert(forall|j: int| 0 <= j < moves@.len() ==> #[trigger] moves@[j] == spec_move_at(j));
        }
        moves.push(Move::BuildCard { card_reference: CardReference::new(1, 3) });
        proof {
            assert(forall|j: int| 0 <= j < moves@.len() ==> #[trigger] moves@[j] == spec_move_at(j));
        }
        moves.push(Move::Reserve { card_reference: CardReference::new(2, 0) });
        proof {
            assert(forall|j: int| 0 <= j < moves@.len() ==> #[trigger] moves@[j] == spec_move_at(j));
        }
        moves.push(Move::BuildCard { card_reference: CardReference::new(2, 0) });
        proof {
            assert(forall|j: int| 0 <= j < moves@.len() ==> #[trigger] moves@[j] == spec_move_at(j));
        }
        moves.push(Move::Reserve { card_reference: CardReference::new(2, 1) });
        proof {
            assert(forall|j: int| 0 <= j < moves@.len() ==> #[trigger] moves@[j] == spec_move_at(j));
        }
        moves.push(Move::BuildCard { card_reference: CardReference::new(2, 1) });
        proof {
            assert(forall|j: int| 0 <= j < moves@.len() ==> #[trigger] moves@[j] == spec_move_at(j));
        }
        moves.push(Move::Reserve { card_reference: CardReference::new(2, 2) });
        proof {
            assert(forall|j: int| 0 <= j < moves@.len() ==> #[trigger] moves@[j] == spec_move_at(j));
        }
        moves.push(Move::BuildCard { card_reference: CardReference::new(2, 2) });
        proof {
            assert(forall|j: int| 0 <= j < moves@.len() ==> #[trigger] moves@[j] == spec_move_at(j));
        }
        moves.push(Move::Reserve { card_reference: CardReference::new(2, 3) });
        proof {
            assert(forall|j: int| 0 <= j < moves@.len() ==> #[trigger] moves@[j] == spec_move_at(j));
        }
        moves.push(Move::BuildCard { card_reference: CardReference::new(2, 3) });
        proof {
            assert(forall|j: int| 0 <= j < moves@.len() ==> #[trigger] moves@[j] == spec_move_at(j));
        }
        moves.push(Move::ReserveFromHidden { row_index: 0 });
        proof {
            assert(forall|j: int| 0 <= j < moves@.len() ==> #[trigger] moves@[j] == spec_move_at(j));
        }
        moves.push(Move::ReserveFromHidden { row_index: 1 });
        proof {
            assert(forall|j: int| 0 <= j < moves@.len() ==> #[trigger] moves@[j] == spec_move_at(j));
        }
        moves.push(Move::ReserveFromHidden { row_index: 2 });
        proof {
            assert(forall|j: int| 0 <= j < moves@.len() ==> #[trigger] moves@[j] == spec_move_at(j));
        }
        moves.push(Move::BuildFromReserve { index: 0 });
        proof {
            assert(forall|j: int| 0 <= j < moves@.len() ==> #[trigger] moves@[j] == spec_move_at(j));
        }
        moves.push(Move::BuildFromReserve { index: 1 });
        proof {
            assert(forall|j: int| 0 <= j < moves@.len() ==> #[trigger] moves@[j] == spec_move_at(j));
        }
        moves.push(Move::BuildFromReserve { index: 2 });
        proof {
            assert(forall|j: int| 0 <= j < moves@.len() ==> #[trigger] moves@[j] == spec_move_at(j));
        }        let r = Self { moves };
        proof {
            assert forall|i: int| 0 <= i < N_MOVES implies move_wf(#[trigger] r@[i]) by {
                assert(r@[i] == spec_move_at(i));
            }
        }
        r
    }

    pub fn get_all(&self) -> (r: &Vec<Move>)
        ensures
            r@ == self@,
    {
        &self.moves
    }

    pub fn len(&self) -> (r: usize)
        ensures
            r == self@.len(),
    {
        self.moves.len()
    }
}

/// A fresh copy of the whole catalog, in index order.
pub fn get_all_moves() -> (r: Vec<Move>)
    ensures
        r@.len() == N_MOVES,
        forall|i: int| 0 <= i < N_MOVES ==> #[trigger] r@[i] == spec_move_at(i),
        forall|i: int| 0 <= i < N_MOVES ==> move_wf(#[trigger] r@[i]),
{
    let all = AllMoves::new();
    all.moves
}

/// The catalog's size.
pub fn get_n_moves() -> (r: usize)
    ensures
        r == N_MOVES,
{
    N_MOVES
}


/// The human-readable description of each catalog index, as a character
/// sequence. Indices outside the catalog map to a fixed marker.
pub open spec fn spec_move_description(i: int) -> Seq<char> {
    if i == 0 {
        "Get 3: Green, Blue, Red"@
    } else if i == 1 {
        "Get 3: Green, Blue, White"@
    } else if i == 2 {
        "Get 3: Green, Blue, Black"@
    } else if i == 3 {
        "Get 3: Green, Red, White"@
    } else if i == 4 {
        "Get 3: Green, Red, Black"@
    } else if i == 5 {
        "Get 3: Green, White, Black"@
    } else if i == 6 {
        "Get 3: Blue, Red, White"@
    } else if i == 7 {
        "Get 3: Blue, Red, Black"@
    } else if i == 8 {
        "Get 3: Blue, White, Black"@
    } else if i == 9 {
        "Get 3: Red, White, Black"@
    } else if i == 10 {
        "Get 2: Green"@
    } else if i == 11 {
        "Get 2: Blue"@
    } else if i == 12 {
        "Get 2: Red"@
    } else if i == 13 {
        "Get 2: White"@
    } else if i == 14 {
        "Get 2: Black"@
    } else if i == 15 {
        "Reserve card from board (Tier 1, Position 0)"@
    } else if i == 16 {
        "Build card from board (Tier 1, Position 0)"@
    } else if i == 17 {
        "Reserve card from board (Tier 1, Position 1)"@
    } else if i == 18 {
        "Build card from board (Tier 1, Position 1)"@
    } else if i == 19 {
        "Reserve card from board (Tier 1, Position 2)"@
    } else if i == 20 {
        "Build card from board (Tier 1, Position 2)"@
    } else if i == 21 {
        "Reserve card from board (Tier 1, Position 3)"@
    } else if i == 22 {
        "Build card from board (Tier 1, Position 3)"@
    } else if i == 23 {
        "Reserve card from board (Tier 2, Position 0)"@
    } else if i == 24 {
        "Build card from board (Tier 2, Position 0)"@
    } else if i == 25 {
        "Reserve card from board (Tier 2, Position 1)"@
    } else if i == 26 {
        "Build card from board (Tier 2, Position 1)"@
    } else if i == 27 {
        "Reserve card from board (Tier 2, Position 2)"@
    } else if i == 28 {
        "Build card from board (Tier 2, Position 2)"@
    } else if i == 29 {
        "Reserve card from board (Tier 2, Position 3)"@
    } else if i == 30 {
        "Build card from board (Tier 2, Position 3)"@
    } else if i == 31 {
        "Reserve card from board (Tier 3, Position 0)"@
    } else if i == 32 {
        "Build card from board (Tier 3, Position 0)"@
    } else if i == 33 {
        "Reserve card from board (Tier 3, Position 1)"@
    } else if i == 34 {
        "Build card from board (Tier 3, Position 1)"@
    } else if i == 35 {
        "Reserve card from board (Tier 3, Position 2)"@
    } else if i == 36 {
        "Build card from board (Tier 3, Position 2)"@
    } else if i == 37 {
        "Reserve card from board (Tier 3, Position 3)"@
    } else if i == 38 {
        "Build card from board (Tier 3, Position 3)"@
    } else if i == 39 {
        "Reserve from hidden deck (Tier 1)"@
    } else if i == 40 {
        "Reserve from hidden deck (Tier 2)"@
    } else if i == 41 {
        "Reserve from hidden deck (Tier 3)"@
    } else if i == 42 {
        "Build from reserve (Slot 0)"@
    } else if i == 43 {
        "Build from reserve (Slot 1)"@
    } else if i == 44 {
        "Build from reserve (Slot 2)"@
    } else {
        "Unknown move index"@
    }
}

/// Decode a catalog index to its human-readable description, matching the
/// external numbering contract.
pub fn decode_move_index(index: usize) -> (r: &'static str)
    ensures
        r@ == spec_move_description(index as int),
{
    match index {
        0 => "Get 3: Green, Blue, Red",
        1 => "Get 3: Green, Blue, White",
        2 => "Get 3: Green, Blue, Black",
        3 => "Get 3: Green, Red, White",
        4 => "Get 3: Green, Red, Black",
        5 => "Get 3: Green, White, Black",
        6 => "Get 3: Blue, Red, White",
        7 => "Get 3: Blue, Red, Black",
        8 => "Get 3: Blue, White, Black",
        9 => "Get 3: Red, White, Black",
        10 => "Get 2: Green",
        11 => "Get 2: Blue",
        12 => "Get 2: Red",
        13 => "Get 2: White",
        14 => "Get 2: Black",
        15 => "Reserve card from board (Tier 1, Position 0)",
        16 => "Build card from board (Tier 1, Position 0)",
        17 => "Reserve card from board (Tier 1, Position 1)",
        18 => "Build card from board (Tier 1, Position 1)",
        19 => "Reserve card from board (Tier 1, Position 2)",
        20 => "Build card from board (Tier 1, Position 2)",
        21 => "Reserve card from board (Tier 1, Position 3)",
        22 => "Build card from board (Tier 1, Position 3)",
        23 => "Reserve card from board (Tier 2, Position 0)",
        24 => "Build card from board (Tier 2, Position 0)",
        25 => "Reserve card from board (Tier 2, Position 1)",
        26 => "Build card from board (Tier 2, Position 1)",
        27 => "Reserve card from board (Tier 2, Position 2)",
        28 => "Build card from board (Tier 2, Position 2)",
        29 => "Reserve card from board (Tier 2, Position 3)",
        30 => "Build card from board (Tier 2, Position 3)",
        31 => "Reserve card from board (Tier 3, Position 0)",
        32 => "Build card from board (Tier 3, Position 0)",
        33 => "Reserve card from board (Tier 3, Position 1)",
        34 => "Build card from board (Tier 3, Position 1)",
        35 => "Reserve card from board (Tier 3, Position 2)",
        36 => "Build card from board (Tier 3, Position 2)",
        37 => "Reserve card from board (Tier 3, Position 3)",
        38 => "Build card from board (Tier 3, Position 3)",
        39 => "Reserve from hidden deck (Tier 1)",
        40 => "Reserve from hidden deck (Tier 2)",
        41 => "Reserve from hidden deck (Tier 3)",
        42 => "Build from reserve (Slot 0)",
        43 => "Build from reserve (Slot 1)",
        44 => "Build from reserve (Slot 2)",
        _ => "Unknown move index",
    }
}

} // verus!
