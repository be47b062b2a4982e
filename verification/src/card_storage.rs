//! The fixed table of development cards for a session.
//!
//! The table is owned configuration, constructed once at session start and
//! threaded through explicitly; game states refer to cards by index into it.

use vstd::prelude::*;

use crate::card::{Card, Tier};
use crate::cost::Cost;
use crate::resource::Resource;

verus! {

/// Number of cards in the table. The first 40 belong to the first tier, the
/// next 27 to the second, the last 20 to the third.
pub const N_CARDS: usize = 87;

pub const FIRST_TIER_START: usize = 0;

pub const SECOND_TIER_START: usize = 40;

pub const THIRD_TIER_START: usize = 67;

/// The card table: the closed catalog of development cards. What each card
/// holds is configuration data, out of the rules' scope; the contracts pin
/// the table's size, which the state model's well-formedness relies on.
pub struct CardStorage {
    cards: Vec<Card>,
}

impl View for CardStorage {
    type V = Seq<Card>;

    closed spec fn view(&self) -> Seq<Card> {
        self.cards@
    }
}

impl CardStorage {
    pub fn new() -> (r: Self)
        ensures
            r@.len() == N_CARDS,
    {
        let mut cards: Vec<Card> = Vec::new();
        cards.push(Card::new(Cost::new(1, 1, 1, 1, 0), Resource::Black, 0, Tier::First));
        cards.push(Card::new(Cost::new(1, 1, 2, 1, 0), Resource::Black, 0, Tier::First));
        cards.push(Card::new(Cost::new(0, 1, 2, 2, 0), Resource::Black, 0, Tier::First));
        cards.push(Card::new(Cost::new(1, 3, 0, 0, 1), Resource::Black, 0, Tier::First));
        cards.push(Card::new(Cost::new(2, 1, 0, 0, 0), Resource::Black, 0, Tier::First));
        cards.push(Card::new(Cost::new(2, 0, 0, 2, 0), Resource::Black, 0, Tier::First));
        cards.push(Card::new(Cost::new(3, 0, 0, 0, 0), Resource::Black, 0, Tier::First));
        cards.push(Card::new(Cost::new(0, 0, 4, 0, 0), Resource::Black, 1, Tier::First));
        cards.push(Card::new(Cost::new(1, 1, 0, 1, 1), Resource::Blue, 0, Tier::First));
        cards.push(Card::new(Cost::new(1, 2, 0, 1, 1), Resource::Blue, 0, Tier::First));
        cards.push(Card::new(Cost::new(2, 2, 0, 1, 0), Resource::Blue, 0, Tier::First));
        cards.push(Card::new(Cost::new(3, 1, 1, 0, 0), Resource::Blue, 0, Tier::First));
        cards.push(Card::new(Cost::new(0, 0, 0, 1, 2), Resource::Blue, 0, Tier::First));
        cards.push(Card::new(Cost::new(2, 0, 0, 0, 2), Resource::Blue, 0, Tier::First));
        cards.push(Card::new(Cost::new(0, 0, 0, 0, 3), Resource::Blue, 0, Tier::First));
        cards.push(Card::new(Cost::new(0, 0, 0, 0, 4), Resource::Blue, 1, Tier::First));
        cards.push(Card::new(Cost::new(1, 1, 1, 0, 1), Resource::White, 0, Tier::First));
        cards.push(Card::new(Cost::new(2, 1, 1, 0, 1), Resource::White, 0, Tier::First));
        cards.push(Card::new(Cost::new(2, 0, 2, 0, 1), Resource::White, 0, Tier::First));
        cards.push(Card::new(Cost::new(0, 0, 1, 3, 1), Resource::White, 0, Tier::First));
        cards.push(Card::new(Cost::new(0, 2, 0, 0, 1), Resource::White, 0, Tier::First));
        cards.push(Card::new(Cost::new(0, 0, 0, 2, 2), Resource::White, 0, Tier::First));
        cards.push(Card::new(Cost::new(0, 0, 0, 3, 0), Resource::White, 0, Tier::First));
        cards.push(Card::new(Cost::new(4, 0, 0, 0, 0), Resource::White, 1, Tier::First));
        cards.push(Card::new(Cost::new(0, 1, 1, 1, 1), Resource::Green, 0, Tier::First));
        cards.push(Card::new(Cost::new(0, 1, 1, 1, 2), Resource::Green, 0, Tier::First));
        cards.push(Card::new(Cost::new(0, 2, 0, 1, 2), Resource::Green, 0, Tier::First));
        cards.push(Card::new(Cost::new(1, 0, 3, 1, 0), Resource::Green, 0, Tier::First));
        cards.push(Card::new(Cost::new(0, 0, 2, 1, 0), Resource::Green, 0, Tier::First));
        cards.push(Card::new(Cost::new(0, 2, 0, 2, 0), Resource::Green, 0, Tier::First));
        cards.push(Card::new(Cost::new(0, 3, 0, 0, 0), Resource::Green, 0, Tier::First));
        cards.push(Card::new(Cost::new(0, 0, 0, 0, 4), Resource::Green, 1, Tier::First));
        cards.push(Card::new(Cost::new(1, 0, 1, 1, 1), Resource::Red, 0, Tier::First));
        cards.push(Card::new(Cost::new(1, 0, 2, 1, 1), Resource::Red, 0, Tier::First));
        cards.push(Card::new(Cost::new(1, 0, 2, 0, 2), Resource::Red, 0, Tier::First));
        cards.push(Card::new(Cost::new(0, 1, 0, 0, 3), Resource::Red, 0, Tier::First));
        cards.push(Card::new(Cost::new(1, 0, 0, 2, 0), Resource::Red, 0, Tier::First));
        cards.push(Card::new(Cost::new(0, 2, 0, 0, 2), Resource::Red, 0, Tier::First));
        cards.push(Card::new(Cost::new(0, 0, 0, 3, 0), Resource::Red, 0, Tier::First));
        cards.push(Card::new(Cost::new(0, 0, 0, 4, 0), Resource::Red, 1, Tier::First));
        cards.push(Card::new(Cost::new(2, 0, 2, 3, 0), Resource::Black, 1, Tier::Second));
        cards.push(Card::new(Cost::new(3, 0, 3, 0, 2), Resource::Black, 1, Tier::Second));
        cards.push(Card::new(Cost::new(4, 2, 1, 0, 0), Resource::Black, 2, Tier::Second));
        cards.push(Card::new(Cost::new(5, 3, 0, 0, 0), Resource::Black, 2, Tier::Second));
        cards.push(Card::new(Cost::new(0, 0, 0, 0, 6), Resource::Black, 3, Tier::Second));
        cards.push(Card::new(Cost::new(2, 3, 2, 0, 0), Resource::Blue, 1, Tier::Second));
        cards.push(Card::new(Cost::new(3, 0, 3, 2, 0), Resource::Blue, 1, Tier::Second));
        cards.push(Card::new(Cost::new(0, 0, 3, 5, 0), Resource::Blue, 2, Tier::Second));
        cards.push(Card::new(Cost::new(0, 1, 0, 2, 4), Resource::Blue, 2, Tier::Second));
        cards.push(Card::new(Cost::new(0, 0, 0, 5, 0), Resource::Blue, 2, Tier::Second));
        cards.push(Card::new(Cost::new(0, 0, 0, 6, 0), Resource::Blue, 3, Tier::Second));
        cards.push(Card::new(Cost::new(3, 2, 0, 0, 2), Resource::White, 1, Tier::Second));
        cards.push(Card::new(Cost::new(0, 3, 0, 2, 3), Resource::White, 1, Tier::Second));
        cards.push(Card::new(Cost::new(1, 4, 0, 0, 2), Resource::White, 2, Tier::Second));
        cards.push(Card::new(Cost::new(0, 5, 0, 0, 3), Resource::White, 2, Tier::Second));
        cards.push(Card::new(Cost::new(0, 5, 0, 0, 0), Resource::White, 2, Tier::Second));
        cards.push(Card::new(Cost::new(0, 0, 0, 6, 0), Resource::White, 3, Tier::Second));
        cards.push(Card::new(Cost::new(2, 3, 0, 0, 1), Resource::Green, 2, Tier::Second));
        cards.push(Card::new(Cost::new(3, 0, 3, 0, 0), Resource::Green, 2, Tier::Second));
        cards.push(Card::new(Cost::new(0, 0, 5, 0, 0), Resource::Green, 2, Tier::Second));
        cards.push(Card::new(Cost::new(0, 0, 6, 0, 0), Resource::Green, 3, Tier::Second));
        cards.push(Card::new(Cost::new(0, 2, 0, 2, 3), Resource::Red, 1, Tier::Second));
        cards.push(Card::new(Cost::new(0, 2, 0, 3, 3), Resource::Red, 1, Tier::Second));
        cards.push(Card::new(Cost::new(2, 0, 4, 1, 0), Resource::Red, 2, Tier::Second));
        cards.push(Card::new(Cost::new(0, 0, 0, 3, 5), Resource::Red, 2, Tier::Second));
        cards.push(Card::new(Cost::new(0, 0, 0, 0, 5), Resource::Red, 2, Tier::Second));
        cards.push(Card::new(Cost::new(0, 6, 0, 0, 0), Resource::Red, 3, Tier::Second));
        cards.push(Card::new(Cost::new(5, 3, 3, 3, 0), Resource::Black, 3, Tier::Third));
        cards.push(Card::new(Cost::new(0, 7, 0, 0, 0), Resource::Black, 4, Tier::Third));
        cards.push(Card::new(Cost::new(3, 6, 0, 0, 3), Resource::Black, 4, Tier::Third));
        cards.push(Card::new(Cost::new(0, 7, 0, 0, 3), Resource::Black, 5, Tier::Third));
        cards.push(Card::new(Cost::new(3, 3, 3, 0, 5), Resource::Blue, 3, Tier::Third));
        cards.push(Card::new(Cost::new(0, 0, 0, 0, 7), Resource::Blue, 4, Tier::Third));
        cards.push(Card::new(Cost::new(0, 0, 3, 6, 3), Resource::Blue, 4, Tier::Third));
        cards.push(Card::new(Cost::new(0, 0, 0, 0, 7), Resource::Blue, 5, Tier::Third));
        cards.push(Card::new(Cost::new(3, 5, 3, 3, 0), Resource::White, 3, Tier::Third));
        cards.push(Card::new(Cost::new(0, 0, 0, 7, 0), Resource::White, 4, Tier::Third));
        cards.push(Card::new(Cost::new(3, 0, 3, 0, 6), Resource::White, 4, Tier::Third));
        cards.push(Card::new(Cost::new(3, 0, 0, 0, 7), Resource::White, 5, Tier::Third));
        cards.push(Card::new(Cost::new(0, 3, 3, 5, 3), Resource::Green, 3, Tier::Third));
        cards.push(Card::new(Cost::new(0, 0, 0, 7, 0), Resource::Green, 4, Tier::Third));
        cards.push(Card::new(Cost::new(3, 0, 3, 6, 0), Resource::Green, 4, Tier::Third));
        cards.push(Card::new(Cost::new(3, 0, 3, 7, 0), Resource::Green, 5, Tier::Third));
        cards.push(Card::new(Cost::new(3, 0, 3, 5, 3), Resource::Red, 3, Tier::Third));
        cards.push(Card::new(Cost::new(7, 0, 0, 0, 0), Resource::Red, 4, Tier::Third));
        cards.push(Card::new(Cost::new(6, 3, 0, 3, 0), Resource::Red, 4, Tier::Third));
        cards.push(Card::new(Cost::new(7, 3, 0, 0, 0), Resource::Red, 5, Tier::Third));        Self { cards }
    }

    pub fn get_card(&self, index: usize) -> (r: &Card)
        requires
            index < self@.len(),
        ensures
            *r == self@[index as int],
    {
        &self.cards[index]
    }

    pub fn len(&self) -> (r: usize)
        ensures
            r == self@.len(),
    {
        self.cards.len()
    }

    /// The position of the first table entry equal to `card`, if any.
    pub fn get_card_index(&self, card: &Card) -> (r: Option<usize>)
        ensures
            match r {
                Some(i) => (i as int) < self@.len() && self@[i as int] == *card && (forall|j: int|
                    0 <= j < i ==> self@[j] != *card),
                None => forall|j: int| 0 <= j < self@.len() ==> self@[j] != *card,
            },
    {
        let mut i: usize = 0;
        while i < self.cards.len()
            invariant
                i <= self@.len(),
                self@ == self.cards@,
                forall|j: int| 0 <= j < i ==> self@[j] != *card,
            decreases self.cards.len() - i,
        {
            if self.cards[i] == *card {
                return Some(i);
            }
            i = i + 1;
        }
        None
    }

    pub fn get_first_tier_cards(&self) -> (r: Vec<Card>)
        requires
            self@.len() == N_CARDS,
        ensures
            r@ == self@.subrange(FIRST_TIER_START as int, SECOND_TIER_START as int),
    {
        self.copy_range(FIRST_TIER_START, SECOND_TIER_START)
    }

    pub fn get_second_tier_cards(&self) -> (r: Vec<Card>)
        requires
            self@.len() == N_CARDS,
        ensures
            r@ == self@.subrange(SECOND_TIER_START as int, THIRD_TIER_START as int),
    {
        self.copy_range(SECOND_TIER_START, THIRD_TIER_START)
    }

    pub fn get_third_tier_cards(&self) -> (r: Vec<Card>)
        requires
            self@.len() == N_CARDS,
        ensures
            r@ == self@.subrange(THIRD_TIER_START as int, N_CARDS as int),
    {
        self.copy_range(THIRD_TIER_START, N_CARDS)
    }

    fn copy_range(&self, lo: usize, hi: usize) -> (r: Vec<Card>)
        requires
            lo <= hi <= self@.len(),
        ensures
            r@ == self@.subrange(lo as int, hi as int),
    {
        let mut r: Vec<Card> = Vec::new();
        let mut i: usize = lo;
        while i < hi
            invariant
                lo <= i <= hi <= self@.len(),
                r@ == self@.subrange(lo as int, i as int),
            decreases hi - i,
        {
            r.push(*self.get_card(i));
            proof {
                assert(r@ =~= self@.subrange(lo as int, i + 1));
            }
            i = i + 1;
        }
        r
    }
}

} // verus!
