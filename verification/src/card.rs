//! Development cards: a price, a production color, and a point value.

use vstd::prelude::*;

use crate::cost::{Cost, CostV};
use crate::resource::Resource;

verus! {

/// One of the three card-supply pools of increasing cost and value.
#[derive(Clone, Copy, Debug, PartialEq, Eq, Structural)]
pub enum Tier {
    First,
    Second,
    Third,
}

/// Mathematical model of a [`Card`].
pub struct CardV {
    pub cost: CostV,
    pub production: Resource,
    pub n_points: int,
    pub tier: Tier,
}

/// An immutable development card. Building it grants its production color as
/// a permanent discount and its point value.
#[derive(Clone, Copy, Debug, PartialEq, Eq, Structural)]
pub struct Card {
    cost: Cost,
    production: Resource,
    n_points: u8,
    tier: Tier,
}

impl View for Card {
    type V = CardV;

    closed spec fn view(&self) -> CardV {
        CardV {
            cost: self.cost@,
            production: self.production,
            n_points: self.n_points as int,
            tier: self.tier,
        }
    }
}

/// The point value recorded on a card fits in a byte.
pub proof fn lemma_card_points_range(c: Card)
    ensures
        0 <= c@.n_points <= 255,
{
}

/// Every quantity recorded on a card is a byte quantity.
pub proof fn lemma_card_view_bounds(c: Card)
    ensures
        0 <= c@.n_points <= 255,
        0 <= c@.cost.green <= 255,
        0 <= c@.cost.red <= 255,
        0 <= c@.cost.blue <= 255,
        0 <= c@.cost.white <= 255,
        0 <= c@.cost.black <= 255,
{
    crate::cost::lemma_cost_view_bounds(c.cost);
}

impl Card {
    pub fn new(cost: Cost, production: Resource, n_points: u8, tier: Tier) -> (r: Self)
        ensures
            r@ == (CardV { cost: cost@, production, n_points: n_points as int, tier }),
    {
        Self { cost, production, n_points, tier }
    }

    pub fn cost(&self) -> (r: &Cost)
        ensures
            r@ == self@.cost,
    {
        &self.cost
    }

    pub fn production(&self) -> (r: Resource)
        ensures
            r == self@.production,
    {
        self.production
    }

    pub fn n_points(&self) -> (r: u8)
        ensures
            r == self@.n_points,
    {
        self.n_points
    }

    pub fn tier(&self) -> (r: Tier)
        ensures
            r == self@.tier,
    {
        self.tier
    }
}

} // verus!
