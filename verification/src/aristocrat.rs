//! Nobles: fixed-point bonuses awarded for production thresholds.

use vstd::prelude::*;

use crate::cost::{Cost, CostBuilder, CostV};

verus! {

/// Points granted by each awarded noble.
pub const ARISTOCRAT_POINTS: u8 = 3;

/// Mathematical model of an [`Aristocrat`].
pub struct AristocratV {
    pub cost: CostV,
}

/// A noble: a production threshold that, once met by a player's built cards,
/// yields a fixed point bonus. Claimed automatically, at most once per build.
#[derive(Clone, Copy, Debug, PartialEq, Eq, Structural)]
pub struct Aristocrat {
    cost: Cost,
}

impl View for Aristocrat {
    type V = AristocratV;

    closed spec fn view(&self) -> AristocratV {
        AristocratV { cost: self.cost@ }
    }
}

impl Aristocrat {
    pub fn new(resources: Cost) -> (r: Self)
        ensures
            r@.cost == resources@,
    {
        Self { cost: resources }
    }

    pub fn cost(&self) -> (r: &Cost)
        ensures
            r@ == self@.cost,
    {
        &self.cost
    }

    pub fn to_builder(self) -> (r: AristocratBuilder)
        ensures
            r@ == self@.cost,
    {
        AristocratBuilder::new(self)
    }

    /// Whether the player's production (not held resources) meets this
    /// noble's threshold.
    pub fn can_be_taken_by(&self, player: &crate::player::Player) -> (r: bool)
        requires
            player@.deck.len() <= 255,
        ensures
            r == crate::player::deck_production(player@.deck).covers(self@.cost),
    {
        let production = player.get_production();
        production.can_pay(&self.cost)
    }
}

/// Mutable shadow of an [`Aristocrat`].
pub struct AristocratBuilder {
    cost: CostBuilder,
}

impl View for AristocratBuilder {
    type V = CostV;

    closed spec fn view(&self) -> CostV {
        self.cost@
    }
}

impl AristocratBuilder {
    pub fn new(aristocrat: Aristocrat) -> (r: Self)
        ensures
            r@ == aristocrat@.cost,
    {
        Self { cost: CostBuilder::new(aristocrat.cost()) }
    }

    pub fn build(self) -> (r: Aristocrat)
        ensures
            r@.cost == self@,
    {
        Aristocrat { cost: self.cost.build() }
    }

    pub fn get_cost(&self) -> (r: &CostBuilder)
        ensures
            r@ == self@,
    {
        &self.cost
    }

    pub fn set_cost(&mut self, cost: CostBuilder)
        ensures
            final(self)@ == cost@,
    {
        self.cost = cost;
    }
}

} // verus!
