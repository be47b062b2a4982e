//! Per-color quantity vector attached to cards and nobles.

use vstd::prelude::*;

verus! {

/// Saturating subtraction on mathematical integers: `a - b`, floored at zero.
pub open spec fn ssub(a: int, b: int) -> int {
    if a >= b {
        a - b
    } else {
        0
    }
}

/// Mathematical model of a [`Cost`]: one non-negative quantity per color.
pub struct CostV {
    pub green: int,
    pub red: int,
    pub blue: int,
    pub white: int,
    pub black: int,
}

impl CostV {
    pub open spec fn total(self) -> int {
        self.green + self.red + self.blue + self.white + self.black
    }

    /// Color-wise saturating difference: what remains of `self` after the
    /// discount `d` is applied.
    pub open spec fn minus(self, d: CostV) -> CostV {
        CostV {
            green: ssub(self.green, d.green),
            red: ssub(self.red, d.red),
            blue: ssub(self.blue, d.blue),
            white: ssub(self.white, d.white),
            black: ssub(self.black, d.black),
        }
    }

    /// Color-wise sum.
    pub open spec fn plus(self, o: CostV) -> CostV {
        CostV {
            green: self.green + o.green,
            red: self.red + o.red,
            blue: self.blue + o.blue,
            white: self.white + o.white,
            black: self.black + o.black,
        }
    }

    /// Color-wise order: `self` supplies at least `other` in every color.
    pub open spec fn covers(self, other: CostV) -> bool {
        self.green >= other.green && self.red >= other.red && self.blue >= other.blue
            && self.white >= other.white && self.black >= other.black
    }
}

/// A fixed-width per-color quantity vector: the price of a card or the
/// production threshold of a noble. Carries no wildcard component.
#[derive(Clone, Copy, Debug, PartialEq, Eq, Structural)]
pub struct Cost {
    n_green: u8,
    n_red: u8,
    n_blue: u8,
    n_white: u8,
    n_black: u8,
}

impl View for Cost {
    type V = CostV;

    closed spec fn view(&self) -> CostV {
        CostV {
            green: self.n_green as int,
            red: self.n_red as int,
            blue: self.n_blue as int,
            white: self.n_white as int,
            black: self.n_black as int,
        }
    }
}

/// Every component of a cost vector is a byte quantity.
pub proof fn lemma_cost_view_bounds(c: Cost)
    ensures
        0 <= c@.green <= 255,
        0 <= c@.red <= 255,
        0 <= c@.blue <= 255,
        0 <= c@.white <= 255,
        0 <= c@.black <= 255,
{
}

impl Cost {
    pub fn new(n_green: u8, n_red: u8, n_blue: u8, n_white: u8, n_black: u8) -> (r: Self)
        ensures
            r@ == (CostV {
                green: n_green as int,
                red: n_red as int,
                blue: n_blue as int,
                white: n_white as int,
                black: n_black as int,
            }),
    {
        Self { n_green, n_red, n_blue, n_white, n_black }
    }

    pub fn n_green(&self) -> (r: u8)
        ensures
            r == self@.green,
    {
        self.n_green
    }

    pub fn n_red(&self) -> (r: u8)
        ensures
            r == self@.red,
    {
        self.n_red
    }

    pub fn n_blue(&self) -> (r: u8)
        ensures
            r == self@.blue,
    {
        self.n_blue
    }

    pub fn n_white(&self) -> (r: u8)
        ensures
            r == self@.white,
    {
        self.n_white
    }

    pub fn n_black(&self) -> (r: u8)
        ensures
            r == self@.black,
    {
        self.n_black
    }

    pub fn to_builder(&self) -> (r: CostBuilder)
        ensures
            r@ == self@,
    {
        CostBuilder::new(self)
    }

    /// These quantities as a resource bundle with no wildcard component.
    pub fn to_resources(&self) -> (r: crate::resources::Resources)
        ensures
            r@.colors() == self@,
            r@.gold == 0,
            r@.sum() == self@.total(),
    {
        crate::resources::Resources::new(
            self.n_green,
            self.n_red,
            self.n_blue,
            self.n_white,
            self.n_black,
            0,
        )
    }
}

/// Mutable shadow of a [`Cost`], used by the copy-on-write update discipline.
pub struct CostBuilder {
    pub n_green: u8,
    pub n_red: u8,
    pub n_blue: u8,
    pub n_white: u8,
    pub n_black: u8,
}

impl View for CostBuilder {
    type V = CostV;

    open spec fn view(&self) -> CostV {
        CostV {
            green: self.n_green as int,
            red: self.n_red as int,
            blue: self.n_blue as int,
            white: self.n_white as int,
            black: self.n_black as int,
        }
    }
}

impl CostBuilder {
    pub fn new(cost: &Cost) -> (r: Self)
        ensures
            r@ == cost@,
    {
        Self {
            n_green: cost.n_green,
            n_red: cost.n_red,
            n_blue: cost.n_blue,
            n_white: cost.n_white,
            n_black: cost.n_black,
        }
    }

    pub fn build(self) -> (r: Cost)
        ensures
            r@ == self@,
    {
        Cost {
            n_green: self.n_green,
            n_red: self.n_red,
            n_blue: self.n_blue,
            n_white: self.n_white,
            n_black: self.n_black,
        }
    }
}

} // verus!
