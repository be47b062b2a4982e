//! Resource holdings: five colors plus the wildcard ("gold") quantity.

use vstd::prelude::*;

use crate::cost::{ssub, Cost, CostV};

verus! {

/// Mathematical model of a [`Resources`] value.
pub struct ResourcesV {
    pub green: int,
    pub red: int,
    pub blue: int,
    pub white: int,
    pub black: int,
    pub gold: int,
}

impl ResourcesV {
    pub open spec fn zero() -> ResourcesV {
        ResourcesV { green: 0, red: 0, blue: 0, white: 0, black: 0, gold: 0 }
    }

    pub open spec fn sum(self) -> int {
        self.green + self.red + self.blue + self.white + self.black + self.gold
    }

    pub open spec fn plus(self, o: ResourcesV) -> ResourcesV {
        ResourcesV {
            green: self.green + o.green,
            red: self.red + o.red,
            blue: self.blue + o.blue,
            white: self.white + o.white,
            black: self.black + o.black,
            gold: self.gold + o.gold,
        }
    }

    /// The five color components as a cost vector (the wildcard is dropped).
    pub open spec fn colors(self) -> CostV {
        CostV {
            green: self.green,
            red: self.red,
            blue: self.blue,
            white: self.white,
            black: self.black,
        }
    }
}

/// Total shortfall: how many units are missing, color by color, when paying
/// `cost` out of `have`, before wildcard units are brought in.
pub open spec fn missing_from(have: ResourcesV, cost: CostV) -> int {
    ssub(cost.green, have.green) + ssub(cost.red, have.red) + ssub(cost.blue, have.blue) + ssub(
        cost.white,
        have.white,
    ) + ssub(cost.black, have.black)
}

/// Whether `have` can settle `cost`: every color shortfall together is covered
/// by the wildcard units held.
pub open spec fn spec_can_pay(have: ResourcesV, cost: CostV) -> bool {
    missing_from(have, cost) <= have.gold
}

/// The holdings left after paying `cost` out of `have`: each color is drained
/// up to its demand, and the total shortfall is taken from the wildcard units.
pub open spec fn spec_pay(have: ResourcesV, cost: CostV) -> ResourcesV {
    ResourcesV {
        green: ssub(have.green, cost.green),
        red: ssub(have.red, cost.red),
        blue: ssub(have.blue, cost.blue),
        white: ssub(have.white, cost.white),
        black: ssub(have.black, cost.black),
        gold: have.gold - missing_from(have, cost),
    }
}

/// The non-wildcard units actually spent when paying `cost` out of `have`:
/// per color, the smaller of demand and holdings. These units return to the
/// bank after a build.
pub open spec fn spec_spent_colors(have: ResourcesV, cost: CostV) -> CostV {
    CostV {
        green: cost.green - ssub(cost.green, have.green),
        red: cost.red - ssub(cost.red, have.red),
        blue: cost.blue - ssub(cost.blue, have.blue),
        white: cost.white - ssub(cost.white, have.white),
        black: cost.black - ssub(cost.black, have.black),
    }
}

/// A bundle of resource units: what a player holds, or what the bank holds.
#[derive(Clone, Copy, Debug, PartialEq, Eq, Structural)]
pub struct Resources {
    n_green: u8,
    n_red: u8,
    n_blue: u8,
    n_white: u8,
    n_black: u8,
    n_gold: u8,
}

impl View for Resources {
    type V = ResourcesV;

    closed spec fn view(&self) -> ResourcesV {
        ResourcesV {
            green: self.n_green as int,
            red: self.n_red as int,
            blue: self.n_blue as int,
            white: self.n_white as int,
            black: self.n_black as int,
            gold: self.n_gold as int,
        }
    }
}

/// Every component of a resource bundle is a byte quantity.
pub proof fn lemma_resources_view_bounds(r: Resources)
    ensures
        0 <= r@.green <= 255,
        0 <= r@.red <= 255,
        0 <= r@.blue <= 255,
        0 <= r@.white <= 255,
        0 <= r@.black <= 255,
        0 <= r@.gold <= 255,
{
}

impl Resources {
    pub fn new(n_green: u8, n_red: u8, n_blue: u8, n_white: u8, n_black: u8, n_gold: u8) -> (r:
        Self)
        ensures
            r@ == (ResourcesV {
                green: n_green as int,
                red: n_red as int,
                blue: n_blue as int,
                white: n_white as int,
                black: n_black as int,
                gold: n_gold as int,
            }),
    {
        Self { n_green, n_red, n_blue, n_white, n_black, n_gold }
    }

    pub fn can_pay(&self, cost: &Cost) -> (r: bool)
        ensures
            r == spec_can_pay(self@, cost@),
    {
        self.get_n_missing_resources(cost) <= self.n_gold as u16
    }

    pub fn get_n_missing_resources(&self, cost: &Cost) -> (r: u16)
        ensures
            r == missing_from(self@, cost@),
    {
        let g: u16 = sat_sub_u8(cost.n_green(), self.n_green) as u16;
        let r_: u16 = sat_sub_u8(cost.n_red(), self.n_red) as u16;
        let b: u16 = sat_sub_u8(cost.n_blue(), self.n_blue) as u16;
        let w: u16 = sat_sub_u8(cost.n_white(), self.n_white) as u16;
        let k: u16 = sat_sub_u8(cost.n_black(), self.n_black) as u16;
        g + r_ + b + w + k
    }

    /// Component-wise sum of two bundles.
    pub fn add(&self, other: &Self) -> (r: Self)
        requires
            self@.green + other@.green <= u8::MAX,
            self@.red + other@.red <= u8::MAX,
            self@.blue + other@.blue <= u8::MAX,
            self@.white + other@.white <= u8::MAX,
            self@.black + other@.black <= u8::MAX,
            self@.gold + other@.gold <= u8::MAX,
        ensures
            r@ == self@.plus(other@),
    {
        Self {
            n_green: self.n_green + other.n_green,
            n_red: self.n_red + other.n_red,
            n_blue: self.n_blue + other.n_blue,
            n_white: self.n_white + other.n_white,
            n_black: self.n_black + other.n_black,
            n_gold: self.n_gold + other.n_gold,
        }
    }

    pub fn sum(&self) -> (r: u16)
        ensures
            r == self@.sum(),
            r <= 1530,
    {
        self.n_green as u16 + self.n_red as u16 + self.n_blue as u16 + self.n_white as u16
            + self.n_black as u16 + self.n_gold as u16
    }

    pub fn n_green(&self) -> (r: u8)
        ensures
            r == self@.green,
    {
        self.n_green
    }

    pub fn n_red(&self) -> (r: u8)
        ensures
            r == self@.red,
    {
        self.n_red
    }

    pub fn n_blue(&self) -> (r: u8)
        ensures
            r == self@.blue,
    {
        self.n_blue
    }

    pub fn n_white(&self) -> (r: u8)
        ensures
            r == self@.white,
    {
        self.n_white
    }

    pub fn n_black(&self) -> (r: u8)
        ensures
            r == self@.black,
    {
        self.n_black
    }

    pub fn n_gold(&self) -> (r: u8)
        ensures
            r == self@.gold,
    {
        self.n_gold
    }

    /// Pay `cost` out of these holdings; the shortfall comes out of the
    /// wildcard units.
    pub fn pay(&self, cost: &Cost) -> (r: Self)
        requires
            spec_can_pay(self@, cost@),
        ensures
            r@ == spec_pay(self@, cost@),
    {
        let missing = self.get_n_missing_resources(cost);
        Self {
            n_green: sat_sub_u8(self.n_green, cost.n_green()),
            n_red: sat_sub_u8(self.n_red, cost.n_red()),
            n_blue: sat_sub_u8(self.n_blue, cost.n_blue()),
            n_white: sat_sub_u8(self.n_white, cost.n_white()),
            n_black: sat_sub_u8(self.n_black, cost.n_black()),
            n_gold: self.n_gold - missing as u8,
        }
    }

    pub fn to_builder(&self) -> (r: ResourcesBuilder)
        ensures
            r@ == self@,
    {
        ResourcesBuilder::new(self)
    }
}

/// `a - b`, floored at zero.
pub fn sat_sub_u8(a: u8, b: u8) -> (r: u8)
    ensures
        r == ssub(a as int, b as int),
{
    if a >= b {
        a - b
    } else {
        0
    }
}

/// Mutable shadow of a [`Resources`] value, used by the copy-on-write update
/// discipline.
pub struct ResourcesBuilder {
    pub n_green: u8,
    pub n_red: u8,
    pub n_blue: u8,
    pub n_white: u8,
    pub n_black: u8,
    pub n_gold: u8,
}

impl View for ResourcesBuilder {
    type V = ResourcesV;

    open spec fn view(&self) -> ResourcesV {
        ResourcesV {
            green: self.n_green as int,
            red: self.n_red as int,
            blue: self.n_blue as int,
            white: self.n_white as int,
            black: self.n_black as int,
            gold: self.n_gold as int,
        }
    }
}

impl Default for ResourcesBuilder {
    fn default() -> (r: Self)
        ensures
            r@ == ResourcesV::zero(),
    {
        Self { n_green: 0, n_red: 0, n_blue: 0, n_white: 0, n_black: 0, n_gold: 0 }
    }
}

impl ResourcesBuilder {
    pub fn new(resources: &Resources) -> (r: Self)
        ensures
            r@ == resources@,
    {
        Self {
            n_green: resources.n_green,
            n_red: resources.n_red,
            n_blue: resources.n_blue,
            n_white: resources.n_white,
            n_black: resources.n_black,
            n_gold: resources.n_gold,
        }
    }

    pub fn build(self) -> (r: Resources)
        ensures
            r@ == self@,
    {
        Resources {
            n_green: self.n_green,
            n_red: self.n_red,
            n_blue: self.n_blue,
            n_white: self.n_white,
            n_black: self.n_black,
            n_gold: self.n_gold,
        }
    }

    /// Pay `cost` out of this shadow; the shortfall comes out of the wildcard
    /// units.
    pub fn pay_cost(&mut self, cost: &Cost)
        requires
            spec_can_pay(old(self)@, cost@),
        ensures
            final(self)@ == spec_pay(old(self)@, cost@),
    {
        let paid = self.snapshot().pay(cost);
        self.n_green = paid.n_green();
        self.n_red = paid.n_red();
        self.n_blue = paid.n_blue();
        self.n_white = paid.n_white();
        self.n_black = paid.n_black();
        self.n_gold = paid.n_gold();
    }

    /// Component-wise addition of another shadow into this one.
    pub fn add(&mut self, other: &Self)
        requires
            old(self)@.green + other@.green <= u8::MAX,
            old(self)@.red + other@.red <= u8::MAX,
            old(self)@.blue + other@.blue <= u8::MAX,
            old(self)@.white + other@.white <= u8::MAX,
            old(self)@.black + other@.black <= u8::MAX,
            old(self)@.gold + other@.gold <= u8::MAX,
        ensures
            final(self)@ == old(self)@.plus(other@),
    {
        self.n_green = self.n_green + other.n_green;
        self.n_red = self.n_red + other.n_red;
        self.n_blue = self.n_blue + other.n_blue;
        self.n_white = self.n_white + other.n_white;
        self.n_black = self.n_black + other.n_black;
        self.n_gold = self.n_gold + other.n_gold;
    }

    fn snapshot(&self) -> (r: Resources)
        ensures
            r@ == self@,
    {
        Resources {
            n_green: self.n_green,
            n_red: self.n_red,
            n_blue: self.n_blue,
            n_white: self.n_white,
            n_black: self.n_black,
            n_gold: self.n_gold,
        }
    }

    pub fn get_n_missing_resources(&self, cost: &Cost) -> (r: u16)
        ensures
            r == missing_from(self@, cost@),
    {
        self.snapshot().get_n_missing_resources(cost)
    }
}

} // verus!
