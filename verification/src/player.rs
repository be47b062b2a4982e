//! A player: built cards, held resources, reserved cards, awarded nobles.

use vstd::prelude::*;

use crate::aristocrat::ARISTOCRAT_POINTS;
use crate::card::Card;
use crate::cost::{Cost, CostV};
use crate::resource::Resource;
use crate::resources::{spec_can_pay, spec_pay, Resources, ResourcesBuilder, ResourcesV};

verus! {

pub const MAX_RESERVE_CARDS: usize = 3;

/// Mathematical model of a [`Player`]. Nobles are held as indices into the
/// session's noble table.
pub struct PlayerV {
    pub deck: Seq<Card>,
    pub resources: ResourcesV,
    pub reserve: Seq<Card>,
    pub aristocrats: Seq<usize>,
}

/// A unit production vector: one unit of the given color.
pub open spec fn one_hot(c: Resource) -> CostV {
    CostV {
        green: if c == Resource::Green {
            1
        } else {
            0
        },
        red: if c == Resource::Red {
            1
        } else {
            0
        },
        blue: if c == Resource::Blue {
            1
        } else {
            0
        },
        white: if c == Resource::White {
            1
        } else {
            0
        },
        black: if c == Resource::Black {
            1
        } else {
            0
        },
    }
}

/// Per-color production of a deck: how many built cards produce each color.
pub open spec fn deck_production(deck: Seq<Card>) -> CostV
    decreases deck.len(),
{
    if deck.len() == 0 {
        CostV { green: 0, red: 0, blue: 0, white: 0, black: 0 }
    } else {
        let rest = deck_production(deck.drop_last());
        let one = one_hot(deck.last()@.production);
        CostV {
            green: rest.green + one.green,
            red: rest.red + one.red,
            blue: rest.blue + one.blue,
            white: rest.white + one.white,
            black: rest.black + one.black,
        }
    }
}

/// Total point value of a deck.
pub open spec fn deck_points(deck: Seq<Card>) -> int
    decreases deck.len(),
{
    if deck.len() == 0 {
        0
    } else {
        deck_points(deck.drop_last()) + deck.last()@.n_points
    }
}

/// Point total of a player: built cards plus three per awarded noble.
pub open spec fn points_of(p: PlayerV) -> int {
    deck_points(p.deck) + (ARISTOCRAT_POINTS as int) * p.aristocrats.len()
}

/// Production of a deck is non-negative in every color and bounded by the
/// deck size.
pub proof fn lemma_deck_production_bounds(deck: Seq<Card>)
    ensures
        0 <= deck_production(deck).green <= deck.len(),
        0 <= deck_production(deck).red <= deck.len(),
        0 <= deck_production(deck).blue <= deck.len(),
        0 <= deck_production(deck).white <= deck.len(),
        0 <= deck_production(deck).black <= deck.len(),
    decreases deck.len(),
{
    if deck.len() > 0 {
        lemma_deck_production_bounds(deck.drop_last());
    }
}

/// Point totals are non-negative and bounded by 255 per card.
pub proof fn lemma_deck_points_bounds(deck: Seq<Card>)
    ensures
        0 <= deck_points(deck) <= 255 * deck.len(),
    decreases deck.len(),
{
    if deck.len() > 0 {
        lemma_deck_points_bounds(deck.drop_last());
        crate::card::lemma_card_points_range(deck.last());
    }
}

/// A player's standing: permanent deck, held resources, up to three reserved
/// cards, and the nobles already awarded (as indices into the noble table).
#[derive(Clone, Debug, PartialEq, Eq)]
pub struct Player {
    deck: Vec<Card>,
    resources: Resources,
    reserve: Vec<Card>,
    aristocrats: Vec<usize>,
}

impl View for Player {
    type V = PlayerV;

    closed spec fn view(&self) -> PlayerV {
        PlayerV {
            deck: self.deck@,
            resources: self.resources@,
            reserve: self.reserve@,
            aristocrats: self.aristocrats@,
        }
    }
}

impl Player {
    pub fn new() -> (r: Self)
        ensures
            r@.deck == Seq::<Card>::empty(),
            r@.reserve == Seq::<Card>::empty(),
            r@.aristocrats == Seq::<usize>::empty(),
            r@.resources == ResourcesV::zero(),
    {
        let r = Self {
            deck: Vec::new(),
            resources: Resources::new(0, 0, 0, 0, 0, 0),
            reserve: Vec::new(),
            aristocrats: Vec::new(),
        };
        proof {
            assert(r.deck@ =~= Seq::<Card>::empty());
            assert(r.reserve@ =~= Seq::<Card>::empty());
            assert(r.aristocrats@ =~= Seq::<usize>::empty());
        }
        r
    }

    /// The per-color discount accrued from built cards, as a resource bundle
    /// with no wildcard component.
    pub fn get_production(&self) -> (r: Resources)
        requires
            self@.deck.len() <= 255,
        ensures
            r@.colors() == deck_production(self@.deck),
            r@.gold == 0,
    {
        let mut g: u8 = 0;
        let mut rd: u8 = 0;
        let mut b: u8 = 0;
        let mut w: u8 = 0;
        let mut k: u8 = 0;
        let mut i: usize = 0;
        proof {
            assert(self@.deck.take(0) =~= Seq::<Card>::empty());
        }
        while i < self.deck.len()
            invariant
                i <= self@.deck.len() <= 255,
                self@.deck == self.deck@,
                g == deck_production(self@.deck.take(i as int)).green,
                rd == deck_production(self@.deck.take(i as int)).red,
                b == deck_production(self@.deck.take(i as int)).blue,
                w == deck_production(self@.deck.take(i as int)).white,
                k == deck_production(self@.deck.take(i as int)).black,
            decreases self.deck.len() - i,
        {
            proof {
                lemma_deck_production_bounds(self@.deck.take(i as int));
                assert(self@.deck.take(i as int).len() == i);
                assert(self@.deck.take(i + 1).drop_last() =~= self@.deck.take(i as int));
                assert(self@.deck.take(i + 1).last() == self@.deck[i as int]);
            }
            match self.deck[i].production() {
                Resource::Green => { g = g + 1 },
                Resource::Red => { rd = rd + 1 },
                Resource::Blue => { b = b + 1 },
                Resource::White => { w = w + 1 },
                Resource::Black => { k = k + 1 },
            }
            i = i + 1;
        }
        proof {
            assert(self@.deck.take(self@.deck.len() as int) =~= self@.deck);
        }
        Resources::new(g, rd, b, w, k, 0)
    }

    pub fn get_resources(&self) -> (r: &Resources)
        ensures
            r@ == self@.resources,
    {
        &self.resources
    }

    pub fn get_reserve(&self) -> (r: &Vec<Card>)
        ensures
            r@ == self@.reserve,
    {
        &self.reserve
    }

    pub fn get_aristocrats(&self) -> (r: &Vec<usize>)
        ensures
            r@ == self@.aristocrats,
    {
        &self.aristocrats
    }

    pub fn get_deck(&self) -> (r: &Vec<Card>)
        ensures
            r@ == self@.deck,
    {
        &self.deck
    }

    /// Point total: built-card points plus three per awarded noble.
    pub fn get_points(&self) -> (r: u16)
        requires
            self@.deck.len() <= 100,
            self@.aristocrats.len() <= 10,
        ensures
            r == points_of(self@),
    {
        let aristocrat_points: u16 = (ARISTOCRAT_POINTS as u16) * (self.aristocrats.len() as u16);
        let mut card_points: u16 = 0;
        let mut i: usize = 0;
        proof {
            assert(self@.deck.take(0) =~= Seq::<Card>::empty());
        }
        while i < self.deck.len()
            invariant
                i <= self@.deck.len() <= 100,
                self@.deck == self.deck@,
                card_points == deck_points(self@.deck.take(i as int)),
                card_points <= 255 * i,
            decreases self.deck.len() - i,
        {
            proof {
                assert(self@.deck.take(i + 1).drop_last() =~= self@.deck.take(i as int));
                assert(self@.deck.take(i + 1).last() == self@.deck[i as int]);
            }
            card_points = card_points + self.deck[i].n_points() as u16;
            i = i + 1;
        }
        proof {
            assert(self@.deck.take(self@.deck.len() as int) =~= self@.deck);
        }
        aristocrat_points + card_points
    }

    /// Whether granting `resources` would keep the holdings total within the
    /// ten-unit cap.
    pub fn can_add_resources(&self, resources: &Resources) -> (r: bool)
        ensures
            r == (self@.resources.sum() + resources@.sum() <= 10),
    {
        self.resources.sum() + resources.sum() <= 10
    }

    pub fn can_add_reserve(&self) -> (r: bool)
        ensures
            r == (self@.reserve.len() < MAX_RESERVE_CARDS),
    {
        self.reserve.len() < MAX_RESERVE_CARDS
    }

    /// A copy of this player with one more reserved card.
    pub fn add_reserve(&self, card: &Card) -> (r: Self)
        ensures
            r@.deck == self@.deck,
            r@.resources == self@.resources,
            r@.reserve == self@.reserve.push(*card),
            r@.aristocrats == self@.aristocrats,
    {
        let mut reserve = copy_cards(&self.reserve);
        reserve.push(*card);
        Self {
            deck: copy_cards(&self.deck),
            resources: self.resources,
            reserve,
            aristocrats: copy_indices(&self.aristocrats),
        }
    }

    /// A copy of this player with `resources` added to the holdings.
    pub fn add_resources(&self, resources: &Resources) -> (r: Self)
        requires
            self@.resources.green + resources@.green <= u8::MAX,
            self@.resources.red + resources@.red <= u8::MAX,
            self@.resources.blue + resources@.blue <= u8::MAX,
            self@.resources.white + resources@.white <= u8::MAX,
            self@.resources.black + resources@.black <= u8::MAX,
            self@.resources.gold + resources@.gold <= u8::MAX,
        ensures
            r@.deck == self@.deck,
            r@.resources == self@.resources.plus(resources@),
            r@.reserve == self@.reserve,
            r@.aristocrats == self@.aristocrats,
    {
        Self {
            deck: copy_cards(&self.deck),
            resources: self.resources.add(resources),
            reserve: copy_cards(&self.reserve),
            aristocrats: copy_indices(&self.aristocrats),
        }
    }

    pub fn to_builder(&self) -> (r: PlayerBuilder)
        ensures
            r@ == self@,
    {
        PlayerBuilder::new(self)
    }

    /// An element-wise copy of this player.
    pub fn duplicate(&self) -> (r: Player)
        ensures
            r@ == self@,
    {
        self.to_builder().to_player()
    }

    /// Assemble a player from parts.
    pub fn from_parts(
        deck: Vec<Card>,
        resources: Resources,
        reserve: Vec<Card>,
        aristocrats: Vec<usize>,
    ) -> (r: Player)
        ensures
            r@.deck == deck@,
            r@.resources == resources@,
            r@.reserve == reserve@,
            r@.aristocrats == aristocrats@,
    {
        Player { deck, resources, reserve, aristocrats }
    }
}

/// An element-wise copy of a card list.
pub fn copy_cards(v: &Vec<Card>) -> (r: Vec<Card>)
    ensures
        r@ == v@,
{
    let mut r: Vec<Card> = Vec::new();
    let mut i: usize = 0;
    while i < v.len()
        invariant
            i <= v@.len(),
            r@ == v@.take(i as int),
        decreases v.len() - i,
    {
        r.push(v[i]);
        proof {
            assert(r@ =~= v@.take(i + 1));
        }
        i = i + 1;
    }
    proof {
        assert(v@.take(v@.len() as int) =~= v@);
    }
    r
}

/// An element-wise copy of an index list.
pub fn copy_indices(v: &Vec<usize>) -> (r: Vec<usize>)
    ensures
        r@ == v@,
{
    let mut r: Vec<usize> = Vec::new();
    let mut i: usize = 0;
    while i < v.len()
        invariant
            i <= v@.len(),
            r@ == v@.take(i as int),
        decreases v.len() - i,
    {
        r.push(v[i]);
        proof {
            assert(r@ =~= v@.take(i + 1));
        }
        i = i + 1;
    }
    proof {
        assert(v@.take(v@.len() as int) =~= v@);
    }
    r
}

/// Mutable shadow of a [`Player`], used by the copy-on-write update
/// discipline.
pub struct PlayerBuilder {
    pub deck: Vec<Card>,
    pub resources: ResourcesBuilder,
    pub reserve: Vec<Card>,
    pub aristocrats: Vec<usize>,
}

impl View for PlayerBuilder {
    type V = PlayerV;

    open spec fn view(&self) -> PlayerV {
        PlayerV {
            deck: self.deck@,
            resources: self.resources@,
            reserve: self.reserve@,
            aristocrats: self.aristocrats@,
        }
    }
}

impl PlayerBuilder {
    pub fn new(player: &Player) -> (r: Self)
        ensures
            r@ == player@,
    {
        Self {
            deck: copy_cards(&player.deck),
            resources: player.resources.to_builder(),
            reserve: copy_cards(&player.reserve),
            aristocrats: copy_indices(&player.aristocrats),
        }
    }

    pub fn get_production(&self) -> (r: Resources)
        requires
            self@.deck.len() <= 255,
        ensures
            r@.colors() == deck_production(self@.deck),
            r@.gold == 0,
    {
        self.to_player().get_production()
    }

    /// Pay for `card`: its cost is first discounted by the deck's production,
    /// then settled from the held resources, wildcard units covering any
    /// shortfall.
    pub fn pay_for_card(&mut self, card: &Card)
        requires
            old(self)@.deck.len() <= 255,
            spec_can_pay(old(self)@.resources, card@.cost.minus(deck_production(old(self)@.deck))),
        ensures
            final(self)@.deck == old(self)@.deck,
            final(self)@.reserve == old(self)@.reserve,
            final(self)@.aristocrats == old(self)@.aristocrats,
            final(self)@.resources == spec_pay(
                old(self)@.resources,
                card@.cost.minus(deck_production(old(self)@.deck)),
            ),
    {
        let production = self.get_production();
        let remaining_cost = Cost::new(
            crate::resources::sat_sub_u8(card.cost().n_green(), production.n_green()),
            crate::resources::sat_sub_u8(card.cost().n_red(), production.n_red()),
            crate::resources::sat_sub_u8(card.cost().n_blue(), production.n_blue()),
            crate::resources::sat_sub_u8(card.cost().n_white(), production.n_white()),
            crate::resources::sat_sub_u8(card.cost().n_black(), production.n_black()),
        );
        self.resources.pay_cost(&remaining_cost);
    }

    pub fn add_resources(&mut self, resources: &ResourcesBuilder)
        requires
            old(self)@.resources.green + resources@.green <= u8::MAX,
            old(self)@.resources.red + resources@.red <= u8::MAX,
            old(self)@.resources.blue + resources@.blue <= u8::MAX,
            old(self)@.resources.white + resources@.white <= u8::MAX,
            old(self)@.resources.gold + resources@.gold <= u8::MAX,
            old(self)@.resources.black + resources@.black <= u8::MAX,
        ensures
            final(self)@.deck == old(self)@.deck,
            final(self)@.reserve == old(self)@.reserve,
            final(self)@.aristocrats == old(self)@.aristocrats,
            final(self)@.resources == old(self)@.resources.plus(resources@),
    {
        self.resources.add(resources);
    }

    pub fn build(self) -> (r: Player)
        ensures
            r@ == self@,
    {
        Player {
            deck: self.deck,
            resources: self.resources.build(),
            reserve: self.reserve,
            aristocrats: self.aristocrats,
        }
    }

    /// Materialize a player value out of this shadow without consuming it.
    pub fn to_player(&self) -> (r: Player)
        ensures
            r@ == self@,
    {
        Player {
            deck: copy_cards(&self.deck),
            resources: Resources::new(
                self.resources.n_green,
                self.resources.n_red,
                self.resources.n_blue,
                self.resources.n_white,
                self.resources.n_black,
                self.resources.n_gold,
            ),
            reserve: copy_cards(&self.reserve),
            aristocrats: copy_indices(&self.aristocrats),
        }
    }
}

} // verus!
