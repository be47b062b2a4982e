//! The fixed table of nobles for a session.
//!
//! Owned configuration, constructed once at session start and threaded
//! through explicitly; boards and players refer to nobles by index into it.

use vstd::prelude::*;

use crate::aristocrat::Aristocrat;
use crate::cost::Cost;

verus! {

/// Number of nobles in the table.
pub const N_ARISTOCRATS: usize = 10;

/// The noble table: the closed pool nobles are drawn from at session start.
/// What each noble demands is configuration data, out of the rules' scope;
/// the contracts pin the table's size.
pub struct AristocratStorage {
    aristocrats: Vec<Aristocrat>,
}

impl View for AristocratStorage {
    type V = Seq<Aristocrat>;

    closed spec fn view(&self) -> Seq<Aristocrat> {
        self.aristocrats@
    }
}

impl AristocratStorage {
    pub fn new() -> (r: Self)
        ensures
            r@.len() == N_ARISTOCRATS,
    {
        let mut aristocrats: Vec<Aristocrat> = Vec::new();
        aristocrats.push(Aristocrat::new(Cost::new(0, 4, 0, 0, 4)));
        aristocrats.push(Aristocrat::new(Cost::new(0, 3, 0, 3, 3)));
        aristocrats.push(Aristocrat::new(Cost::new(0, 0, 4, 4, 0)));
        aristocrats.push(Aristocrat::new(Cost::new(0, 0, 0, 4, 4)));
        aristocrats.push(Aristocrat::new(Cost::new(0, 0, 4, 0, 4)));
        aristocrats.push(Aristocrat::new(Cost::new(0, 3, 3, 3, 0)));
        aristocrats.push(Aristocrat::new(Cost::new(0, 3, 3, 3, 3)));
        aristocrats.push(Aristocrat::new(Cost::new(0, 0, 0, 4, 4)));
        aristocrats.push(Aristocrat::new(Cost::new(0, 0, 3, 3, 3)));
        aristocrats.push(Aristocrat::new(Cost::new(0, 3, 3, 0, 3)));        Self { aristocrats }
    }

    pub fn get_aristocrat(&self, index: usize) -> (r: &Aristocrat)
        requires
            index < self@.len(),
        ensures
            *r == self@[index as int],
    {
        &self.aristocrats[index]
    }

    pub fn len(&self) -> (r: usize)
        ensures
            r == self@.len(),
    {
        self.aristocrats.len()
    }
}

} // verus!
