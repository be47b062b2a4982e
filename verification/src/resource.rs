//! The closed set of commodity colors.

use vstd::prelude::*;

verus! {

/// One of the five commodity colors. Wildcard ("gold") units are not a color:
/// they are tracked separately in [`crate::resources::Resources`].
#[derive(Clone, Copy, Debug, PartialEq, Eq, Structural)]
pub enum Resource {
    Green,
    Red,
    Blue,
    White,
    Black,
}

impl Resource {
    /// Position of this color in the fixed five-color ordering used by the
    /// move catalog and the byte encoders.
    pub fn catalog_index(self) -> (r: u8)
        ensures
            r == self.spec_catalog_index(),
            r < 5,
    {
        match self {
            Resource::Green => 0,
            Resource::Blue => 1,
            Resource::Red => 2,
            Resource::White => 3,
            Resource::Black => 4,
        }
    }

    pub open spec fn spec_catalog_index(self) -> u8 {
        match self {
            Resource::Green => 0,
            Resource::Blue => 1,
            Resource::Red => 2,
            Resource::White => 3,
            Resource::Black => 4,
        }
    }
}

} // verus!
