//! The static description of one resource category, as configuration
//! lists it: the category's identifier and its tier.

use vstd::prelude::*;

verus! {

/// One resource category from the static configuration table.
#[derive(Clone, Copy, PartialEq, Eq, Structural, Debug)]
pub struct Resource {
    pub tier: u8,
    pub id: i32,
}

} // verus!
