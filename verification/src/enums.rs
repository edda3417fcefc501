//! Enumerating the values of a closed type, for the upstream feed's
//! generated category enums; implemented where those types live.

use vstd::prelude::*;

verus! {

/// A type whose values can all be listed.
pub trait Enum where Self: Sized {
    /// Every value of the type.
    fn values() -> Vec<Self>;
}

} // verus!
