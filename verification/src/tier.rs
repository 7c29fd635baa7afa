//! The tiers of a dependency conflict.

use vstd::prelude::*;

verus! {

/// Major versions differ: the conflict counts.
pub const MAJOR: &'static str = "major";

/// A version cannot be read: the conflict is only advice.
pub const UNPARSEABLE: &'static str = "unparseable";

} // verus!
