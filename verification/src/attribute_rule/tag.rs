//! The tags of [`Rule`](super::Rule).

use vstd::prelude::*;

verus! {

pub const MAX_LEASE: u16 = 1;
pub const CLAUSES: u16 = 2;
pub const TIGHTENINGS: u16 = 3;

} // verus!
