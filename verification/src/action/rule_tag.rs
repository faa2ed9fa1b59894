//! The tags of [`ActionRule`](super::ActionRule).

use vstd::prelude::*;

verus! {

pub const KIND: u16 = 1;
pub const CONSTRAINT: u16 = 2;
pub const MAX_USES: u16 = 3;
pub const CONFIRM: u16 = 4;
pub const DELEGABLE: u16 = 5;

} // verus!
