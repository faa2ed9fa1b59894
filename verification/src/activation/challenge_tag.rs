//! The tags of [`Challenge`](super::Challenge).

use vstd::prelude::*;

verus! {

pub const SOFTWARE: u16 = 1;
pub const HARDWARE: u16 = 2;
pub const HYBRID: u16 = 3;

} // verus!
