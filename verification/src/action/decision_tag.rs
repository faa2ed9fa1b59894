//! The tags of [`ActionDecision`](super::ActionDecision).

use vstd::prelude::*;

verus! {

pub const GRANT_ID: u16 = 1;
pub const DOOR_FPR: u16 = 2;
pub const SEQ: u16 = 3;
pub const APPROVE: u16 = 4;
pub const NOTE: u16 = 5;
pub const AUTHOR_KEY: u16 = 6;

} // verus!
