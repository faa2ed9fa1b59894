//! The tags of [`PendingAction`](super::PendingAction).

use vstd::prelude::*;

verus! {

pub const SEQ: u16 = 1;
pub const GRANT_ID: u16 = 2;
pub const DOOR_FPR: u16 = 3;
pub const KIND: u16 = 4;
pub const ARGS: u16 = 5;
pub const NONCE: u16 = 6;
pub const NOTE: u16 = 7;
pub const AT: u16 = 8;

} // verus!
