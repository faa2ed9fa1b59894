//! The tags of [`ActionLease`](super::ActionLease).

use vstd::prelude::*;

verus! {

pub const GRANT_ID: u16 = 1;
pub const DOOR_FPR: u16 = 2;
pub const KIND: u16 = 3;
pub const ARGS: u16 = 4;
pub const NONCE: u16 = 5;
pub const ISSUED_AT: u16 = 6;
pub const EXPIRES_AT: u16 = 7;
pub const SEQ: u16 = 8;

} // verus!
