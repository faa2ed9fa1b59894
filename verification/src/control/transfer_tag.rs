//! The tags of [`Transfer`](super::Transfer).

use vstd::prelude::*;

verus! {

pub const VERSION: u16 = 1;
pub const AUTHORITY_ID: u16 = 2;
pub const FROM_EPOCH: u16 = 3;
pub const TO_EPOCH: u16 = 4;
pub const FROM_LEASE: u16 = 5;
pub const TRANSITION_AT: u16 = 6;
pub const OLD_LEASES: u16 = 7;
pub const ISSUED_AT: u16 = 8;
pub const EXPIRES_AT: u16 = 9;
pub const BINDING: u16 = 10;

} // verus!
