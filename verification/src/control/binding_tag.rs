//! The tags of [`Binding`](super::Binding).

use vstd::prelude::*;

verus! {

pub const VERSION: u16 = 1;
pub const TENANT: u16 = 2;
pub const AUTHORITY_ID: u16 = 3;
pub const EPOCH: u16 = 4;
pub const REVISION: u16 = 5;
pub const LEASE_PUBLIC: u16 = 6;
pub const SEALING_PUBLIC: u16 = 7;
pub const URLS: u16 = 8;
pub const PINS: u16 = 9;
pub const DURABILITY: u16 = 10;
pub const RECOVERY: u16 = 11;
pub const STATUS: u16 = 12;
pub const ROSTER: u16 = 13;
pub const THRESHOLD: u16 = 14;
pub const OPERATION_ID: u16 = 15;
pub const PREVIOUS: u16 = 16;
pub const ISSUED_AT: u16 = 17;
pub const EXPIRES_AT: u16 = 18;

} // verus!
