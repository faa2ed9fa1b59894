//! The tags of [`AgentGrant`](super::AgentGrant).

use vstd::prelude::*;

verus! {

pub const GRANT_ID: u16 = 1;
pub const DOOR_FPR: u16 = 2;
pub const DOOR_KEM: u16 = 3;
pub const DOOR_PUBLIC: u16 = 4;
pub const DOOR_VERIFY: u16 = 5;
pub const ENTRIES: u16 = 6;
pub const ISSUED_AT: u16 = 7;
pub const EXPIRES_AT: u16 = 8;
pub const TIGHTENING: u16 = 9;
pub const MAX_DEPTH: u16 = 10;
pub const AUTHOR_KEY: u16 = 11;

} // verus!
