//! The tags of [`Delegation`](super::Delegation).

use vstd::prelude::*;

verus! {

pub const GRANT_ID: u16 = 1;
pub const PARENT_FPR: u16 = 2;
pub const CHILD_FPR: u16 = 3;
pub const CHILD_KEM: u16 = 4;
pub const CHILD_PUBLIC: u16 = 5;
pub const CHILD_VERIFY: u16 = 6;
pub const ENTRIES: u16 = 7;
pub const EXPIRES_AT: u16 = 8;
pub const TIGHTENING: u16 = 9;
pub const DEPTH: u16 = 10;
pub const ACTIONS: u16 = 0x8001;

} // verus!
