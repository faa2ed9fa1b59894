//! The tags of [`ActionRequest`](super::ActionRequest).

use vstd::prelude::*;

verus! {

pub const GRANT_ID: u16 = 1;
pub const DOOR_FPR: u16 = 2;
pub const KIND: u16 = 3;
pub const ARGS: u16 = 4;
pub const NONCE: u16 = 5;
pub const NOTE: u16 = 6;

} // verus!
