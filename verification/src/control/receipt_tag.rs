//! The tags of [`Receipt`](super::Receipt).

use vstd::prelude::*;

verus! {

pub const VERSION: u16 = 1;
pub const REQUEST_HASH: u16 = 2;
pub const OPERATION_ID: u16 = 3;
pub const OUTCOME: u16 = 4;
pub const REVISION: u16 = 5;
pub const COMMIT: u16 = 6;
pub const EPOCH: u16 = 7;
pub const DURABILITY: u16 = 8;
pub const REASON: u16 = 9;
pub const AT: u16 = 10;

} // verus!
