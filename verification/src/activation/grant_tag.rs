//! The tags of [`Grant`](super::Grant).

use vstd::prelude::*;

verus! {

pub const SHARE: u16 = 1;
pub const LEASE: u16 = 2;
pub const OPERATION_ID: u16 = 3;

} // verus!
