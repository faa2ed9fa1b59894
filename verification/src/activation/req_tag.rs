//! The tags of [`ActivateReq`](super::ActivateReq).

use vstd::prelude::*;

verus! {

pub const FILE_ID: u16 = 1;
pub const POLICY_HASH: u16 = 2;
pub const DEVICE_FPR: u16 = 3;
pub const DEVICE_KEM: u16 = 4;
pub const DEVICE_PUBLIC: u16 = 5;
pub const SERVER_SLOT: u16 = 6;
pub const LEASE_SECONDS: u16 = 7;
pub const DEVICE_CLOCK: u16 = 8;
pub const OPERATION_ID: u16 = 9;

} // verus!
