//! The tags of [`ControlRequest`](super::ControlRequest).

use vstd::prelude::*;

verus! {

pub const VERSION: u16 = 1;
pub const TENANT: u16 = 2;
pub const AUTHORITY_ID: u16 = 3;
pub const EPOCH: u16 = 4;
pub const OPERATION_ID: u16 = 5;
pub const SCOPE: u16 = 6;
pub const EXPECTED_REVISION: u16 = 7;
pub const ISSUED_AT: u16 = 8;
pub const EXPIRES_AT: u16 = 9;
pub const PAYLOAD_KIND: u16 = 10;
pub const PAYLOAD: u16 = 11;

} // verus!
