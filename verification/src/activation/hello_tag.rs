//! The tags of [`Hello`](super::Hello).

use vstd::prelude::*;

verus! {

pub const DEVICE_FPR: u16 = 1;
pub const DEVICE_PUBLIC: u16 = 2;
pub const DEVICE_TPM: u16 = 3;
pub const DEVICE_HYBRID_KEM: u16 = 4;
pub const DEVICE_HYBRID_PUBLIC: u16 = 5;

} // verus!
