//! The tags of [`Evidence`](super::Evidence).

use vstd::prelude::*;

verus! {

pub const EK_PUBLIC: u16 = 1;
pub const EK_CERTIFICATE: u16 = 2;
pub const INTERMEDIATES: u16 = 3;
pub const IDENTITY_PUBLIC: u16 = 4;
pub const ATTEST: u16 = 5;
pub const SIGNATURE: u16 = 6;
pub const DEVICE_PUBLIC: u16 = 7;

} // verus!
