//! What a verdict on a device key rests on.

use vstd::prelude::*;

verus! {

/// A certificate of the maker of the security chip.
pub const VENDOR_CERTIFICATE: u8 = 1;

/// An endorsement key that was enrolled beforehand.
pub const ENROLLED_EK: u8 = 2;

} // verus!
