//! The tags of [`Entry`](super::Entry).

use vstd::prelude::*;

verus! {

pub const FILE_ID: u16 = 1;
pub const ENC: u16 = 2;
pub const NONCE: u16 = 3;
pub const CT: u16 = 4;

} // verus!
