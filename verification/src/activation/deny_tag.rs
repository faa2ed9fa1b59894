//! The tags of [`Deny`](super::Deny).

use vstd::prelude::*;

verus! {

pub const TEXT: u16 = 1;
pub const OPERATION_ID: u16 = 2;

} // verus!
