//! The tags of [`Proof`](super::Proof).

use vstd::prelude::*;

verus! {

pub const ECHO: u16 = 1;

} // verus!
