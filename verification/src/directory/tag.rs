//! The tags of [`Record`](super::Record).

use vstd::prelude::*;

verus! {

pub const TENANT: u16 = 1;
pub const NAME: u16 = 2;
pub const KEM: u16 = 3;
pub const PUBLIC: u16 = 4;
pub const FPR: u16 = 5;
pub const VERSION: u16 = 6;
pub const STATE: u16 = 7;
pub const ORIGIN: u16 = 8;
pub const AT: u16 = 9;

} // verus!
