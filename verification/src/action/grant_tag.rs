//! The tags of [`ActionGrant`](super::ActionGrant).

use vstd::prelude::*;

verus! {

pub const GRANT_ID: u16 = 1;
pub const RULES: u16 = 2;
pub const ISSUED_AT: u16 = 3;
pub const EXPIRES_AT: u16 = 4;
pub const AUTHOR_KEY: u16 = 5;

} // verus!
