//! The tags of a [`Constraint`](super::Constraint) and of [`Args`](super::Args).

use vstd::prelude::*;

verus! {

pub const REMOTE: u16 = 1;
pub const BRANCH: u16 = 2;
pub const PATH: u16 = 3;
pub const FROM: u16 = 4;
pub const TO: u16 = 5;
pub const HOST: u16 = 6;
pub const METHODS: u16 = 7;
pub const PATH_PREFIX: u16 = 8;
pub const SECRET_REF: u16 = 9;
pub const BODY_DIGEST: u16 = 10;
pub const BODY_LEN: u16 = 11;

} // verus!
