//! The events of the journal that a notice can name.

use vstd::prelude::*;

verus! {

pub const FILE_REGISTERED: u8 = 1;
pub const DEVICE_ACTIVATED: u8 = 2;
pub const LEASE_ISSUED: u8 = 3;
pub const REVOKED: u8 = 4;
pub const ACCESS_REQUESTED: u8 = 9;
pub const ACCESS_DECIDED: u8 = 10;
pub const COAUTHORS_SET: u8 = 11;
pub const APPROVERS_SET: u8 = 12;
pub const DEVICE_APPROVED: u8 = 13;
pub const ISSUE_HELD_FOR_QUORUM: u8 = 14;
pub const LIMITS_CHANGED: u8 = 15;
pub const HEIR_SET: u8 = 16;
pub const HEIR_RELEASED: u8 = 17;
pub const CLOSED_BY_SILENCE: u8 = 18;
pub const PROPOSAL_ENDORSED: u8 = 19;
pub const FROZEN: u8 = 20;
pub const THAWED: u8 = 21;
pub const AGENT_GRANT_REGISTERED: u8 = 29;
pub const DELEGATION_REGISTERED: u8 = 30;
pub const AGENT_GRANT_REVOKED: u8 = 31;
pub const ACTION_GRANT_REGISTERED: u8 = 32;
pub const ACTION_REQUESTED: u8 = 33;
pub const ACTION_LEASED: u8 = 34;
pub const ACTION_DONE: u8 = 35;
pub const ACTION_FAILED: u8 = 36;

} // verus!
