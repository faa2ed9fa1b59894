//! The tags of [`Lease`](super::Lease).

use vstd::prelude::*;

verus! {

/// The version of the document.
pub const VERSION: u16 = 1;

/// The file.
pub const FILE_ID: u16 = 2;

/// The device.
pub const DEVICE_FPR: u16 = 3;

/// The hash of the policy under which the lease was granted.
pub const POLICY_HASH: u16 = 4;

/// Grows with every lease of a file for a device.
pub const SEQ: u16 = 5;

/// Grows with a revocation.
pub const EPOCH: u16 = 6;

/// When the lease was granted.
pub const ISSUED_AT: u16 = 7;

/// When the lease ends.
pub const EXPIRES_AT: u16 = 8;

/// Whether the lease is active or revoked; always written.
pub const STATUS: u16 = 9;

/// How often the file may still be opened. Always written: an empty value says that
/// there is no limit, and no value says nothing.
pub const OPENS_REMAINING: u16 = 10;

/// The clock of the device when the lease was granted.
pub const TPM_CLOCK: u16 = 11;

/// The policy of the server.
pub const SERVER_POLICY: u16 = 12;

/// The grounds on which the key of the device was attested.
pub const ATTESTED: u16 = 13;

} // verus!
