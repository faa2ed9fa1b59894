//! The tags of the answer that carries a chain. The two behind the documents are
//! optional: a reader that does not know them reads the documents all the same.

use vstd::prelude::*;

verus! {

pub const DOCUMENTS: u16 = 1;
pub const LEASE_VERIFY_KEY: u16 = 0x8001;
pub const ACTION_GRANT: u16 = 0x8002;

} // verus!
