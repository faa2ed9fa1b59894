//! Where the parts of a signed head stand.

use crate::witness;
use vstd::bytes::*;
use vstd::prelude::*;

verus! {

/// A signed head is 104 bytes: the size in eight, the root in 32, and the signature in 64.
pub proof fn parts_of_a_signed_head(b: Seq<u8>)
    ensures
        witness::head_of(b) is Ok <==> b.len() == 104,
        witness::head_of(b) matches Ok(h) ==> {
            &&& h.size == spec_u64_from_le_bytes(b.subrange(0, 8))
            &&& h.root == b.subrange(8, 40)
            &&& h.sig == b.subrange(40, 104)
        },
{
}

} // verus!
