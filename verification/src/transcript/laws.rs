//! What a signature in front of a document covers.

use crate::error::FormatError;
use crate::transcript::{self, ClaimView, Label};
use vstd::prelude::*;

verus! {

/// A document has a signature to check exactly where it has 64 bytes. They are the signature,
/// and it covers all that is behind them, under the label and the key asked for.
pub proof fn a_signature_stands_in_front(label: Label, b: Seq<u8>, key: Seq<u8>)
    ensures
        transcript::claimed(label, b, key) is Ok <==> b.len() >= 64,
        b.len() < 64 ==> transcript::claimed(label, b, key) == Err::<ClaimView, FormatError>(
            FormatError::BadHeaderSignature,
        ),
        transcript::claimed(label, b, key) matches Ok(c) ==> {
            &&& c.key == key
            &&& c.signature == b.subrange(0, 64)
            &&& c.transcript.label == label
            &&& c.transcript.body == b.subrange(64, b.len() as int)
        },
{
    if b.len() >= 64 {
        assert(b.take(64) =~= b.subrange(0, 64));
        assert(b.skip(64) =~= b.subrange(64, b.len() as int));
    }
}

} // verus!
