//! What a signature is made over: a label, which says what kind of document it is, and
//! the document.
//!
//! One key signs documents of several kinds, and only the label keeps them apart: a
//! permission to open a file is no permission to carry out an action. So nothing here is
//! signed without one.

use crate::bytes::{array, owned, part};
use crate::error::FormatError;
use vstd::prelude::*;

pub mod laws;

verus! {

/// The length of a signature.
pub const SIGNATURE_LEN: usize = 64;

/// The kind of a document. Each has a domain of signatures of its own.
#[derive(Debug, Clone, Copy, PartialEq, Eq, Structural)]
pub enum Label {
    /// The decision on a request for access.
    Grant,
    /// A grant of actions.
    ActionGrant,
    /// A lease of one action.
    ActionLease,
    /// The decision on one action.
    ActionDecision,
    /// A grant to an agent.
    AgentGrant,
    /// A grant that is handed on.
    Delegation,
    /// A lease of a file.
    Lease,
    /// The binding of a server.
    AuthorityBinding,
    /// A transfer of authority.
    AuthorityTransfer,
    /// An order to a server.
    ControlRequest,
    /// A receipt for an order.
    OperationReceipt,
    /// A record of the directory: it is not signed but hashed, to the leaf of a tree.
    DirectoryEntry,
}

/// What is signed: the label and the document.
#[derive(Debug, Clone, PartialEq, Eq)]
pub struct Transcript {
    pub label: Label,
    pub body: Vec<u8>,
}

/// What a transcript covers.
pub struct TranscriptView {
    pub label: Label,
    pub body: Seq<u8>,
}

impl View for Transcript {
    type V = TranscriptView;

    open spec fn view(&self) -> TranscriptView {
        TranscriptView { label: self.label, body: self.body@ }
    }
}

impl Transcript {
    /// The transcript of a document.
    pub fn new(label: Label, body: &[u8]) -> (r: Transcript)
        ensures
            r@ == (TranscriptView { label, body: body@ }),
    {
        Transcript { label, body: owned(body) }
    }
}

/// A signature that is to be checked: under which key, over what.
#[derive(Debug, Clone, PartialEq, Eq)]
pub struct Claim {
    pub key: [u8; 32],
    pub transcript: Transcript,
    pub signature: [u8; SIGNATURE_LEN],
}

/// What a claim says.
pub struct ClaimView {
    pub key: Seq<u8>,
    pub transcript: TranscriptView,
    pub signature: Seq<u8>,
}

impl View for Claim {
    type V = ClaimView;

    open spec fn view(&self) -> ClaimView {
        ClaimView { key: self.key@, transcript: self.transcript@, signature: self.signature@ }
    }
}

/// The claim that signed bytes make: the signature stands before the body, which it covers
/// to the last byte. Bytes too short for a signature have a bad one.
pub open spec fn claimed(label: Label, bytes: Seq<u8>, key: Seq<u8>) -> Result<
    ClaimView,
    FormatError,
> {
    if bytes.len() < SIGNATURE_LEN {
        Err(FormatError::BadHeaderSignature)
    } else {
        Ok(
            ClaimView {
                key,
                transcript: TranscriptView { label, body: bytes.skip(SIGNATURE_LEN as int) },
                signature: bytes.take(SIGNATURE_LEN as int),
            },
        )
    }
}

/// The claim that signed bytes make under a key.
pub fn claim(label: Label, bytes: &[u8], key: &[u8; 32]) -> (r: Result<Claim, FormatError>)
    ensures
        crate::tlv::agrees(r, claimed(label, bytes@, key@)),
{
    if bytes.len() < SIGNATURE_LEN {
        return Err(FormatError::BadHeaderSignature);
    }
    let signature = part(bytes, 0, SIGNATURE_LEN);
    let body = part(bytes, SIGNATURE_LEN, bytes.len());
    assert(signature@ =~= bytes@.take(SIGNATURE_LEN as int));
    assert(body@ =~= bytes@.skip(SIGNATURE_LEN as int));
    Ok(Claim { key: *key, transcript: Transcript::new(label, body), signature: array(signature) })
}

/// A claim covers everything that was sent: two documents that make the same claim are the
/// same bytes, of the same kind.
pub proof fn a_claim_covers_the_document(l: Label, m: Label, a: Seq<u8>, b: Seq<u8>, key: Seq<u8>)
    requires
        claimed(l, a, key) is Ok,
        claimed(l, a, key) == claimed(m, b, key),
    ensures
        l == m,
        a == b,
{
    let n = SIGNATURE_LEN as int;
    assert(a =~= a.take(n) + a.skip(n));
    assert(b =~= b.take(n) + b.skip(n));
}

} // verus!
