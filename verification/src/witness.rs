//! Heads of logs: fixed layouts, no records.

use crate::bytes::{self, append, array, part, read64, write64};
use crate::error::FormatError;
use crate::tlv;
use vstd::prelude::*;

pub mod laws;

verus! {

/// The logs that a server keeps. A head signed for one is no head of the other.
#[derive(Debug, Clone, Copy, PartialEq, Eq, Structural)]
pub enum Log {
    Journal,
    Directory,
}

/// The length of a signed head.
pub const SIGNED_HEAD_LEN: usize = 104;

/// The head of a log with the server's signature.
#[derive(Debug, Clone, PartialEq, Eq)]
pub struct SignedHead {
    pub size: u64,
    pub root: [u8; 32],
    pub sig: [u8; 64],
}

/// What a signed head says.
pub struct HeadView {
    pub size: u64,
    pub root: Seq<u8>,
    pub sig: Seq<u8>,
}

impl View for SignedHead {
    type V = HeadView;

    open spec fn view(&self) -> HeadView {
        HeadView { size: self.size, root: self.root@, sig: self.sig@ }
    }
}

impl HeadView {
    /// The fields of fixed length have it.
    pub open spec fn sized(self) -> bool {
        self.root.len() == 32 && self.sig.len() == 64
    }
}

/// The bytes of a signed head.
pub open spec fn head_bytes(h: HeadView) -> Seq<u8> {
    bytes::le64(h.size) + h.root + h.sig
}

/// The signed head that the bytes hold.
pub open spec fn head_of(bytes: Seq<u8>) -> Result<HeadView, FormatError> {
    if bytes.len() == SIGNED_HEAD_LEN {
        Ok(
            HeadView {
                size: bytes::num64(bytes.subrange(0, 8)),
                root: bytes.subrange(8, 40),
                sig: bytes.subrange(40, 104),
            },
        )
    } else {
        Err(FormatError::BadFieldLength { tag: 0, len: bytes.len() as usize })
    }
}

/// A signed head survives being written and read back.
pub proof fn head_round_trip(h: HeadView)
    requires
        h.sized(),
    ensures
        head_bytes(h).len() == SIGNED_HEAD_LEN,
        head_of(head_bytes(h)) == Ok::<HeadView, FormatError>(h),
{
    broadcast use bytes::group_numbers;

    let b = head_bytes(h);
    assert(b.subrange(0, 8) =~= bytes::le64(h.size));
    assert(b.subrange(8, 40) =~= h.root);
    assert(b.subrange(40, 104) =~= h.sig);
}

impl SignedHead {
    /// The bytes of the head.
    pub fn encode(&self) -> (r: Vec<u8>)
        ensures
            r@ == head_bytes(self@),
    {
        let mut out = write64(self.size);
        append(&mut out, self.root.as_slice());
        append(&mut out, self.sig.as_slice());
        out
    }

    /// Read a head.
    pub fn decode(bytes: &[u8]) -> (r: Result<SignedHead, FormatError>)
        ensures
            tlv::agrees(r, head_of(bytes@)),
    {
        if bytes.len() != SIGNED_HEAD_LEN {
            return Err(FormatError::BadFieldLength { tag: 0, len: bytes.len() });
        }
        Ok(
            SignedHead {
                size: read64(part(bytes, 0, 8)),
                root: array(part(bytes, 8, 40)),
                sig: array(part(bytes, 40, 104)),
            },
        )
    }
}

} // verus!
