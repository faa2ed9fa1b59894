//! When a decision carries a share, and which queues are read.

use crate::access::{self, AskView, BlobView, DecisionView, PendingView, QueueError};
use crate::bytes;
use crate::error::FormatError;
use crate::text;
use crate::tlv::{self, Rec};
use vstd::prelude::*;
use vstd::utf8::*;

verus! {

/// An approval has all three parts of the share, and a refusal has none of them.
pub proof fn the_share_goes_with_an_approval(rs: Seq<Rec>, approve: bool)
    ensures
        ({
            let enc = tlv::lookup(rs, 9);
            let nonce = tlv::lookup(rs, 10);
            let ct = tlv::lookup(rs, 11);
            let r = access::share_in(rs, approve);
            &&& approve ==> (r is Ok <==> enc is Some && nonce is Some && ct is Some)
            &&& !approve ==> (r is Ok <==> enc is None && nonce is None && ct is None)
            &&& approve && r is Ok ==> r == Ok::<Option<BlobView>, FormatError>(
                Some(BlobView { enc: enc->0, nonce: nonce->0, ct: ct->0 }),
            )
            &&& !approve && r is Ok ==> r == Ok::<Option<BlobView>, FormatError>(None)
        }),
{
}

/// A request for access is written exactly where its note is accepted and its fields fit.
pub proof fn requests_that_are_written(a: AskView, p: PendingView)
    ensures
        access::ask_bytes(a) is Ok <==> text::note_fault(5, a.note) is None && tlv::sealed(a.recs())
            is Ok,
        access::ask_bytes(a) matches Ok(b) ==> b == tlv::wire(a.recs()),
        access::pending_bytes(p) is Ok <==> text::note_fault(5, p.note) is None && tlv::sealed(
            p.recs(),
        ) is Ok,
        access::pending_bytes(p) matches Ok(b) ==> b == tlv::wire(p.recs()),
{
}

/// A decision is written exactly where its fields fit, and ends with its signature, which the
/// body that is signed does not hold.
pub proof fn decisions_that_are_written(d: DecisionView)
    ensures
        access::decision_body_bytes(d) is Ok <==> tlv::sealed(d.recs()) is Ok,
        access::decision_bytes(d) is Ok <==> access::decision_body_bytes(d) is Ok,
        access::decision_bytes(d) matches Ok(b) ==> b == access::decision_body_bytes(d)->Ok_0
            + tlv::wire(seq![(13u16, d.signature)]),
{
    tlv::laws::records_stand_one_behind_the_other(
        (13u16, d.signature),
        Seq::empty(),
        Seq::empty(),
    );
}

/// What is signed of a decision does not depend on the signature.
pub proof fn the_signature_is_not_signed(d: DecisionView, other: Seq<u8>)
    ensures
        access::decision_body_bytes(DecisionView { signature: other, ..d })
            == access::decision_body_bytes(d),
{
}

/// A queue that is read is at most sixteen requests, each readable behind its length in four
/// bytes, and nothing else.
pub proof fn queues_that_are_read(b: Seq<u8>) -> (ds: Seq<Seq<u8>>)
    requires
        access::queue_behind(b, 0) is Ok,
    ensures
        ({
            let ps = access::queue_behind(b, 0)->Ok_0;
            &&& ps.len() <= 16
            &&& ds.len() == ps.len()
            &&& b == bytes::framed(ds)
            &&& forall|i: int|
                0 <= i < ds.len() ==> access::pending_of(#[trigger] ds[i]) == Ok::<
                    PendingView,
                    FormatError,
                >(ps[i])
        }),
{
    queue_from(b, 0)
}

proof fn queue_from(b: Seq<u8>, taken: nat) -> (ds: Seq<Seq<u8>>)
    requires
        access::queue_behind(b, taken) is Ok,
        taken <= 16,
    ensures
        ({
            let ps = access::queue_behind(b, taken)->Ok_0;
            &&& taken + ps.len() <= 16
            &&& ds.len() == ps.len()
            &&& b == bytes::framed(ds)
            &&& forall|i: int|
                0 <= i < ds.len() ==> access::pending_of(#[trigger] ds[i]) == Ok::<
                    PendingView,
                    FormatError,
                >(ps[i])
        }),
    decreases b.len(),
{
    if b.len() == 0 {
        let none = Seq::<Seq<u8>>::empty();
        assert(b =~= bytes::framed(none));
        none
    } else {
        let len = bytes::num32(b.subrange(0, 4)) as int;
        let record = b.subrange(4, 4 + len);
        let tail = b.skip(4 + len);
        let rest = queue_from(tail, taken + 1);
        let ds = seq![record] + rest;
        let ps = access::queue_behind(b, taken)->Ok_0;
        let more = access::queue_behind(tail, taken + 1)->Ok_0;
        assert(ds.drop_first() =~= rest);
        bytes::num32_round_trip(b.subrange(0, 4));
        assert(b =~= bytes::framed(ds));
        assert forall|i: int| 0 <= i < ds.len() implies access::pending_of(#[trigger] ds[i])
            == Ok::<PendingView, FormatError>(ps[i]) by {
            if i > 0 {
                assert(ds[i] == rest[i - 1]);
                assert(ps[i] == more[i - 1]);
            }
        }
        ds
    }
}

/// An empty queue is no requests.
pub proof fn an_empty_queue()
    ensures
        access::queue_behind(Seq::empty(), 0) == Ok::<Seq<PendingView>, QueueError>(Seq::empty()),
{
}

/// A document is read exactly where its records are, and they hold what it needs.
pub proof fn documents_that_are_read(b: Seq<u8>)
    ensures
        access::ask_of(b) is Ok <==> (
            tlv::read(access::AskSchema { waiting: false }, b) matches Ok(rs)
                && access::ask_in(rs) is Ok
        ),
        tlv::read(access::AskSchema { waiting: false }, b) matches Ok(rs)
            ==> access::ask_of(b) == access::ask_in(rs),
        access::pending_of(b) is Ok <==> (
            tlv::read(access::AskSchema { waiting: true }, b) matches Ok(rs)
                && access::pending_in(rs) is Ok
        ),
        tlv::read(access::AskSchema { waiting: true }, b) matches Ok(rs)
            ==> access::pending_of(b) == access::pending_in(rs),
        access::decision_of(b) is Ok <==> (
            tlv::read(access::DecisionSchema, b) matches Ok(rs)
                && access::decision_in(rs) is Ok
        ),
        tlv::read(access::DecisionSchema, b) matches Ok(rs)
            ==> access::decision_of(b) == access::decision_in(rs),
{
}

/// A queue is torn where it ends within the length of a record or within a record, and a record
/// that cannot be read refuses it for its own reason.
pub proof fn why_a_queue_is_refused(b: Seq<u8>, taken: nat)
    ensures
        1 <= b.len() < 4 ==> access::queue_behind(b, taken) == Err::<
            Seq<PendingView>,
            QueueError,
        >(
            QueueError::Torn("очередь оборвана на длине записи"),
        ),
        b.len() >= 4 && b.len() - 4 < bytes::num32(b.subrange(0, 4)) ==> access::queue_behind(
            b,
            taken,
        ) == Err::<Seq<PendingView>, QueueError>(
            QueueError::Torn("запись очереди короче объявленной длины"),
        ),
        b.len() >= 4 && b.len() - 4 >= bytes::num32(b.subrange(0, 4)) ==> (access::pending_of(
            b.subrange(4, 4 + bytes::num32(b.subrange(0, 4))),
        ) matches Err(e) ==> access::queue_behind(b, taken) == Err::<
            Seq<PendingView>,
            QueueError,
        >(
            QueueError::Record(e),
        )),
{
}

/// Where the fields of a request for access stand, and which of them have to be there.
pub proof fn where_the_fields_of_a_request_for_access_stand(rs: Seq<Rec>)
    ensures
        access::ask_in(rs) matches Ok(v) ==> {
            &&& tlv::lookup(rs, 1) == Some(v.file_id)
            &&& tlv::lookup(rs, 2) == Some(v.device_fpr)
            &&& tlv::lookup(rs, 3) == Some(v.device_public)
            &&& tlv::lookup(rs, 4) matches Some(b) && v.device_kem == b[0]
            &&& tlv::lookup(rs, 5) matches Some(b) && v.note == decode_utf8(b)
        },
        access::ask_in(rs) is Ok <==> {
            &&& tlv::lookup(rs, 1) is Some
            &&& tlv::lookup(rs, 2) is Some
            &&& tlv::lookup(rs, 3) is Some
            &&& tlv::lookup(rs, 4) is Some
            &&& tlv::lookup(rs, 5) is Some
        },
{
}

/// Where the fields of a waiting request stand, and which of them have to be there.
pub proof fn where_the_fields_of_a_waiting_request_stand(rs: Seq<Rec>)
    ensures
        access::pending_in(rs) matches Ok(v) ==> {
            &&& tlv::lookup(rs, 6) matches Some(b) && v.seq == bytes::num64(b)
            &&& tlv::lookup(rs, 1) == Some(v.file_id)
            &&& tlv::lookup(rs, 2) == Some(v.device_fpr)
            &&& tlv::lookup(rs, 3) == Some(v.device_public)
            &&& tlv::lookup(rs, 4) matches Some(b) && v.device_kem == b[0]
            &&& tlv::lookup(rs, 5) matches Some(b) && v.note == decode_utf8(b)
            &&& tlv::lookup(rs, 7) matches Some(b) && v.at == bytes::num64s(b)
        },
        access::pending_in(rs) is Ok <==> {
            &&& tlv::lookup(rs, 1) is Some
            &&& tlv::lookup(rs, 2) is Some
            &&& tlv::lookup(rs, 3) is Some
            &&& tlv::lookup(rs, 4) is Some
            &&& tlv::lookup(rs, 5) is Some
            &&& tlv::lookup(rs, 6) is Some
            &&& tlv::lookup(rs, 7) is Some
        },
{
}

/// Where the fields of a decision stand, and which of them have to be there.
pub proof fn where_the_fields_of_a_decision_stand(rs: Seq<Rec>)
    ensures
        access::decision_in(rs) matches Ok(v) ==> {
            &&& tlv::lookup(rs, 6) matches Some(b) && v.seq == bytes::num64(b)
            &&& tlv::lookup(rs, 1) == Some(v.file_id)
            &&& tlv::lookup(rs, 2) == Some(v.device_fpr)
            &&& tlv::lookup(rs, 8) matches Some(b) && (v.approve <==> b[0] == 1)
            &&& tlv::lookup(rs, 8) matches Some(b)
                && v.share_b == access::share_in(rs, b[0] == 1)->Ok_0
            &&& tlv::lookup(rs, 12) == Some(v.author_key)
            &&& tlv::lookup(rs, 13) == Some(v.signature)
        },
        access::decision_in(rs) is Ok <==> {
            &&& tlv::lookup(rs, 1) is Some
            &&& tlv::lookup(rs, 2) is Some
            &&& tlv::lookup(rs, 6) is Some
            &&& tlv::lookup(rs, 8) is Some
            &&& tlv::lookup(rs, 12) is Some
            &&& tlv::lookup(rs, 13) is Some
            &&& access::share_in(rs, tlv::lookup(rs, 8)->0[0] == 1) is Ok
        },
{
}

} // verus!
