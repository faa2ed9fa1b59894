//! The numbers of the messages, and how their bodies are laid out and bounded.

use crate::activation::{
    self, ActivateView, ChallengeView, ClockReport, DenyView, GrantView, NoticeView, RequestView,
    ResponseView, SlotView,
};
use crate::attestation;
use crate::bytes;
use crate::error::FormatError;
use crate::text;
use crate::tlv::{self, Rec};
use vstd::bytes::*;
use vstd::prelude::*;
use vstd::utf8::*;

verus! {

/// The numbers of the requests.
pub proof fn numbers_of_requests(v: RequestView)
    ensures
        v is Hello <==> v.kind() == 1,
        v is Prove <==> v.kind() == 2,
        v is Activate <==> v.kind() == 3,
        v is Ask <==> v.kind() == 8,
        v is Requests <==> v.kind() == 15,
        v is Collect <==> v.kind() == 9,
        v is Watch <==> v.kind() == 17,
        v is WatchAuthor <==> v.kind() == 30,
        v is Revocation <==> v.kind() == 19,
        v is Renew <==> v.kind() == 22,
        v is Register <==> v.kind() == 23,
        v is Revoke <==> v.kind() == 24,
        v is Decide <==> v.kind() == 10,
        v is Order <==> v.kind() == 25,
        v is Endorse <==> v.kind() == 26,
        v is Standing <==> v.kind() == 27,
        v is AttestOpen <==> v.kind() == 31,
        v is AttestEvidence <==> v.kind() == 32,
        v is AttestSecret <==> v.kind() == 33,
        v is RegisterEdition <==> v.kind() == 37,
        v is JournalView <==> v.kind() == 38,
        v is DirectoryView <==> v.kind() == 40,
        v is DirectoryLookup <==> v.kind() == 41,
        v is DirectoryRecords <==> v.kind() == 43,
        v is Control <==> v.kind() == 45,
        v is Binding <==> v.kind() == 47,
        v is ReplicaPush <==> v.kind() == 49,
        v is PutGrant <==> v.kind() == 51,
        v is PutDelegation <==> v.kind() == 52,
        v is FetchChain <==> v.kind() == 53,
        v is PutActionGrant <==> v.kind() == 57,
        v is RequestAction <==> v.kind() == 58,
        v is ReportAction <==> v.kind() == 59,
        v is ActionRequests <==> v.kind() == 60,
        v is DecideAction <==> v.kind() == 61,
{
}

/// The numbers of the responses.
pub proof fn numbers_of_responses(v: ResponseView)
    ensures
        v is Challenge <==> v.kind() == 4,
        v is Proven <==> v.kind() == 5,
        v is Granted <==> v.kind() == 6,
        v is Denied <==> v.kind() == 7,
        v is Asked <==> v.kind() == 11,
        v is Queue <==> v.kind() == 16,
        v is Decided <==> v.kind() == 12,
        v is Waiting <==> v.kind() == 13,
        v is Accepted <==> v.kind() == 14,
        v is Notice <==> v.kind() == 18,
        v is Revocation <==> v.kind() == 20,
        v is NotRevoked <==> v.kind() == 21,
        v is Standing <==> v.kind() == 29,
        v is Endorsed <==> v.kind() == 28,
        v is AttestNonce <==> v.kind() == 34,
        v is AttestCredential <==> v.kind() == 35,
        v is Attested <==> v.kind() == 36,
        v is LogView <==> v.kind() == 39,
        v is DirectoryEntry <==> v.kind() == 42,
        v is DirectoryRecords <==> v.kind() == 44,
        v is Receipt <==> v.kind() == 46,
        v is Binding <==> v.kind() == 48,
        v is ReplicaAck <==> v.kind() == 50,
        v is ChainStored <==> v.kind() == 54,
        v is Chain <==> v.kind() == 55,
        v is NoChain <==> v.kind() == 56,
        v is ActionGranted <==> v.kind() == 62,
        v is ActionPending <==> v.kind() == 63,
        v is ActionRefused <==> v.kind() == 64,
        v is ActionQueue <==> v.kind() == 65,
{
}

/// What is read from a body is of the kind that it was read as.
pub proof fn a_message_is_of_its_kind(
    kind: u8,
    body: Seq<u8>,
    prints: Seq<Option<[u8; 32]>>,
    view: Option<FormatError>,
)
    ensures
        activation::request_in(kind, body) matches Ok(v) ==> v.kind() == kind,
        activation::response_in(kind, body, prints, view) matches Ok(v) ==> v.kind() == kind,
{
}

/// A message is its kind in one byte and the body behind it; an empty one has no kind.
pub proof fn the_kind_stands_first(kind: u8, body: Seq<u8>, b: Seq<u8>)
    ensures
        activation::message(kind, body).len() == body.len() + 1,
        activation::message(kind, body)[0] == kind,
        activation::message(kind, body).skip(1) == body,
        activation::kind_of(b) is Ok <==> b.len() > 0,
        activation::kind_of(b) matches Ok((k, rest)) ==> k == b[0] && rest == b.skip(1),
{
    assert(activation::message(kind, body).skip(1) =~= body);
}

/// What is asked under the protection of a session is an activation, a renewal and an
/// attestation, and nothing else.
pub proof fn what_a_session_protects(kind: u8, v: RequestView)
    ensures
        activation::session_sealed(kind) <==> kind == 3 || kind == 22 || kind == 31 || kind == 32
            || kind == 33,
        activation::session_sealed(v.kind()) <==> v is Activate || v is Renew || v is AttestOpen
            || v is AttestEvidence || v is AttestSecret,
{
}

/// A body of a fixed length has it, and one that is passed on as it is has one byte to a
/// mebibyte.
pub proof fn lengths_of_bodies(b: Seq<u8>, n: nat)
    ensures
        activation::exact_of(b, n) is Ok <==> b.len() == n,
        activation::exact_of(b, n) matches Ok(x) ==> x == b,
        activation::opaque_of(b) is Ok <==> 1 <= b.len() <= 1_048_576,
        activation::opaque_of(b) matches Ok(x) ==> x == b,
{
}

/// When a single value is refused.
pub proof fn values_that_are_refused(tag: u16, v: Seq<u8>, n: u8)
    ensures
        activation::nonempty_fault(tag, v) is None <==> v.len() > 0,
        activation::utf8_fault(tag, v) is None <==> valid_utf8(v),
        activation::basis_known(n) <==> n == 1 || n == 2,
        activation::hybrid_len(4) == Some(1216nat),
        activation::hybrid_len(5) == Some(1249nat),
        n != 4 && n != 5 ==> activation::hybrid_len(n) is None,
{
}

/// A hybrid key comes with its mechanism or not at all, and has the length of the mechanism.
pub proof fn a_hybrid_key_comes_with_its_mechanism(rs: Seq<Rec>)
    ensures
        ({
            let kem = tlv::lookup(rs, 4);
            let public = tlv::lookup(rs, 5);
            let r = activation::hybrid_in(rs);
            &&& r is Ok <==> {
                ||| kem is None && public is None
                ||| kem is Some && public is Some && ((kem->0[0] == 4 && public->0.len() == 1216)
                    || (kem->0[0] == 5 && public->0.len() == 1249))
            }
            &&& r matches Ok(None) ==> kem is None && public is None
            &&& r matches Ok(Some((k, p))) ==> kem is Some && k == kem->0[0] && public == Some(p)
            &&& kem is Some && public is None ==> r == Err::<Option<(u8, Seq<u8>)>, FormatError>(
                FormatError::MissingField { tag: 5 },
            )
            &&& kem is None && public is Some ==> r == Err::<Option<(u8, Seq<u8>)>, FormatError>(
                FormatError::MissingField { tag: 4 },
            )
        }),
{
}

/// A report of a clock is twenty bytes: the resets in four, the clock in eight, the time of
/// reading in eight.
pub proof fn where_the_clock_stands(c: ClockReport, b: Seq<u8>)
    ensures
        activation::clock_bytes(c) == spec_u32_to_le_bytes(c.reset_count) + spec_u64_to_le_bytes(
            c.clock_ms,
        ) + spec_u64_to_le_bytes(c.read_at as u64),
        activation::clock_of(b).reset_count == spec_u32_from_le_bytes(b.subrange(0, 4)),
        activation::clock_of(b).clock_ms == spec_u64_from_le_bytes(b.subrange(4, 12)),
        activation::clock_of(b).read_at == spec_u64_from_le_bytes(b.subrange(12, 20)) as i64,
{
}

/// A sealed blob is the key behind its length in four bytes, the nonce in 24, and the
/// ciphertext behind its length in four, with nothing behind.
pub proof fn where_a_blob_stands(s: SlotView, b: Seq<u8>)
    ensures
        activation::slot_bytes(s) == spec_u32_to_le_bytes(s.enc.len() as u32) + s.enc + s.nonce
            + spec_u32_to_le_bytes(s.ct.len() as u32) + s.ct,
        s.fits() <==> s.enc.len() <= 4_294_967_295 && s.ct.len() <= 4_294_967_295,
        activation::slot_of(b) matches Ok(s) ==> {
            &&& b.len() == 32 + s.enc.len() + s.ct.len()
            &&& s.nonce.len() == 24
            &&& s.enc.len() == spec_u32_from_le_bytes(b.subrange(0, 4))
            &&& s.enc == b.subrange(4, 4 + s.enc.len() as int)
            &&& s.nonce == b.subrange(4 + s.enc.len() as int, 28 + s.enc.len() as int)
            &&& s.ct == b.skip(32 + s.enc.len() as int)
        },
        activation::slot_fault(b) is None <==> activation::slot_of(b) is Ok,
{
    if let Ok(s) = activation::slot_of(b) {
        assert(s.ct =~= b.skip(32 + s.enc.len() as int));
    }
}

/// An activation, a grant and a refusal have at most a mebibyte.
pub proof fn documents_have_at_most_a_mebibyte(b: Seq<u8>)
    ensures
        activation::req_of(b) is Ok ==> b.len() <= 1_048_576,
        activation::grant_of(b) is Ok ==> b.len() <= 1_048_576,
        activation::deny_of(b) is Ok ==> b.len() <= 1_048_576,
        b.len() > 1_048_576 ==> activation::req_of(b) == Err::<ActivateView, FormatError>(
            FormatError::OffsetOverflow,
        ),
        b.len() > 1_048_576 ==> activation::grant_of(b) == Err::<GrantView, FormatError>(
            FormatError::OffsetOverflow,
        ),
        b.len() > 1_048_576 ==> activation::deny_of(b) == Err::<DenyView, FormatError>(
            FormatError::OffsetOverflow,
        ),
{
}

/// An activation and a challenge are written exactly where their blobs and fields fit.
pub proof fn what_holds_blobs_is_written(a: ActivateView, c: ChallengeView)
    ensures
        activation::req_bytes(a) is Ok <==> a.server_slot.fits() && tlv::sealed(a.recs()) is Ok,
        activation::req_bytes(a) matches Ok(b) ==> b == tlv::wire(a.recs()),
        activation::challenge_bytes(c) is Ok <==> c.fits() && tlv::sealed(c.recs()) is Ok,
        activation::challenge_bytes(c) matches Ok(b) ==> b == tlv::wire(c.recs()),
        c.fits() <==> c.software.fits() && (c.hardware matches Some(s) ==> s.fits()) && (
        c.hybrid matches Some(s) ==> s.fits()),
{
}

/// A chain is written exactly where it is one to five documents of one byte to a mebibyte each,
/// and they stand one behind the other, each behind its length.
pub proof fn chains_that_are_written(ds: Seq<Seq<u8>>)
    ensures
        activation::chain_bytes(ds) is Ok <==> 1 <= ds.len() <= 5 && (forall|i: int|
            0 <= i < ds.len() ==> 1 <= (#[trigger] ds[i]).len() <= 1_048_576),
        activation::chain_bytes(ds) matches Ok(b) ==> b == bytes::framed(ds),
{
    no_document_at_fault(ds);
}

proof fn no_document_at_fault(ds: Seq<Seq<u8>>)
    ensures
        activation::document_fault(ds) is None <==> (forall|i: int|
            0 <= i < ds.len() ==> 1 <= (#[trigger] ds[i]).len() <= 1_048_576),
    decreases ds.len(),
{
    if ds.len() > 0 {
        let rest = ds.drop_first();
        no_document_at_fault(rest);
        if activation::document_fault(ds) is None {
            assert forall|i: int| 0 <= i < ds.len() implies 1 <= (#[trigger] ds[i]).len()
                <= 1_048_576 by {
                if i > 0 {
                    assert(rest[i - 1] == ds[i]);
                }
            }
        }
        if forall|i: int| 0 <= i < ds.len() ==> 1 <= (#[trigger] ds[i]).len() <= 1_048_576 {
            assert(1 <= ds[0].len() <= 1_048_576);
            assert forall|i: int| 0 <= i < rest.len() implies 1 <= (#[trigger] rest[i]).len()
                <= 1_048_576 by {
                assert(rest[i] == ds[i + 1]);
            }
        }
    }
}

/// A chain that is read could be written, and is what was written.
pub proof fn chains_that_are_read(b: Seq<u8>)
    ensures
        activation::chain_of(b) matches Ok(ds) ==> activation::chain_bytes(ds) == Ok::<
            Seq<u8>,
            FormatError,
        >(b),
{
    if let Ok(ds) = activation::chain_of(b) {
        chain_from(b, 0);
        chains_that_are_written(ds);
    }
}

proof fn chain_from(b: Seq<u8>, taken: nat)
    requires
        activation::chain_behind(b, taken) is Ok,
        taken <= 5,
    ensures
        ({
            let ds = activation::chain_behind(b, taken)->Ok_0;
            &&& taken + ds.len() <= 5
            &&& b.len() > 0 ==> ds.len() > 0
            &&& b == bytes::framed(ds)
            &&& forall|i: int| 0 <= i < ds.len() ==> 1 <= (#[trigger] ds[i]).len() <= 1_048_576
        }),
    decreases b.len(),
{
    let ds = activation::chain_behind(b, taken)->Ok_0;
    if b.len() == 0 {
        assert(b =~= bytes::framed(ds));
    } else {
        let len = bytes::num32(b.subrange(0, 4)) as int;
        let tail = b.skip(4 + len);
        chain_from(tail, taken + 1);
        let rest = activation::chain_behind(tail, taken + 1)->Ok_0;
        assert(ds.drop_first() =~= rest);
        bytes::num32_round_trip(b.subrange(0, 4));
        assert(b =~= bytes::framed(ds));
        assert forall|i: int| 0 <= i < ds.len() implies 1 <= (#[trigger] ds[i]).len()
            <= 1_048_576 by {
            if i > 0 {
                assert(ds[i] == rest[i - 1]);
            }
        }
    }
}

/// A watch is written exactly where it is over one to 32 files: the number it goes on from in
/// eight bytes, how many files there are in one, and the files.
pub proof fn watches_that_are_written(files: Seq<Seq<u8>>, since: u64, body: Seq<u8>)
    ensures
        activation::watch_bytes(files, since) is Ok <==> 1 <= files.len() <= 32,
        activation::watch_bytes(files, since) matches Ok(b) ==> b == spec_u64_to_le_bytes(since)
            + seq![files.len() as u8] + bytes::joined(files),
        activation::watch_of(body) is Ok <==> body.len() >= 9 && 1 <= body[8] <= 32 && body.len()
            == 9 + 16 * body[8],
        activation::watch_of(body) matches Ok((fs, from)) ==> {
            &&& fs.len() == body[8]
            &&& from == spec_u64_from_le_bytes(body.subrange(0, 8))
            &&& bytes::joined(fs) == body.skip(9)
            &&& forall|i: int| 0 <= i < fs.len() ==> (#[trigger] fs[i]).len() == 16
        },
{
    if activation::watch_of(body) is Ok {
        let tail = body.skip(9);
        bytes::laws::pieces_of_a_length(tail, 16, 0);
        bytes::joined_chunks(tail, 16);
        bytes::chunks_are_sized(tail, 16);
    }
}

/// A registration is a header of one byte to a mebibyte behind its length, and an order of as
/// much behind it.
pub proof fn registrations(header: Seq<u8>, order: Seq<u8>, body: Seq<u8>)
    ensures
        activation::register_bytes(header, order) is Ok <==> 1 <= header.len() <= 1_048_576 && 1
            <= order.len() <= 1_048_576,
        activation::register_bytes(header, order) matches Ok(b) ==> b == spec_u32_to_le_bytes(
            header.len() as u32,
        ) + header + order,
        activation::register_of(body) matches Ok((h, o)) ==> activation::register_bytes(h, o)
            == Ok::<Seq<u8>, FormatError>(body),
{
    if let Ok((h, o)) = activation::register_of(body) {
        bytes::num32_round_trip(body.subrange(0, 4));
        assert(spec_u32_to_le_bytes(h.len() as u32) + h + o =~= body);
    }
}

/// An endorsement is the key of the signer and an order of one byte to a mebibyte.
pub proof fn endorsements(signer: Seq<u8>, order: Seq<u8>, body: Seq<u8>)
    ensures
        activation::endorse_bytes(signer, order) is Ok <==> 1 <= order.len() <= 1_048_576,
        activation::endorse_bytes(signer, order) matches Ok(b) ==> b == signer + order,
        activation::endorse_of(body) is Ok <==> 33 <= body.len() <= 1_048_608,
        activation::endorse_of(body) matches Ok((s, o)) ==> s.len() == 32 && s + o == body,
{
    if let Ok((s, o)) = activation::endorse_of(body) {
        assert(s + o =~= body);
    }
}

/// An author watches with the number to go on from and evidence that is longer than a signature
/// and has at most a mebibyte.
pub proof fn watches_of_an_author(since: u64, evidence: Seq<u8>, body: Seq<u8>)
    ensures
        activation::watch_author_bytes(since, evidence) is Ok <==> 65 <= evidence.len()
            <= 1_048_576,
        activation::watch_author_bytes(since, evidence) matches Ok(b) ==> b == spec_u64_to_le_bytes(
            since,
        ) + evidence,
        activation::watch_author_of(body) is Ok <==> 73 <= body.len() <= 1_048_584,
        activation::watch_author_of(body) matches Ok((from, ev)) ==> from == spec_u64_from_le_bytes(
            body.take(8),
        ) && ev == body.skip(8),
{
}

/// A report of an action is 41 bytes: its number, whether it went well, and a digest.
pub proof fn reports_of_actions(seq: u64, ok: bool, digest: Seq<u8>, body: Seq<u8>)
    ensures
        activation::report_bytes(seq, ok, digest) == spec_u64_to_le_bytes(seq) + seq![
            if ok {
                1u8
            } else {
                0u8
            },
        ] + digest,
        activation::report_of(body) is Ok <==> body.len() == 41 && body[8] <= 1,
        activation::report_of(body) matches Ok((n, good, d)) ==> n == spec_u64_from_le_bytes(
            body.subrange(0, 8),
        ) && (good <==> body[8] == 1) && d == body.subrange(9, 41),
{
}

/// A page of the directory is asked for by its first record in eight bytes and by how many, one
/// to 256, in four.
pub proof fn requests_for_a_page(body: Seq<u8>, since: u64, upto: u64)
    ensures
        activation::records_request_of(body) is Ok <==> body.len() == 12 && 1
            <= spec_u32_from_le_bytes(body.subrange(8, 12)) <= 256,
        activation::records_request_of(body) matches Ok((from, count)) ==> from
            == spec_u64_from_le_bytes(body.subrange(0, 8)) && count == spec_u32_from_le_bytes(
            body.subrange(8, 12),
        ),
        activation::view_request_bytes(since, upto) == spec_u64_to_le_bytes(since)
            + spec_u64_to_le_bytes(upto),
{
}

/// The reason of a refused action is a text of one byte to 1024, all of its characters shown.
pub proof fn reasons_of_refused_actions(why: Seq<char>, body: Seq<u8>)
    ensures
        activation::refusal_fault(why) is None <==> 1 <= encode_utf8(why).len() <= 1024 && (
        forall|i: int| 0 <= i < why.len() ==> !text::display_unsafe(#[trigger] why[i])),
        activation::refusal_of(body) is Ok <==> valid_utf8(body) && activation::refusal_fault(
            decode_utf8(body),
        ) is None,
        activation::refusal_of(body) matches Ok(t) ==> t == decode_utf8(body),
{
    text::laws::the_first_that_is_not_shown(why);
}

/// A notice is a sign of life of one byte, nought, or an event: a four, the number in eight
/// bytes, the event, the file in sixteen, and whether there is a device, and the device.
pub proof fn notices(b: Seq<u8>)
    ensures
        activation::notice_of(b) is Ok <==> {
            ||| b.len() == 1 && b[0] == 0
            ||| b.len() == 59 && b[0] == 4 && b[26] <= 1
        },
        activation::notice_of(b) matches Ok(n) ==> match n {
            NoticeView::Heartbeat => b.len() == 1 && b[0] == 0,
            NoticeView::Event { seq, event, file_id, device_fpr } => {
                &&& b.len() == 59 && b[0] == 4
                &&& seq == spec_u64_from_le_bytes(b.subrange(1, 9))
                &&& event == b[9]
                &&& file_id == b.subrange(10, 26)
                &&& b[26] == 1 ==> device_fpr == Some(b.subrange(27, 59))
                &&& b[26] == 0 ==> device_fpr is None
            },
        },
{
    if b.len() > 0 {
        let body = b.skip(1);
        if b.len() == 59 {
            assert(body.subrange(0, 8) =~= b.subrange(1, 9));
            assert(body.subrange(9, 25) =~= b.subrange(10, 26));
            assert(body.subrange(26, 58) =~= b.subrange(27, 59));
            assert(body[25] == b[26]);
        }
    }
}

/// A device that is named is a one and its fingerprint; one that is not is 33 bytes of nought.
pub proof fn where_a_device_stands(fpr: Option<Seq<u8>>)
    ensures
        fpr is None ==> activation::fpr_bytes(fpr).len() == 33 && (forall|i: int|
            0 <= i < 33 ==> activation::fpr_bytes(fpr)[i] == 0),
        fpr matches Some(f) ==> activation::fpr_bytes(fpr) == seq![1u8] + f,
{
}

/// A reply with a chain is written exactly where the chain can be read and its fields fit. An
/// empty grant of actions is left out.
pub proof fn replies_with_a_chain(
    documents: Seq<u8>,
    key: Option<Seq<u8>>,
    actions: Option<Seq<u8>>,
)
    ensures
        ({
            let r = activation::chain_reply_bytes(documents, key, actions);
            &&& r is Ok <==> activation::chain_of(documents) is Ok && tlv::sealed(
                activation::chain_recs(documents, key, actions),
            ) is Ok
            &&& actions matches Some(a) ==> (a.len() == 0 ==> r == activation::chain_reply_bytes(
                documents,
                key,
                None,
            ))
        }),
        activation::grant_field(actions) is None <==> actions is None || actions->0.len() == 0,
        activation::grant_field(actions) matches Some(g) ==> actions == Some(g),
{
}

/// Where the parts of a reply with a chain stand.
pub proof fn where_the_parts_of_a_chain_stand(
    documents: Seq<u8>,
    key: Option<Seq<u8>>,
    actions: Option<Seq<u8>>,
)
    ensures
        ({
            let rs = activation::chain_recs(documents, key, actions);
            &&& rs[0] == (1u16, documents)
            &&& key matches Some(k) ==> rs[1] == (32_769u16, k)
            &&& actions matches Some(a) ==> (a.len() > 0 ==> rs.last() == (32_770u16, a))
            &&& rs.len() == 1 + (if key is Some {
                1int
            } else {
                0
            }) + (if actions is Some && actions->0.len() > 0 {
                1int
            } else {
                0
            })
        }),
{
}

/// A credential is handed on exactly where it is accepted.
pub proof fn credentials_that_are_handed_on(b: Seq<u8>)
    ensures
        activation::credential_of(b) is Ok <==> attestation::credential_ok(b),
        activation::credential_of(b) matches Ok(x) ==> x == b,
{
}

/// A request is written as its kind and its body, exactly where the body can be written.
pub proof fn messages_that_are_written(v: RequestView, w: ResponseView)
    ensures
        activation::request_bytes(v) is Ok <==> v.body() is Ok,
        activation::request_bytes(v) matches Ok(b) ==> b == seq![v.kind()] + v.body()->Ok_0,
        activation::response_bytes(w) is Ok <==> w.body() is Ok,
        activation::response_bytes(w) matches Ok(b) ==> b == seq![w.kind()] + w.body()->Ok_0,
{
}

/// A document is read exactly where its records are, and they hold what it needs.
pub proof fn documents_that_are_read(b: Seq<u8>)
    ensures
        activation::hello_of(b) is Ok <==> (
            tlv::read(activation::HelloSchema, b) matches Ok(rs)
                && activation::hello_in(rs) is Ok
        ),
        tlv::read(activation::HelloSchema, b) matches Ok(rs)
            ==> activation::hello_of(b) == activation::hello_in(rs),
        activation::challenge_of(b) is Ok <==> (
            tlv::read(activation::ChallengeSchema, b) matches Ok(rs)
                && activation::challenge_in(rs) is Ok
        ),
        tlv::read(activation::ChallengeSchema, b) matches Ok(rs)
            ==> activation::challenge_of(b) == activation::challenge_in(rs),
        activation::proof_of(b) is Ok <==> (
            tlv::read(activation::ProofSchema, b) matches Ok(rs)
                && activation::proof_in(rs) is Ok
        ),
        tlv::read(activation::ProofSchema, b) matches Ok(rs)
            ==> activation::proof_of(b) == activation::proof_in(rs),
        activation::req_of(b) is Ok <==> b.len() <= 1_048_576
            && (tlv::read(activation::ActivateSchema, b) matches Ok(rs)
                && activation::req_in(rs) is Ok),
        b.len() <= 1_048_576 && tlv::read(activation::ActivateSchema, b) is Ok
            ==> activation::req_of(b)
                == activation::req_in(tlv::read(activation::ActivateSchema, b)->Ok_0),
        activation::grant_of(b) is Ok <==> b.len() <= 1_048_576
            && (tlv::read(activation::GrantSchema, b) matches Ok(rs)
                && activation::grant_in(rs) is Ok),
        b.len() <= 1_048_576 && tlv::read(activation::GrantSchema, b) is Ok
            ==> activation::grant_of(b)
                == activation::grant_in(tlv::read(activation::GrantSchema, b)->Ok_0),
        activation::deny_of(b) is Ok <==> b.len() <= 1_048_576
            && (tlv::read(activation::DenySchema, b) matches Ok(rs)
                && activation::deny_in(rs) is Ok),
        b.len() <= 1_048_576 && tlv::read(activation::DenySchema, b) is Ok
            ==> activation::deny_of(b)
                == activation::deny_in(tlv::read(activation::DenySchema, b)->Ok_0),
{
}

/// A notice is written as it is read.
pub proof fn notices_that_are_written(seq: u64, event: u8, file_id: Seq<u8>, fpr: Option<Seq<u8>>)
    ensures
        activation::notice_bytes(NoticeView::Heartbeat) == seq![0u8],
        activation::notice_bytes(NoticeView::Event { seq, event, file_id, device_fpr: fpr })
            == seq![4u8] + (spec_u64_to_le_bytes(seq) + seq![event] + file_id
            + activation::fpr_bytes(fpr)),
{
}

/// A reply with a chain is read exactly where its records are and it has the documents.
pub proof fn replies_with_a_chain_that_are_read(b: Seq<u8>)
    ensures
        activation::chain_reply_of(b) is Ok <==> (tlv::read(
            activation::ChainSchema,
            b,
        ) matches Ok(rs) && tlv::lookup(rs, 1) is Some),
        activation::chain_reply_of(b) matches Ok((documents, key, actions)) ==> {
            let rs = tlv::read(activation::ChainSchema, b)->Ok_0;
            &&& tlv::lookup(rs, 1) == Some(documents)
            &&& tlv::lookup(rs, 32_769) == key
            &&& tlv::lookup(rs, 32_770) == actions
        },
{
}

/// Where the fields of an activation stand, and which of them have to be there.
pub proof fn where_the_fields_of_an_activation_stand(rs: Seq<Rec>)
    ensures
        activation::req_in(rs) matches Ok(v) ==> {
            &&& tlv::lookup(rs, 1) == Some(v.file_id)
            &&& tlv::lookup(rs, 2) == Some(v.policy_hash)
            &&& tlv::lookup(rs, 3) == Some(v.device_fpr)
            &&& tlv::lookup(rs, 4) matches Some(b) && v.device_kem == b[0]
            &&& tlv::lookup(rs, 5) == Some(v.device_public)
            &&& tlv::lookup(rs, 6) matches Some(b) && v.server_slot == activation::slot_of(b)->Ok_0
            &&& tlv::lookup(rs, 7) matches Some(b) && v.lease_seconds == bytes::num64s(b)
            &&& v.device_clock == match tlv::lookup(rs, 8) {
                Some(x) => Some(activation::clock_of(x)),
                None => None,
            }
            &&& v.operation_id == tlv::lookup(rs, 9)
        },
        activation::req_in(rs) is Ok <==> {
            &&& tlv::lookup(rs, 1) is Some
            &&& tlv::lookup(rs, 2) is Some
            &&& tlv::lookup(rs, 3) is Some
            &&& tlv::lookup(rs, 4) is Some
            &&& tlv::lookup(rs, 5) is Some
            &&& tlv::lookup(rs, 6) is Some
            &&& tlv::lookup(rs, 7) is Some
        },
{
}

/// Where the fields of a reply that grants stand, and which of them have to be there.
pub proof fn where_the_fields_of_a_reply_that_grants_stand(rs: Seq<Rec>)
    ensures
        activation::grant_in(rs) matches Ok(v) ==> {
            &&& tlv::lookup(rs, 1) == Some(v.share)
            &&& tlv::lookup(rs, 2) == Some(v.lease)
            &&& v.operation_id == tlv::lookup(rs, 3)
        },
        activation::grant_in(rs) is Ok <==> {
            &&& tlv::lookup(rs, 1) is Some
            &&& tlv::lookup(rs, 2) is Some
        },
{
}

/// Where the fields of a reply that refuses stand, and which of them have to be there.
pub proof fn where_the_fields_of_a_reply_that_refuses_stand(rs: Seq<Rec>)
    ensures
        activation::deny_in(rs) matches Ok(v) ==> {
            &&& tlv::lookup(rs, 1) matches Some(b) && v.text == decode_utf8(b)
            &&& v.operation_id == tlv::lookup(rs, 2)
        },
        activation::deny_in(rs) is Ok <==> {
            &&& tlv::lookup(rs, 1) is Some
        },
{
}

/// Where the fields of a greeting stand, and which of them have to be there.
pub proof fn where_the_fields_of_a_greeting_stand(rs: Seq<Rec>)
    ensures
        activation::hello_in(rs) matches Ok(v) ==> {
            &&& tlv::lookup(rs, 1) == Some(v.device_fpr)
            &&& tlv::lookup(rs, 2) == Some(v.device_public)
            &&& v.device_tpm == tlv::lookup(rs, 3)
            &&& v.device_hybrid == activation::hybrid_in(rs)->Ok_0
        },
        activation::hello_in(rs) is Ok <==> {
            &&& tlv::lookup(rs, 1) is Some
            &&& tlv::lookup(rs, 2) is Some
            &&& activation::hybrid_in(rs) is Ok
        },
{
}

/// Where the fields of a challenge stand, and which of them have to be there.
pub proof fn where_the_fields_of_a_challenge_stand(rs: Seq<Rec>)
    ensures
        activation::challenge_in(rs) matches Ok(v) ==> {
            &&& tlv::lookup(rs, 1) matches Some(b) && v.software == activation::slot_of(b)->Ok_0
            &&& v.hardware == activation::opt_slot_of(tlv::lookup(rs, 2))
            &&& v.hybrid == activation::opt_slot_of(tlv::lookup(rs, 3))
        },
        activation::challenge_in(rs) is Ok <==> {
            &&& tlv::lookup(rs, 1) is Some
        },
{
}

/// Where the fields of a proof stand, and which of them have to be there.
pub proof fn where_the_fields_of_a_proof_stand(rs: Seq<Rec>)
    ensures
        activation::proof_in(rs) matches Ok(v) ==> {
            &&& tlv::lookup(rs, 1) == Some(v.echo)
        },
        activation::proof_in(rs) is Ok <==> {
            &&& tlv::lookup(rs, 1) is Some
        },
{
}

} // verus!
