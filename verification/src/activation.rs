//! The conversation between a device and the server: handshake, activation,
//! orders, logs and answers, and the envelope that carries each of them.

use crate::access::{self, decode_ask, encode_ask, AskAccess, AskView};
use crate::action::MAX_REFUSAL;
use crate::agent::MAX_GRANT_DEPTH;
use crate::attestation::{
    self, check_credential, decode_evidence, encode_evidence, Evidence, EvidenceView, SECRET_LEN,
};
use crate::bytes::{
    self, append, array, flag_byte, join_arrays, one, owned, part, read32, read64, read64s,
    split_arrays, write32, write64, write64s,
};
use crate::directory::{
    self, decode_lookup_request, decode_page, encode_lookup_request, encode_page, Lookup,
    LookupView, MAX_PAGE,
};
use crate::error::{bad, FormatError};
use crate::kem::{MLKEM_P256_PUBLIC_LEN, XWING_PUBLIC_LEN};
use crate::text::{self, byte_len, check_unsafe, text_of, utf8_text};
use crate::tlv::{
    self, check_bounded, check_length, find, need, read_fields, refuse, Rec, Schema, TlvWriter,
};
use crate::unknown::{self, unknown_verdict};
use vstd::prelude::*;
use vstd::utf8::*;

pub mod laws;
pub mod chain_tag;
pub mod challenge_tag;
pub mod deny_tag;
pub mod grant_tag;
pub mod hello_tag;
pub mod journal_event;
pub mod proof_tag;
pub mod req_tag;

verus! {

/// The longest document of the conversation: the largest item is a slot of a
/// header, and so no longer than a header.
pub const MAX_DOCUMENT: usize = crate::tlv::MAX_HEADER_LEN;

/// The most files that one subscription can name.
pub const MAX_WATCH_FILES: usize = 32;

/// The length of a signature under an order.
pub const SIGNATURE_LEN: usize = 64;

/// The length of the code that seals a request to its session.
pub const REQUEST_MAC_LEN: usize = 32;

/// The most documents in a chain: the grant and its delegations.
pub const MAX_CHAIN_DOCUMENTS: usize = 1 + MAX_GRANT_DEPTH as usize;

/// A reading of the hardware clock of a device.
#[derive(Debug, Clone, Copy, PartialEq, Eq, Structural)]
pub struct ClockReport {
    pub reset_count: u32,
    pub clock_ms: u64,
    pub read_at: i64,
}

/// The bytes of a reading of the clock.
pub open spec fn clock_bytes(c: ClockReport) -> Seq<u8> {
    bytes::le32(c.reset_count) + bytes::le64(c.clock_ms) + bytes::le64s(c.read_at)
}

/// The reading of the clock that twenty bytes hold.
pub open spec fn clock_of(b: Seq<u8>) -> ClockReport {
    ClockReport {
        reset_count: bytes::num32(b.subrange(0, 4)),
        clock_ms: bytes::num64(b.subrange(4, 12)),
        read_at: bytes::num64s(b.subrange(12, 20)),
    }
}

proof fn clock_round_trip(c: ClockReport)
    ensures
        clock_bytes(c).len() == 20,
        clock_of(clock_bytes(c)) == c,
{
    broadcast use bytes::group_numbers;

    let b = clock_bytes(c);
    assert(b.subrange(0, 4) =~= bytes::le32(c.reset_count));
    assert(b.subrange(4, 12) =~= bytes::le64(c.clock_ms));
    assert(b.subrange(12, 20) =~= bytes::le64s(c.read_at));
}

fn write_clock(c: &ClockReport) -> (r: Vec<u8>)
    ensures
        r@ == clock_bytes(*c),
{
    let mut out = write32(c.reset_count);
    append(&mut out, write64(c.clock_ms).as_slice());
    append(&mut out, write64s(c.read_at).as_slice());
    out
}

fn read_clock(b: &[u8]) -> (r: ClockReport)
    requires
        b@.len() == 20,
    ensures
        r == clock_of(b@),
{
    ClockReport {
        reset_count: read32(part(b, 0, 4)),
        clock_ms: read64(part(b, 4, 12)),
        read_at: read64s(part(b, 12, 20)),
    }
}

/// A sealed slot.
#[derive(Debug, Clone, PartialEq, Eq)]
pub struct SlotBlob {
    pub enc: Vec<u8>,
    pub nonce: [u8; 24],
    pub ct: Vec<u8>,
}

/// What a sealed slot holds.
pub struct SlotView {
    pub enc: Seq<u8>,
    pub nonce: Seq<u8>,
    pub ct: Seq<u8>,
}

impl View for SlotBlob {
    type V = SlotView;

    open spec fn view(&self) -> SlotView {
        SlotView {
            enc: self.enc@,
            nonce: self.nonce@,
            ct: self.ct@,
        }
    }
}

/// The bytes of a slot whose parts are not too long.
pub open spec fn slot_bytes(s: SlotView) -> Seq<u8> {
    bytes::le32(s.enc.len() as u32) + s.enc + s.nonce + bytes::le32(s.ct.len() as u32) + s.ct
}

impl SlotView {
    /// The lengths of both parts fit their heads.
    pub open spec fn fits(self) -> bool {
        self.enc.len() <= u32::MAX && self.ct.len() <= u32::MAX
    }
}

/// The slot that the bytes hold, to the last of them.
pub open spec fn slot_of(b: Seq<u8>) -> Result<SlotView, FormatError> {
    let e = bytes::num32(b.subrange(0, 4)) as int;
    let c = bytes::num32(b.subrange(28 + e, 32 + e)) as int;
    if b.len() >= 4 && b.len() >= 32 + e && b.len() == 32 + e + c {
        Ok(
            SlotView {
                enc: b.subrange(4, 4 + e),
                nonce: b.subrange(4 + e, 28 + e),
                ct: b.subrange(32 + e, 32 + e + c),
            },
        )
    } else {
        Err(FormatError::OffsetOverflow)
    }
}

/// The verdict on bytes that should hold a slot.
pub open spec fn slot_fault(b: Seq<u8>) -> Option<FormatError> {
    match slot_of(b) {
        Ok(_) => None,
        Err(e) => Some(e),
    }
}

/// A slot survives being written and read back.
pub proof fn slot_round_trip(s: SlotView)
    requires
        s.fits(),
        s.nonce.len() == 24,
    ensures
        slot_of(slot_bytes(s)) == Ok::<SlotView, FormatError>(s),
{
    broadcast use bytes::group_numbers;

    let b = slot_bytes(s);
    let e = s.enc.len() as int;
    let c = s.ct.len() as int;
    assert(b.subrange(0, 4) =~= bytes::le32(e as u32));
    assert(b.subrange(4, 4 + e) =~= s.enc);
    assert(b.subrange(4 + e, 28 + e) =~= s.nonce);
    assert(b.subrange(28 + e, 32 + e) =~= bytes::le32(c as u32));
    assert(b.subrange(32 + e, 32 + e + c) =~= s.ct);
}

/// The bytes of a slot.
fn encode_slot(slot: &SlotBlob) -> (r: Result<Vec<u8>, FormatError>)
    ensures
        match r {
            Ok(b) => slot@.fits() && b@ == slot_bytes(slot@),
            Err(e) => !slot@.fits() && e == FormatError::OffsetOverflow,
        },
{
    if slot.enc.len() as u64 > 0xFFFF_FFFF || slot.ct.len() as u64 > 0xFFFF_FFFF {
        return Err(FormatError::OffsetOverflow);
    }
    let mut out = write32(slot.enc.len() as u32);
    append(&mut out, slot.enc.as_slice());
    append(&mut out, slot.nonce.as_slice());
    append(&mut out, write32(slot.ct.len() as u32).as_slice());
    append(&mut out, slot.ct.as_slice());
    Ok(out)
}

/// The slot that the bytes hold.
fn decode_slot(b: &[u8]) -> (r: Result<SlotBlob, FormatError>)
    ensures
        tlv::agrees(r, slot_of(b@)),
{
    if b.len() < 32 {
        return Err(FormatError::OffsetOverflow);
    }
    let e: u32 = read32(part(b, 0, 4));
    if ((b.len() - 32) as u64) < e as u64 {
        return Err(FormatError::OffsetOverflow);
    }
    let e: usize = e as usize;
    let c: u32 = read32(part(b, 28 + e, 32 + e));
    if (b.len() - 32 - e) as u64 != c as u64 {
        return Err(FormatError::OffsetOverflow);
    }
    Ok(
        SlotBlob {
            enc: owned(part(b, 4, 4 + e)),
            nonce: array(part(b, 4 + e, 28 + e)),
            ct: owned(part(b, 32 + e, b.len())),
        },
    )
}

/// The verdict on bytes that should hold a slot.
fn check_slot(b: &[u8]) -> (r: Option<FormatError>)
    ensures
        r == slot_fault(b@),
{
    match decode_slot(b) {
        Ok(_) => None,
        Err(e) => Some(e),
    }
}

/// A request to activate a file on a device, or to renew its lease.
#[derive(Debug, Clone, PartialEq, Eq)]
pub struct ActivateReq {
    pub file_id: [u8; 16],
    pub policy_hash: [u8; 32],
    pub device_fpr: [u8; 32],
    pub device_kem: u8,
    pub device_public: Vec<u8>,
    pub server_slot: SlotBlob,
    pub lease_seconds: i64,
    pub device_clock: Option<ClockReport>,
    /// The identity of the operation; a repeated request has the same.
    pub operation_id: Option<[u8; 32]>,
}

/// What a request to activate says.
pub struct ActivateView {
    pub file_id: Seq<u8>,
    pub policy_hash: Seq<u8>,
    pub device_fpr: Seq<u8>,
    pub device_kem: u8,
    pub device_public: Seq<u8>,
    pub server_slot: SlotView,
    pub lease_seconds: i64,
    pub device_clock: Option<ClockReport>,
    pub operation_id: Option<Seq<u8>>,
}

impl View for ActivateReq {
    type V = ActivateView;

    open spec fn view(&self) -> ActivateView {
        ActivateView {
            file_id: self.file_id@,
            policy_hash: self.policy_hash@,
            device_fpr: self.device_fpr@,
            device_kem: self.device_kem,
            device_public: self.device_public@,
            server_slot: self.server_slot@,
            lease_seconds: self.lease_seconds,
            device_clock: self.device_clock,
            operation_id: bytes::opt_array(self.operation_id),
        }
    }
}

impl ActivateView {
    /// The fields of fixed length have it.
    pub open spec fn sized(self) -> bool {
        self.file_id.len() == 16 && self.policy_hash.len() == 32 && self.device_fpr.len() == 32
            && self.server_slot.nonce.len() == 24
                && (self.operation_id is Some ==> self.operation_id->0.len() == 32)
    }

    /// The records of the request.
    pub open spec fn recs(self) -> Seq<Rec> {
        let rs = Seq::<Rec>::empty();
        let rs = rs.push((req_tag::FILE_ID, self.file_id));
        let rs = rs.push((req_tag::POLICY_HASH, self.policy_hash));
        let rs = rs.push((req_tag::DEVICE_FPR, self.device_fpr));
        let rs = rs.push((req_tag::DEVICE_KEM, seq![self.device_kem]));
        let rs = rs.push((req_tag::DEVICE_PUBLIC, self.device_public));
        let rs = rs.push((req_tag::SERVER_SLOT, slot_bytes(self.server_slot)));
        let rs = rs.push((req_tag::LEASE_SECONDS, bytes::le64s(self.lease_seconds)));
        let rs = tlv::with_opt(rs, req_tag::DEVICE_CLOCK, opt_clock_bytes(self.device_clock));
        let rs = tlv::with_opt(rs, req_tag::OPERATION_ID, self.operation_id);
        rs
    }
}

/// The bytes of a reading of the clock that may be absent.
pub open spec fn opt_clock_bytes(c: Option<ClockReport>) -> Option<Seq<u8>> {
    match c {
        Some(c) => Some(clock_bytes(c)),
        None => None,
    }
}

/// The rule for the fields of a request to activate.
pub struct ActivateSchema;

impl Schema for ActivateSchema {
    open spec fn fault(&self, tag: u16, value: Seq<u8>) -> Option<FormatError> {
        if tag == req_tag::FILE_ID {
            tlv::length_fault(tag, value, 16)
        } else if tag == req_tag::POLICY_HASH || tag == req_tag::DEVICE_FPR
            || tag == req_tag::OPERATION_ID {
            tlv::length_fault(tag, value, 32)
        } else if tag == req_tag::DEVICE_KEM {
            tlv::length_fault(tag, value, 1)
        } else if tag == req_tag::DEVICE_PUBLIC {
            nonempty_fault(tag, value)
        } else if tag == req_tag::SERVER_SLOT {
            slot_fault(value)
        } else if tag == req_tag::LEASE_SECONDS {
            tlv::length_fault(tag, value, 8)
        } else if tag == req_tag::DEVICE_CLOCK {
            tlv::length_fault(tag, value, 20)
        } else {
            unknown::unknown_fault(tag)
        }
    }

    fn check(&self, tag: u16, value: &[u8]) -> (r: Option<FormatError>) {
        if tag == req_tag::FILE_ID {
            check_length(tag, value, 16)
        } else if tag == req_tag::POLICY_HASH || tag == req_tag::DEVICE_FPR
            || tag == req_tag::OPERATION_ID {
            check_length(tag, value, 32)
        } else if tag == req_tag::DEVICE_KEM {
            check_length(tag, value, 1)
        } else if tag == req_tag::DEVICE_PUBLIC {
            check_nonempty(tag, value)
        } else if tag == req_tag::SERVER_SLOT {
            check_slot(value)
        } else if tag == req_tag::LEASE_SECONDS {
            check_length(tag, value, 8)
        } else if tag == req_tag::DEVICE_CLOCK {
            check_length(tag, value, 20)
        } else {
            unknown_verdict(tag)
        }
    }
}

/// The bytes of a request to activate.
pub open spec fn req_bytes(a: ActivateView) -> Result<Seq<u8>, FormatError> {
    if a.server_slot.fits() {
        tlv::sealed(a.recs())
    } else {
        Err(FormatError::OffsetOverflow)
    }
}

/// The request that the records hold, or the first field that is absent.
pub open spec fn req_in(rs: Seq<Rec>) -> Result<ActivateView, FormatError> {
    if tlv::lookup(rs, req_tag::FILE_ID) is None {
        Err(FormatError::MissingField { tag: req_tag::FILE_ID })
    } else if tlv::lookup(rs, req_tag::POLICY_HASH) is None {
        Err(FormatError::MissingField { tag: req_tag::POLICY_HASH })
    } else if tlv::lookup(rs, req_tag::DEVICE_FPR) is None {
        Err(FormatError::MissingField { tag: req_tag::DEVICE_FPR })
    } else if tlv::lookup(rs, req_tag::DEVICE_KEM) is None {
        Err(FormatError::MissingField { tag: req_tag::DEVICE_KEM })
    } else if tlv::lookup(rs, req_tag::DEVICE_PUBLIC) is None {
        Err(FormatError::MissingField { tag: req_tag::DEVICE_PUBLIC })
    } else if tlv::lookup(rs, req_tag::SERVER_SLOT) is None {
        Err(FormatError::MissingField { tag: req_tag::SERVER_SLOT })
    } else if tlv::lookup(rs, req_tag::LEASE_SECONDS) is None {
        Err(FormatError::MissingField { tag: req_tag::LEASE_SECONDS })
    } else {
        Ok(
            ActivateView {
                file_id: tlv::lookup(rs, req_tag::FILE_ID)->0,
                policy_hash: tlv::lookup(rs, req_tag::POLICY_HASH)->0,
                device_fpr: tlv::lookup(rs, req_tag::DEVICE_FPR)->0,
                device_kem: tlv::lookup(rs, req_tag::DEVICE_KEM)->0[0],
                device_public: tlv::lookup(rs, req_tag::DEVICE_PUBLIC)->0,
                server_slot: slot_of(tlv::lookup(rs, req_tag::SERVER_SLOT)->0)->Ok_0,
                lease_seconds: bytes::num64s(tlv::lookup(rs, req_tag::LEASE_SECONDS)->0),
                device_clock: match tlv::lookup(rs, req_tag::DEVICE_CLOCK) {
                    Some(v) => Some(clock_of(v)),
                    None => None,
                },
                operation_id: tlv::lookup(rs, req_tag::OPERATION_ID),
            },
        )
    }
}

/// The request to activate that the bytes hold.
pub open spec fn req_of(bytes: Seq<u8>) -> Result<ActivateView, FormatError> {
    if bytes.len() > MAX_DOCUMENT {
        Err(FormatError::OffsetOverflow)
    } else {
        match tlv::read(ActivateSchema, bytes) {
            Err(e) => Err(e),
            Ok(rs) => req_in(rs),
        }
    }
}

/// An optional field that is not known changes nothing in the request to activate that is read.
pub proof fn req_reads_past_optional_fields(bytes: Seq<u8>)
    requires
        req_of(bytes) is Ok,
    ensures
        req_of(unknown::without_optional(bytes)) == req_of(bytes),
{
    unknown::optional_records_are_skipped(ActivateSchema, bytes);
}

/// A request to activate survives being written and read back, unless it names no
/// key or is too long.
pub proof fn req_round_trip(a: ActivateView)
    requires
        a.sized(),
        a.device_public.len() > 0,
        req_bytes(a) is Ok,
        req_bytes(a)->Ok_0.len() <= MAX_DOCUMENT,
    ensures
        req_of(req_bytes(a)->Ok_0) == Ok::<ActivateView, FormatError>(a),
{
    broadcast use {tlv::group_records, bytes::group_numbers};

    slot_round_trip(a.server_slot);
    if a.device_clock is Some {
        clock_round_trip(a.device_clock->0);
    }
    tlv::read_wire(ActivateSchema, a.recs());
}

/// The identity of an operation is the last record: without it a request has the
/// same bytes up to that record.
pub proof fn operation_id_is_a_suffix(a: ActivateView, id: Seq<u8>)
    requires
        a.operation_id is None,
        id.len() == 32,
        req_bytes(a) is Ok,
    ensures
        req_bytes(ActivateView { operation_id: Some(id), ..a }) == Ok::<Seq<u8>, FormatError>(
            req_bytes(a)->Ok_0 + tlv::record_bytes((req_tag::OPERATION_ID, id)),
        ),
{
    broadcast use tlv::group_records;

    let b = ActivateView { operation_id: Some(id), ..a };
    tlv::wire_push(a.recs(), (req_tag::OPERATION_ID, id));
    assert(b.recs() == a.recs().push((req_tag::OPERATION_ID, id)));
}

/// Write a request to activate.
pub fn encode_req(req: &ActivateReq) -> (r: Result<Vec<u8>, FormatError>)
    ensures
        tlv::agrees(r, req_bytes(req@)),
{
    broadcast use {tlv::group_records, bytes::group_numbers};

    let slot = encode_slot(&req.server_slot)?;
    let mut w = TlvWriter::new();
    w.put(req_tag::FILE_ID, req.file_id.as_slice())?;
    w.put(req_tag::POLICY_HASH, req.policy_hash.as_slice())?;
    w.put(req_tag::DEVICE_FPR, req.device_fpr.as_slice())?;
    w.put(req_tag::DEVICE_KEM, one(req.device_kem).as_slice())?;
    w.put(req_tag::DEVICE_PUBLIC, req.device_public.as_slice())?;
    w.put(req_tag::SERVER_SLOT, slot.as_slice())?;
    w.put(req_tag::LEASE_SECONDS, write64s(req.lease_seconds).as_slice())?;
    if let Some(clock) = &req.device_clock {
        proof {
            clock_round_trip(*clock);
        }
        w.put(req_tag::DEVICE_CLOCK, write_clock(clock).as_slice())?;
    }
    if let Some(id) = &req.operation_id {
        w.put(req_tag::OPERATION_ID, id.as_slice())?;
    }
    Ok(w.finish())
}

/// Read a request to activate.
pub fn decode_req(bytes: &[u8]) -> (r: Result<ActivateReq, FormatError>)
    ensures
        tlv::agrees(r, req_of(bytes@)),
{
    if bytes.len() > MAX_DOCUMENT {
        return Err(FormatError::OffsetOverflow);
    }
    let fs = read_fields(&ActivateSchema, bytes)?;
    let file_id = need(&fs, req_tag::FILE_ID)?;
    let policy_hash = need(&fs, req_tag::POLICY_HASH)?;
    let device_fpr = need(&fs, req_tag::DEVICE_FPR)?;
    let device_kem = need(&fs, req_tag::DEVICE_KEM)?;
    let device_public = need(&fs, req_tag::DEVICE_PUBLIC)?;
    let slot = need(&fs, req_tag::SERVER_SLOT)?;
    let lease_seconds = need(&fs, req_tag::LEASE_SECONDS)?;
    Ok(
        ActivateReq {
            file_id: array(file_id),
            policy_hash: array(policy_hash),
            device_fpr: array(device_fpr),
            device_kem: device_kem[0],
            device_public: owned(device_public),
            server_slot: decode_slot(slot)?,
            lease_seconds: read64s(lease_seconds),
            device_clock: match find(&fs, req_tag::DEVICE_CLOCK) {
                Some(v) => Some(read_clock(v)),
                None => None,
            },
            operation_id: match find(&fs, req_tag::OPERATION_ID) {
                Some(v) => Some(array(v)),
                None => None,
            },
        },
    )
}

/// The answer to a request that is granted.
#[derive(Debug, Clone, PartialEq, Eq)]
pub struct Grant {
    pub share: Vec<u8>,
    pub lease: Vec<u8>,
    pub operation_id: Option<[u8; 32]>,
}

/// What a grant holds.
pub struct GrantView {
    pub share: Seq<u8>,
    pub lease: Seq<u8>,
    pub operation_id: Option<Seq<u8>>,
}

impl View for Grant {
    type V = GrantView;

    open spec fn view(&self) -> GrantView {
        GrantView {
            share: self.share@,
            lease: self.lease@,
            operation_id: bytes::opt_array(self.operation_id),
        }
    }
}

impl GrantView {
    /// The fields of fixed length have it.
    pub open spec fn sized(self) -> bool {
        self.operation_id is Some ==> self.operation_id->0.len() == 32
    }

    /// The records of the grant.
    pub open spec fn recs(self) -> Seq<Rec> {
        let rs = Seq::<Rec>::empty();
        let rs = rs.push((grant_tag::SHARE, self.share));
        let rs = rs.push((grant_tag::LEASE, self.lease));
        let rs = tlv::with_opt(rs, grant_tag::OPERATION_ID, self.operation_id);
        rs
    }
}

/// The rule for the fields of a grant.
pub struct GrantSchema;

impl Schema for GrantSchema {
    open spec fn fault(&self, tag: u16, value: Seq<u8>) -> Option<FormatError> {
        if tag == grant_tag::SHARE || tag == grant_tag::LEASE {
            None
        } else if tag == grant_tag::OPERATION_ID {
            tlv::length_fault(tag, value, 32)
        } else {
            unknown::unknown_fault(tag)
        }
    }

    fn check(&self, tag: u16, value: &[u8]) -> (r: Option<FormatError>) {
        if tag == grant_tag::SHARE || tag == grant_tag::LEASE {
            None
        } else if tag == grant_tag::OPERATION_ID {
            check_length(tag, value, 32)
        } else {
            unknown_verdict(tag)
        }
    }
}

/// The grant that the records hold, or the first field that is absent.
pub open spec fn grant_in(rs: Seq<Rec>) -> Result<GrantView, FormatError> {
    if tlv::lookup(rs, grant_tag::SHARE) is None {
        Err(FormatError::MissingField { tag: grant_tag::SHARE })
    } else if tlv::lookup(rs, grant_tag::LEASE) is None {
        Err(FormatError::MissingField { tag: grant_tag::LEASE })
    } else {
        Ok(
            GrantView {
                share: tlv::lookup(rs, grant_tag::SHARE)->0,
                lease: tlv::lookup(rs, grant_tag::LEASE)->0,
                operation_id: tlv::lookup(rs, grant_tag::OPERATION_ID),
            },
        )
    }
}

/// The grant that the bytes hold.
pub open spec fn grant_of(bytes: Seq<u8>) -> Result<GrantView, FormatError> {
    if bytes.len() > MAX_DOCUMENT {
        Err(FormatError::OffsetOverflow)
    } else {
        match tlv::read(GrantSchema, bytes) {
            Err(e) => Err(e),
            Ok(rs) => grant_in(rs),
        }
    }
}

/// An optional field that is not known changes nothing in the grant that is read.
pub proof fn grant_reads_past_optional_fields(bytes: Seq<u8>)
    requires
        grant_of(bytes) is Ok,
    ensures
        grant_of(unknown::without_optional(bytes)) == grant_of(bytes),
{
    unknown::optional_records_are_skipped(GrantSchema, bytes);
}

/// A grant survives being written and read back, unless it is too long.
pub proof fn grant_round_trip(g: GrantView)
    requires
        g.sized(),
        tlv::sealed(g.recs()) is Ok,
        tlv::sealed(g.recs())->Ok_0.len() <= MAX_DOCUMENT,
    ensures
        grant_of(tlv::sealed(g.recs())->Ok_0) == Ok::<GrantView, FormatError>(g),
{
    broadcast use tlv::group_records;

    tlv::read_wire(GrantSchema, g.recs());
}

/// Write a grant.
pub fn encode_grant(grant: &Grant) -> (r: Result<Vec<u8>, FormatError>)
    ensures
        tlv::agrees(r, tlv::sealed(grant@.recs())),
{
    broadcast use tlv::group_records;

    let mut w = TlvWriter::new();
    w.put(grant_tag::SHARE, grant.share.as_slice())?;
    w.put(grant_tag::LEASE, grant.lease.as_slice())?;
    if let Some(id) = &grant.operation_id {
        w.put(grant_tag::OPERATION_ID, id.as_slice())?;
    }
    Ok(w.finish())
}

/// Read a grant.
pub fn decode_grant(bytes: &[u8]) -> (r: Result<Grant, FormatError>)
    ensures
        tlv::agrees(r, grant_of(bytes@)),
{
    if bytes.len() > MAX_DOCUMENT {
        return Err(FormatError::OffsetOverflow);
    }
    let fs = read_fields(&GrantSchema, bytes)?;
    let share = need(&fs, grant_tag::SHARE)?;
    let lease = need(&fs, grant_tag::LEASE)?;
    Ok(
        Grant {
            share: owned(share),
            lease: owned(lease),
            operation_id: match find(&fs, grant_tag::OPERATION_ID) {
                Some(v) => Some(array(v)),
                None => None,
            },
        },
    )
}

/// The answer to a request that is refused, in words.
#[derive(Debug, Clone, PartialEq, Eq)]
pub struct Deny {
    pub text: String,
    pub operation_id: Option<[u8; 32]>,
}

/// What a refusal says.
pub struct DenyView {
    pub text: Seq<char>,
    pub operation_id: Option<Seq<u8>>,
}

impl View for Deny {
    type V = DenyView;

    open spec fn view(&self) -> DenyView {
        DenyView {
            text: self.text@,
            operation_id: bytes::opt_array(self.operation_id),
        }
    }
}

impl DenyView {
    /// The fields of fixed length have it.
    pub open spec fn sized(self) -> bool {
        self.operation_id is Some ==> self.operation_id->0.len() == 32
    }

    /// The records of the refusal.
    pub open spec fn recs(self) -> Seq<Rec> {
        let rs = Seq::<Rec>::empty();
        let rs = rs.push((deny_tag::TEXT, encode_utf8(self.text)));
        let rs = tlv::with_opt(rs, deny_tag::OPERATION_ID, self.operation_id);
        rs
    }
}

/// The verdict on bytes that should hold a text of any kind.
pub open spec fn utf8_fault(tag: u16, value: Seq<u8>) -> Option<FormatError> {
    if valid_utf8(value) {
        None
    } else {
        Some(FormatError::BadFieldLength { tag, len: value.len() as usize })
    }
}

/// The verdict on bytes that should hold a text of any kind.
fn check_utf8(tag: u16, value: &[u8]) -> (r: Option<FormatError>)
    ensures
        r == utf8_fault(tag, value@),
{
    match text_of(value) {
        Some(_) => None,
        None => Some(bad(tag, value.len())),
    }
}

/// The verdict on a value that may not be empty.
pub open spec fn nonempty_fault(tag: u16, value: Seq<u8>) -> Option<FormatError> {
    if value.len() == 0 {
        Some(FormatError::BadFieldLength { tag, len: 0 })
    } else {
        None
    }
}

/// The verdict on a value that may not be empty.
fn check_nonempty(tag: u16, value: &[u8]) -> (r: Option<FormatError>)
    ensures
        r == nonempty_fault(tag, value@),
{
    if value.len() == 0 {
        Some(bad(tag, 0))
    } else {
        None
    }
}

/// The rule for the fields of a refusal.
pub struct DenySchema;

impl Schema for DenySchema {
    open spec fn fault(&self, tag: u16, value: Seq<u8>) -> Option<FormatError> {
        if tag == deny_tag::TEXT {
            utf8_fault(tag, value)
        } else if tag == deny_tag::OPERATION_ID {
            tlv::length_fault(tag, value, 32)
        } else {
            unknown::unknown_fault(tag)
        }
    }

    fn check(&self, tag: u16, value: &[u8]) -> (r: Option<FormatError>) {
        if tag == deny_tag::TEXT {
            check_utf8(tag, value)
        } else if tag == deny_tag::OPERATION_ID {
            check_length(tag, value, 32)
        } else {
            unknown_verdict(tag)
        }
    }
}

/// The refusal that the records hold, or the first field that is absent.
pub open spec fn deny_in(rs: Seq<Rec>) -> Result<DenyView, FormatError> {
    if tlv::lookup(rs, deny_tag::TEXT) is None {
        Err(FormatError::MissingField { tag: deny_tag::TEXT })
    } else {
        Ok(
            DenyView {
                text: decode_utf8(tlv::lookup(rs, deny_tag::TEXT)->0),
                operation_id: tlv::lookup(rs, deny_tag::OPERATION_ID),
            },
        )
    }
}

/// The refusal that the bytes hold.
pub open spec fn deny_of(bytes: Seq<u8>) -> Result<DenyView, FormatError> {
    if bytes.len() > MAX_DOCUMENT {
        Err(FormatError::OffsetOverflow)
    } else {
        match tlv::read(DenySchema, bytes) {
            Err(e) => Err(e),
            Ok(rs) => deny_in(rs),
        }
    }
}

/// An optional field that is not known changes nothing in the refusal that is read.
pub proof fn deny_reads_past_optional_fields(bytes: Seq<u8>)
    requires
        deny_of(bytes) is Ok,
    ensures
        deny_of(unknown::without_optional(bytes)) == deny_of(bytes),
{
    unknown::optional_records_are_skipped(DenySchema, bytes);
}

/// A refusal survives being written and read back, unless it is too long.
pub proof fn deny_round_trip(d: DenyView)
    requires
        d.sized(),
        tlv::sealed(d.recs()) is Ok,
        tlv::sealed(d.recs())->Ok_0.len() <= MAX_DOCUMENT,
    ensures
        deny_of(tlv::sealed(d.recs())->Ok_0) == Ok::<DenyView, FormatError>(d),
{
    broadcast use {tlv::group_records, encode_utf8_decode_utf8, encode_utf8_valid_utf8};

    tlv::read_wire(DenySchema, d.recs());
}

impl Deny {
    /// A refusal in words, of an operation without an identity.
    pub fn text(text: &str) -> (r: Deny)
        ensures
            r@ == (DenyView { text: text@, operation_id: None }),
    {
        Deny { text: text.to_owned(), operation_id: None }
    }
}

/// Write a refusal.
pub fn encode_deny(deny: &Deny) -> (r: Result<Vec<u8>, FormatError>)
    ensures
        tlv::agrees(r, tlv::sealed(deny@.recs())),
{
    broadcast use tlv::group_records;

    let mut w = TlvWriter::new();
    w.put(deny_tag::TEXT, deny.text.as_str().as_bytes())?;
    if let Some(id) = &deny.operation_id {
        w.put(deny_tag::OPERATION_ID, id.as_slice())?;
    }
    Ok(w.finish())
}

/// Read a refusal.
pub fn decode_deny(bytes: &[u8]) -> (r: Result<Deny, FormatError>)
    ensures
        tlv::agrees(r, deny_of(bytes@)),
{
    if bytes.len() > MAX_DOCUMENT {
        return Err(FormatError::OffsetOverflow);
    }
    let fs = read_fields(&DenySchema, bytes)?;
    let text = need(&fs, deny_tag::TEXT)?;
    Ok(
        Deny {
            text: utf8_text(text),
            operation_id: match find(&fs, deny_tag::OPERATION_ID) {
                Some(v) => Some(array(v)),
                None => None,
            },
        },
    )
}

/// The first message of a device: its keys.
#[derive(Debug, Clone, PartialEq, Eq)]
pub struct Hello {
    pub device_fpr: [u8; 32],
    pub device_public: [u8; 32],
    /// The key of the security chip.
    pub device_tpm: Option<Vec<u8>>,
    /// The hybrid key: the number of its mechanism and its bytes.
    pub device_hybrid: Option<(u8, Vec<u8>)>,
}

/// What the first message says.
pub struct HelloView {
    pub device_fpr: Seq<u8>,
    pub device_public: Seq<u8>,
    pub device_tpm: Option<Seq<u8>>,
    pub device_hybrid: Option<(u8, Seq<u8>)>,
}

impl View for Hello {
    type V = HelloView;

    open spec fn view(&self) -> HelloView {
        HelloView {
            device_fpr: self.device_fpr@,
            device_public: self.device_public@,
            device_tpm: bytes::opt_bytes(self.device_tpm),
            device_hybrid: opt_pair(self.device_hybrid),
        }
    }
}

/// What a number with bytes that may be absent holds.
pub open spec fn opt_pair(v: Option<(u8, Vec<u8>)>) -> Option<(u8, Seq<u8>)> {
    match v {
        Some(p) => Some((p.0, p.1@)),
        None => None,
    }
}

impl HelloView {
    /// The number of the hybrid mechanism as a field.
    pub open spec fn hybrid_kem(self) -> Option<Seq<u8>> {
        match self.device_hybrid {
            Some(p) => Some(seq![p.0]),
            None => None,
        }
    }

    /// The hybrid key as a field.
    pub open spec fn hybrid_public(self) -> Option<Seq<u8>> {
        match self.device_hybrid {
            Some(p) => Some(p.1),
            None => None,
        }
    }

    /// The keys have the lengths of their mechanisms.
    pub open spec fn readable(self) -> bool {
        &&& self.device_tpm is Some ==> self.device_tpm->0.len() == 65
        &&& match self.device_hybrid {
            Some(p) => hybrid_len(p.0) == Some(p.1.len()),
            None => true,
        }
    }
}

/// The length of a hybrid key by the number of its mechanism.
pub open spec fn hybrid_len(kem: u8) -> Option<nat> {
    if kem == 4 {
        Some(XWING_PUBLIC_LEN as nat)
    } else if kem == 5 {
        Some(MLKEM_P256_PUBLIC_LEN as nat)
    } else {
        None
    }
}

impl HelloView {
    /// The fields of fixed length have it.
    pub open spec fn sized(self) -> bool {
        self.device_fpr.len() == 32 && self.device_public.len() == 32
    }

    /// The records of the first message.
    pub open spec fn recs(self) -> Seq<Rec> {
        let rs = Seq::<Rec>::empty();
        let rs = rs.push((hello_tag::DEVICE_FPR, self.device_fpr));
        let rs = rs.push((hello_tag::DEVICE_PUBLIC, self.device_public));
        let rs = tlv::with_opt(rs, hello_tag::DEVICE_TPM, self.device_tpm);
        let rs = tlv::with_opt(rs, hello_tag::DEVICE_HYBRID_KEM, self.hybrid_kem());
        let rs = tlv::with_opt(rs, hello_tag::DEVICE_HYBRID_PUBLIC, self.hybrid_public());
        rs
    }
}

/// The rule for the fields of the first message, each by itself.
pub struct HelloSchema;

impl Schema for HelloSchema {
    open spec fn fault(&self, tag: u16, value: Seq<u8>) -> Option<FormatError> {
        if tag == hello_tag::DEVICE_FPR || tag == hello_tag::DEVICE_PUBLIC {
            tlv::length_fault(tag, value, 32)
        } else if tag == hello_tag::DEVICE_TPM {
            tlv::length_fault(tag, value, 65)
        } else if tag == hello_tag::DEVICE_HYBRID_KEM {
            tlv::length_fault(tag, value, 1)
        } else if tag == hello_tag::DEVICE_HYBRID_PUBLIC {
            None
        } else {
            unknown::unknown_fault(tag)
        }
    }

    fn check(&self, tag: u16, value: &[u8]) -> (r: Option<FormatError>) {
        if tag == hello_tag::DEVICE_FPR || tag == hello_tag::DEVICE_PUBLIC {
            check_length(tag, value, 32)
        } else if tag == hello_tag::DEVICE_TPM {
            check_length(tag, value, 65)
        } else if tag == hello_tag::DEVICE_HYBRID_KEM {
            check_length(tag, value, 1)
        } else if tag == hello_tag::DEVICE_HYBRID_PUBLIC {
            None
        } else {
            unknown_verdict(tag)
        }
    }
}

/// The hybrid key that the records hold: both of its fields or none, the number
/// known, and the length that of the mechanism.
pub open spec fn hybrid_in(rs: Seq<Rec>) -> Result<Option<(u8, Seq<u8>)>, FormatError> {
    match (
        tlv::lookup(rs, hello_tag::DEVICE_HYBRID_KEM),
        tlv::lookup(rs, hello_tag::DEVICE_HYBRID_PUBLIC),
    ) {
        (Some(k), Some(p)) => match hybrid_len(k[0]) {
            None => Err(FormatError::BadFieldLength { tag: hello_tag::DEVICE_HYBRID_KEM, len: 1 }),
            Some(n) => if p.len() == n {
                Ok(Some((k[0], p)))
            } else {
                Err(
                    FormatError::BadFieldLength {
                        tag: hello_tag::DEVICE_HYBRID_PUBLIC,
                        len: p.len() as usize,
                    },
                )
            },
        },
        (None, None) => Ok(None),
        (Some(_), None) => Err(FormatError::MissingField { tag: hello_tag::DEVICE_HYBRID_PUBLIC }),
        (None, Some(_)) => Err(FormatError::MissingField { tag: hello_tag::DEVICE_HYBRID_KEM }),
    }
}

/// The first message that the records hold, or what is wrong with them.
pub open spec fn hello_in(rs: Seq<Rec>) -> Result<HelloView, FormatError> {
    if hybrid_in(rs) is Err {
        Err(hybrid_in(rs)->Err_0)
    } else if tlv::lookup(rs, hello_tag::DEVICE_FPR) is None {
        Err(FormatError::MissingField { tag: hello_tag::DEVICE_FPR })
    } else if tlv::lookup(rs, hello_tag::DEVICE_PUBLIC) is None {
        Err(FormatError::MissingField { tag: hello_tag::DEVICE_PUBLIC })
    } else {
        Ok(
            HelloView {
                device_fpr: tlv::lookup(rs, hello_tag::DEVICE_FPR)->0,
                device_public: tlv::lookup(rs, hello_tag::DEVICE_PUBLIC)->0,
                device_tpm: tlv::lookup(rs, hello_tag::DEVICE_TPM),
                device_hybrid: hybrid_in(rs)->Ok_0,
            },
        )
    }
}

/// The first message that the bytes hold.
pub open spec fn hello_of(bytes: Seq<u8>) -> Result<HelloView, FormatError> {
    match tlv::read(HelloSchema, bytes) {
        Err(e) => Err(e),
        Ok(rs) => hello_in(rs),
    }
}

/// An optional field that is not known changes nothing in the first message that is read.
pub proof fn hello_reads_past_optional_fields(bytes: Seq<u8>)
    requires
        hello_of(bytes) is Ok,
    ensures
        hello_of(unknown::without_optional(bytes)) == hello_of(bytes),
{
    unknown::optional_records_are_skipped(HelloSchema, bytes);
}

/// A first message whose keys have the right lengths survives being written and
/// read back.
pub proof fn hello_round_trip(h: HelloView)
    requires
        h.sized(),
        h.readable(),
        tlv::sealed(h.recs()) is Ok,
    ensures
        hello_of(tlv::sealed(h.recs())->Ok_0) == Ok::<HelloView, FormatError>(h),
{
    broadcast use tlv::group_records;

    tlv::read_wire(HelloSchema, h.recs());
}

/// Write a first message.
pub fn encode_hello(hello: &Hello) -> (r: Result<Vec<u8>, FormatError>)
    ensures
        tlv::agrees(r, tlv::sealed(hello@.recs())),
{
    broadcast use tlv::group_records;

    let mut w = TlvWriter::new();
    w.put(hello_tag::DEVICE_FPR, hello.device_fpr.as_slice())?;
    w.put(hello_tag::DEVICE_PUBLIC, hello.device_public.as_slice())?;
    if let Some(tpm) = &hello.device_tpm {
        w.put(hello_tag::DEVICE_TPM, tpm.as_slice())?;
    }
    if let Some(hybrid) = &hello.device_hybrid {
        w.put(hello_tag::DEVICE_HYBRID_KEM, one(hybrid.0).as_slice())?;
        w.put(hello_tag::DEVICE_HYBRID_PUBLIC, hybrid.1.as_slice())?;
    }
    Ok(w.finish())
}

/// Read a first message.
pub fn decode_hello(bytes: &[u8]) -> (r: Result<Hello, FormatError>)
    ensures
        tlv::agrees(r, hello_of(bytes@)),
{
    let fs = read_fields(&HelloSchema, bytes)?;
    let kem = find(&fs, hello_tag::DEVICE_HYBRID_KEM);
    let public = find(&fs, hello_tag::DEVICE_HYBRID_PUBLIC);
    let device_hybrid = match (kem, public) {
        (Some(kem), Some(public)) => {
            let expected: usize = match kem[0] {
                4 => XWING_PUBLIC_LEN,
                5 => MLKEM_P256_PUBLIC_LEN,
                _ => {
                    return Err(bad(hello_tag::DEVICE_HYBRID_KEM, 1));
                },
            };
            if public.len() != expected {
                return Err(bad(hello_tag::DEVICE_HYBRID_PUBLIC, public.len()));
            }
            Some((kem[0], owned(public)))
        },
        (None, None) => None,
        (Some(_), None) => {
            return Err(FormatError::MissingField { tag: hello_tag::DEVICE_HYBRID_PUBLIC });
        },
        (None, Some(_)) => {
            return Err(FormatError::MissingField { tag: hello_tag::DEVICE_HYBRID_KEM });
        },
    };
    let fpr = need(&fs, hello_tag::DEVICE_FPR)?;
    let public = need(&fs, hello_tag::DEVICE_PUBLIC)?;
    Ok(
        Hello {
            device_fpr: array(fpr),
            device_public: array(public),
            device_tpm: match find(&fs, hello_tag::DEVICE_TPM) {
                Some(v) => Some(owned(v)),
                None => None,
            },
            device_hybrid,
        },
    )
}

/// The challenge of the server: a secret sealed to each key of the device.
#[derive(Debug, Clone, PartialEq, Eq)]
pub struct Challenge {
    pub software: SlotBlob,
    pub hardware: Option<SlotBlob>,
    pub hybrid: Option<SlotBlob>,
}

/// What a challenge holds.
pub struct ChallengeView {
    pub software: SlotView,
    pub hardware: Option<SlotView>,
    pub hybrid: Option<SlotView>,
}

impl View for Challenge {
    type V = ChallengeView;

    open spec fn view(&self) -> ChallengeView {
        ChallengeView {
            software: self.software@,
            hardware: opt_slot(self.hardware),
            hybrid: opt_slot(self.hybrid),
        }
    }
}

/// What a slot that may be absent holds.
pub open spec fn opt_slot(s: Option<SlotBlob>) -> Option<SlotView> {
    match s {
        Some(s) => Some(s@),
        None => None,
    }
}

/// The bytes of a slot that may be absent.
pub open spec fn opt_slot_bytes(s: Option<SlotView>) -> Option<Seq<u8>> {
    match s {
        Some(s) => Some(slot_bytes(s)),
        None => None,
    }
}

/// The slot that a field which may be absent holds.
pub open spec fn opt_slot_of(v: Option<Seq<u8>>) -> Option<SlotView> {
    match v {
        Some(b) => Some(slot_of(b)->Ok_0),
        None => None,
    }
}

impl ChallengeView {
    /// The lengths of all parts fit their heads.
    pub open spec fn fits(self) -> bool {
        &&& self.software.fits()
        &&& self.hardware is Some ==> self.hardware->0.fits()
        &&& self.hybrid is Some ==> self.hybrid->0.fits()
    }
}

impl ChallengeView {
    /// The fields of fixed length have it.
    pub open spec fn sized(self) -> bool {
        self.software.nonce.len() == 24 && (self.hardware is Some ==> self.hardware->0.nonce.len()
            == 24) && (self.hybrid is Some ==> self.hybrid->0.nonce.len() == 24)
    }

    /// The records of the challenge.
    pub open spec fn recs(self) -> Seq<Rec> {
        let rs = Seq::<Rec>::empty();
        let rs = rs.push((challenge_tag::SOFTWARE, slot_bytes(self.software)));
        let rs = tlv::with_opt(rs, challenge_tag::HARDWARE, opt_slot_bytes(self.hardware));
        let rs = tlv::with_opt(rs, challenge_tag::HYBRID, opt_slot_bytes(self.hybrid));
        rs
    }
}

/// The rule for the fields of a challenge.
pub struct ChallengeSchema;

impl Schema for ChallengeSchema {
    open spec fn fault(&self, tag: u16, value: Seq<u8>) -> Option<FormatError> {
        if tag == challenge_tag::SOFTWARE || tag == challenge_tag::HARDWARE
            || tag == challenge_tag::HYBRID {
            slot_fault(value)
        } else {
            unknown::unknown_fault(tag)
        }
    }

    fn check(&self, tag: u16, value: &[u8]) -> (r: Option<FormatError>) {
        if tag == challenge_tag::SOFTWARE || tag == challenge_tag::HARDWARE
            || tag == challenge_tag::HYBRID {
            check_slot(value)
        } else {
            unknown_verdict(tag)
        }
    }
}

/// The bytes of a challenge.
pub open spec fn challenge_bytes(c: ChallengeView) -> Result<Seq<u8>, FormatError> {
    if c.fits() {
        tlv::sealed(c.recs())
    } else {
        Err(FormatError::OffsetOverflow)
    }
}

/// The challenge that the records hold, or the first field that is absent.
pub open spec fn challenge_in(rs: Seq<Rec>) -> Result<ChallengeView, FormatError> {
    if tlv::lookup(rs, challenge_tag::SOFTWARE) is None {
        Err(FormatError::MissingField { tag: challenge_tag::SOFTWARE })
    } else {
        Ok(
            ChallengeView {
                software: slot_of(tlv::lookup(rs, challenge_tag::SOFTWARE)->0)->Ok_0,
                hardware: opt_slot_of(tlv::lookup(rs, challenge_tag::HARDWARE)),
                hybrid: opt_slot_of(tlv::lookup(rs, challenge_tag::HYBRID)),
            },
        )
    }
}

/// The challenge that the bytes hold.
pub open spec fn challenge_of(bytes: Seq<u8>) -> Result<ChallengeView, FormatError> {
    match tlv::read(ChallengeSchema, bytes) {
        Err(e) => Err(e),
        Ok(rs) => challenge_in(rs),
    }
}

/// An optional field that is not known changes nothing in the challenge that is read.
pub proof fn challenge_reads_past_optional_fields(bytes: Seq<u8>)
    requires
        challenge_of(bytes) is Ok,
    ensures
        challenge_of(unknown::without_optional(bytes)) == challenge_of(bytes),
{
    unknown::optional_records_are_skipped(ChallengeSchema, bytes);
}

/// A challenge survives being written and read back.
pub proof fn challenge_round_trip(c: ChallengeView)
    requires
        c.sized(),
        challenge_bytes(c) is Ok,
    ensures
        challenge_of(challenge_bytes(c)->Ok_0) == Ok::<ChallengeView, FormatError>(c),
{
    broadcast use tlv::group_records;

    slot_round_trip(c.software);
    if c.hardware is Some {
        slot_round_trip(c.hardware->0);
    }
    if c.hybrid is Some {
        slot_round_trip(c.hybrid->0);
    }
    tlv::read_wire(ChallengeSchema, c.recs());
}

/// Write a challenge.
pub fn encode_challenge(challenge: &Challenge) -> (r: Result<Vec<u8>, FormatError>)
    ensures
        tlv::agrees(r, challenge_bytes(challenge@)),
{
    broadcast use tlv::group_records;

    let mut w = TlvWriter::new();
    w.put(challenge_tag::SOFTWARE, encode_slot(&challenge.software)?.as_slice())?;
    if let Some(hard) = &challenge.hardware {
        w.put(challenge_tag::HARDWARE, encode_slot(hard)?.as_slice())?;
    }
    if let Some(hybrid) = &challenge.hybrid {
        w.put(challenge_tag::HYBRID, encode_slot(hybrid)?.as_slice())?;
    }
    Ok(w.finish())
}

/// Read a challenge.
pub fn decode_challenge(bytes: &[u8]) -> (r: Result<Challenge, FormatError>)
    ensures
        tlv::agrees(r, challenge_of(bytes@)),
{
    let fs = read_fields(&ChallengeSchema, bytes)?;
    let software = need(&fs, challenge_tag::SOFTWARE)?;
    Ok(
        Challenge {
            software: decode_slot(software)?,
            hardware: match find(&fs, challenge_tag::HARDWARE) {
                Some(v) => Some(decode_slot(v)?),
                None => None,
            },
            hybrid: match find(&fs, challenge_tag::HYBRID) {
                Some(v) => Some(decode_slot(v)?),
                None => None,
            },
        },
    )
}

/// The answer of a device to a challenge: what it opened.
#[derive(Debug, Clone, PartialEq, Eq)]
pub struct Proof {
    pub echo: Vec<u8>,
}

/// What the answer holds.
pub struct ProofView {
    pub echo: Seq<u8>,
}

impl View for Proof {
    type V = ProofView;

    open spec fn view(&self) -> ProofView {
        ProofView {
            echo: self.echo@,
        }
    }
}

impl ProofView {
    /// The records of the answer.
    pub open spec fn recs(self) -> Seq<Rec> {
        let rs = Seq::<Rec>::empty();
        let rs = rs.push((proof_tag::ECHO, self.echo));
        rs
    }
}

/// The rule for the fields of the answer.
pub struct ProofSchema;

impl Schema for ProofSchema {
    open spec fn fault(&self, tag: u16, value: Seq<u8>) -> Option<FormatError> {
        if tag == proof_tag::ECHO {
            tlv::length_fault(tag, value, 32)
        } else {
            unknown::unknown_fault(tag)
        }
    }

    fn check(&self, tag: u16, value: &[u8]) -> (r: Option<FormatError>) {
        if tag == proof_tag::ECHO {
            check_length(tag, value, 32)
        } else {
            unknown_verdict(tag)
        }
    }
}

/// The answer that the records hold, or the first field that is absent.
pub open spec fn proof_in(rs: Seq<Rec>) -> Result<ProofView, FormatError> {
    if tlv::lookup(rs, proof_tag::ECHO) is None {
        Err(FormatError::MissingField { tag: proof_tag::ECHO })
    } else {
        Ok(
            ProofView {
                echo: tlv::lookup(rs, proof_tag::ECHO)->0,
            },
        )
    }
}

/// The answer to a challenge that the bytes hold.
pub open spec fn proof_of(bytes: Seq<u8>) -> Result<ProofView, FormatError> {
    match tlv::read(ProofSchema, bytes) {
        Err(e) => Err(e),
        Ok(rs) => proof_in(rs),
    }
}

/// An optional field that is not known changes nothing in the answer to a challenge that is read.
pub proof fn proof_reads_past_optional_fields(bytes: Seq<u8>)
    requires
        proof_of(bytes) is Ok,
    ensures
        proof_of(unknown::without_optional(bytes)) == proof_of(bytes),
{
    unknown::optional_records_are_skipped(ProofSchema, bytes);
}

/// An answer of the right length survives being written and read back.
pub proof fn proof_round_trip(p: ProofView)
    requires
        p.echo.len() == 32,
    ensures
        tlv::sealed(p.recs()) is Ok,
        proof_of(tlv::sealed(p.recs())->Ok_0) == Ok::<ProofView, FormatError>(p),
{
    broadcast use tlv::group_records;

    tlv::read_wire(ProofSchema, p.recs());
}

/// Write the answer to a challenge.
pub fn encode_proof(answer: &Proof) -> (r: Result<Vec<u8>, FormatError>)
    ensures
        tlv::agrees(r, tlv::sealed(answer@.recs())),
{
    broadcast use tlv::group_records;

    let mut w = TlvWriter::new();
    w.put(proof_tag::ECHO, answer.echo.as_slice())?;
    Ok(w.finish())
}

/// Read the answer to a challenge.
pub fn decode_proof(bytes: &[u8]) -> (r: Result<Proof, FormatError>)
    ensures
        tlv::agrees(r, proof_of(bytes@)),
{
    let fs = read_fields(&ProofSchema, bytes)?;
    let echo = need(&fs, proof_tag::ECHO)?;
    Ok(Proof { echo: owned(echo) })
}

pub const KIND_HELLO: u8 = 1;
pub const KIND_PROVE: u8 = 2;
pub const KIND_ACTIVATE: u8 = 3;
pub const KIND_CHALLENGE: u8 = 4;
pub const KIND_PROVEN: u8 = 5;
pub const KIND_GRANTED: u8 = 6;
pub const KIND_DENIED: u8 = 7;
pub const KIND_ASK: u8 = 8;
pub const KIND_COLLECT: u8 = 9;
pub const KIND_DECIDE: u8 = 10;
pub const KIND_ASKED: u8 = 11;
pub const KIND_DECIDED: u8 = 12;
pub const KIND_WAITING: u8 = 13;
pub const KIND_ACCEPTED: u8 = 14;
pub const KIND_REQUESTS: u8 = 15;
pub const KIND_QUEUE: u8 = 16;
pub const KIND_WATCH: u8 = 17;
pub const KIND_NOTICE: u8 = 18;
pub const KIND_REVOCATION_REQ: u8 = 19;
pub const KIND_REVOCATION: u8 = 20;
pub const KIND_NOT_REVOKED: u8 = 21;
pub const KIND_RENEW: u8 = 22;
pub const KIND_REGISTER: u8 = 23;
pub const KIND_REVOKE: u8 = 24;
pub const KIND_ORDER: u8 = 25;
pub const KIND_ENDORSE: u8 = 26;
pub const KIND_STANDING_REQ: u8 = 27;
pub const KIND_ENDORSED: u8 = 28;
pub const KIND_STANDING: u8 = 29;
pub const KIND_WATCH_AUTHOR: u8 = 30;
pub const KIND_ATTEST_OPEN: u8 = 31;
pub const KIND_ATTEST_EVIDENCE: u8 = 32;
pub const KIND_ATTEST_SECRET: u8 = 33;
pub const KIND_ATTEST_NONCE: u8 = 34;
pub const KIND_ATTEST_CREDENTIAL: u8 = 35;
pub const KIND_ATTESTED: u8 = 36;
pub const KIND_REGISTER_EDITION: u8 = 37;
pub const KIND_JOURNAL_VIEW_REQ: u8 = 38;
pub const KIND_LOG_VIEW: u8 = 39;
pub const KIND_DIRECTORY_VIEW_REQ: u8 = 40;
pub const KIND_DIRECTORY_LOOKUP_REQ: u8 = 41;
pub const KIND_DIRECTORY_ENTRY: u8 = 42;
pub const KIND_DIRECTORY_RECORDS_REQ: u8 = 43;
pub const KIND_DIRECTORY_RECORDS: u8 = 44;
pub const KIND_CONTROL: u8 = 45;
pub const KIND_RECEIPT: u8 = 46;
pub const KIND_BINDING_REQ: u8 = 47;
pub const KIND_BINDING: u8 = 48;
pub const KIND_REPLICA_PUSH: u8 = 49;
pub const KIND_REPLICA_ACK: u8 = 50;
pub const KIND_PUT_GRANT: u8 = 51;
pub const KIND_PUT_DELEGATION: u8 = 52;
pub const KIND_FETCH_CHAIN: u8 = 53;
pub const KIND_CHAIN_STORED: u8 = 54;
pub const KIND_CHAIN: u8 = 55;
pub const KIND_NO_CHAIN: u8 = 56;
pub const KIND_PUT_ACTION_GRANT: u8 = 57;
pub const KIND_REQUEST_ACTION: u8 = 58;
pub const KIND_REPORT_ACTION: u8 = 59;
pub const KIND_ACTION_REQUESTS: u8 = 60;
pub const KIND_DECIDE_ACTION: u8 = 61;
pub const KIND_ACTION_GRANTED: u8 = 62;
pub const KIND_ACTION_PENDING: u8 = 63;
pub const KIND_ACTION_REFUSED: u8 = 64;
pub const KIND_ACTION_QUEUE: u8 = 65;

/// What several slices hold.
pub open spec fn slices(ds: Seq<&[u8]>) -> Seq<Seq<u8>> {
    ds.map_values(|d: &[u8]| d@)
}

/// The first document of a chain that is empty or too long.
pub open spec fn document_fault(ds: Seq<Seq<u8>>) -> Option<FormatError>
    decreases ds.len(),
{
    if ds.len() == 0 {
        None
    } else {
        tlv::or_else(
            tlv::bounded_fault(0, ds[0], MAX_DOCUMENT as nat),
            document_fault(ds.drop_first()),
        )
    }
}

/// The bytes of a chain: every document behind its length.
pub open spec fn chain_bytes(ds: Seq<Seq<u8>>) -> Result<Seq<u8>, FormatError> {
    if ds.len() == 0 || ds.len() > MAX_CHAIN_DOCUMENTS {
        Err(FormatError::BadFieldLength { tag: 0, len: ds.len() as usize })
    } else {
        match document_fault(ds) {
            Some(e) => Err(e),
            None => Ok(bytes::framed(ds)),
        }
    }
}

/// The documents in the bytes behind `taken` others of a chain.
pub open spec fn chain_behind(b: Seq<u8>, taken: nat) -> Result<Seq<Seq<u8>>, FormatError>
    decreases b.len(),
{
    if b.len() == 0 {
        Ok(Seq::empty())
    } else if taken >= MAX_CHAIN_DOCUMENTS {
        Err(FormatError::BadFieldLength { tag: 0, len: (taken + 1) as usize })
    } else if b.len() < 4 {
        Err(FormatError::BadFieldLength { tag: 0, len: b.len() as usize })
    } else {
        let len = bytes::num32(b.subrange(0, 4));
        if len == 0 || len > MAX_DOCUMENT || b.len() - 4 < len {
            Err(FormatError::BadFieldLength { tag: 0, len: len as usize })
        } else {
            match chain_behind(b.skip(4 + len), taken + 1) {
                Err(e) => Err(e),
                Ok(rest) => Ok(seq![b.subrange(4, 4 + len)] + rest),
            }
        }
    }
}

/// The documents of a chain: at least one, and no more than a chain can have.
pub open spec fn chain_of(b: Seq<u8>) -> Result<Seq<Seq<u8>>, FormatError> {
    if b.len() == 0 {
        Err(FormatError::BadFieldLength { tag: 0, len: 0 })
    } else {
        chain_behind(b, 0)
    }
}

proof fn chain_behind_round_trip(ds: Seq<Seq<u8>>, taken: nat)
    requires
        taken + ds.len() <= MAX_CHAIN_DOCUMENTS,
        document_fault(ds) is None,
    ensures
        chain_behind(bytes::framed(ds), taken) == Ok::<Seq<Seq<u8>>, FormatError>(ds),
        ds.len() > 0 ==> bytes::framed(ds).len() > 0,
    decreases ds.len(),
{
    broadcast use bytes::group_numbers;

    if ds.len() > 0 {
        let n = ds[0].len() as u32;
        let rest = ds.drop_first();
        let b = bytes::framed(ds);
        assert(b.subrange(0, 4) =~= bytes::le32(n));
        assert(b.subrange(4, 4 + n) =~= ds[0]);
        assert(b.skip(4 + n) =~= bytes::framed(rest));
        chain_behind_round_trip(rest, taken + 1);
        assert(seq![ds[0]] + rest =~= ds);
    } else {
        assert(ds =~= Seq::empty());
    }
}

/// A chain survives being joined and split.
pub proof fn chain_round_trip(ds: Seq<Seq<u8>>)
    requires
        chain_bytes(ds) is Ok,
    ensures
        chain_of(chain_bytes(ds)->Ok_0) == Ok::<Seq<Seq<u8>>, FormatError>(ds),
{
    chain_behind_round_trip(ds, 0);
}

proof fn chain_behind_is_bounded(b: Seq<u8>, taken: nat)
    requires
        chain_behind(b, taken) is Ok,
        taken <= MAX_CHAIN_DOCUMENTS,
    ensures
        taken + chain_behind(b, taken)->Ok_0.len() <= MAX_CHAIN_DOCUMENTS,
        document_fault(chain_behind(b, taken)->Ok_0) is None,
        bytes::framed(chain_behind(b, taken)->Ok_0) == b,
        b.len() > 0 ==> chain_behind(b, taken)->Ok_0.len() > 0,
    decreases b.len(),
{
    broadcast use bytes::group_numbers;

    if b.len() > 0 {
        let len = bytes::num32(b.subrange(0, 4));
        let rest = b.skip(4 + len);
        chain_behind_is_bounded(rest, taken + 1);
        let ds = chain_behind(b, taken)->Ok_0;
        assert(ds.drop_first() =~= chain_behind(rest, taken + 1)->Ok_0);
        assert(ds[0] == b.subrange(4, 4 + len));
        assert(bytes::framed(ds) =~= b);
    } else {
        assert(bytes::framed(chain_behind(b, taken)->Ok_0) =~= b);
    }
}

/// What is split into documents could have been joined from them: the window and
/// the length of every document are kept on both sides.
pub proof fn split_chain_is_bounded(b: Seq<u8>)
    requires
        chain_of(b) is Ok,
    ensures
        chain_bytes(chain_of(b)->Ok_0) == Ok::<Seq<u8>, FormatError>(b),
{
    chain_behind_is_bounded(b, 0);
}

/// Join the documents of a chain.
pub fn join_chain(documents: &[&[u8]]) -> (r: Result<Vec<u8>, FormatError>)
    ensures
        tlv::agrees(r, chain_bytes(slices(documents@))),
{
    if documents.len() == 0 || documents.len() > MAX_CHAIN_DOCUMENTS {
        return Err(bad(0, documents.len()));
    }
    let ghost all = slices(documents@);
    let mut out: Vec<u8> = Vec::new();
    let mut i: usize = 0;
    assert(all.skip(0) =~= all);
    assert(out@ + bytes::framed(all) =~= bytes::framed(all));
    while i < documents.len()
        invariant
            i <= documents@.len(),
            0 < documents@.len() <= MAX_CHAIN_DOCUMENTS,
            all == slices(documents@),
            document_fault(all) == document_fault(all.skip(i as int)),
            out@ + bytes::framed(all.skip(i as int)) == bytes::framed(all),
        decreases documents@.len() - i,
    {
        let ghost done = out@;
        let ghost rest = all.skip(i as int);
        assert(rest.drop_first() =~= all.skip(i as int + 1));
        assert(rest[0] == documents@[i as int]@);
        let document = documents[i];
        refuse(check_bounded(0, document, MAX_DOCUMENT))?;
        append(&mut out, write32(document.len() as u32).as_slice());
        append(&mut out, document);
        assert(out@ + bytes::framed(rest.drop_first()) =~= done + bytes::framed(rest));
        i = i + 1;
    }
    assert(out@ + Seq::<u8>::empty() =~= out@);
    Ok(out)
}

/// Split a chain into its documents.
pub fn split_chain<'a>(body: &'a [u8]) -> (r: Result<Vec<&'a [u8]>, FormatError>)
    ensures
        match r {
            Ok(ds) => chain_of(body@) == Ok::<Seq<Seq<u8>>, FormatError>(slices(ds@)),
            Err(e) => chain_of(body@) == Err::<Seq<Seq<u8>>, FormatError>(e),
        },
{
    let mut out: Vec<&'a [u8]> = Vec::new();
    let mut rest: &'a [u8] = body;
    proof {
        if chain_behind(body@, 0) is Ok {
            let all = chain_behind(body@, 0)->Ok_0;
            assert(slices(out@) + all =~= all);
        }
    }
    while rest.len() > 0
        invariant
            out@.len() <= MAX_CHAIN_DOCUMENTS,
            body@.len() == 0 ==> rest@.len() == 0,
            chain_behind(body@, 0) == match chain_behind(rest@, out@.len()) {
                Err(e) => Err::<Seq<Seq<u8>>, FormatError>(e),
                Ok(tail) => Ok::<Seq<Seq<u8>>, FormatError>(slices(out@) + tail),
            },
        decreases rest@.len(),
    {
        if out.len() >= MAX_CHAIN_DOCUMENTS {
            return Err(bad(0, out.len() + 1));
        }
        if rest.len() < 4 {
            return Err(bad(0, rest.len()));
        }
        let declared: u32 = read32(part(rest, 0, 4));
        let len: usize = declared as usize;
        if len == 0 || len > MAX_DOCUMENT || rest.len() - 4 < len {
            return Err(bad(0, len));
        }
        let ghost before = out@;
        let ghost whole = rest@;
        let document = part(rest, 4, 4 + len);
        out.push(document);
        rest = part(rest, 4 + len, rest.len());
        proof {
            assert(rest@ =~= whole.skip(4 + declared));
            assert(slices(out@) =~= slices(before).push(document@));
            if chain_behind(rest@, out@.len()) is Ok {
                let tail = chain_behind(rest@, out@.len())->Ok_0;
                assert(slices(before) + (seq![document@] + tail) =~= slices(out@) + tail);
            }
        }
    }
    assert(slices(out@) + Seq::<Seq<u8>>::empty() =~= slices(out@));
    if body.len() == 0 {
        return Err(bad(0, 0));
    }
    Ok(out)
}

/// The verdict on bytes that should hold a chain.
pub open spec fn chain_fault(b: Seq<u8>) -> Option<FormatError> {
    match chain_of(b) {
        Ok(_) => None,
        Err(e) => Some(e),
    }
}

/// The verdict on bytes that should hold a chain.
fn check_chain(b: &[u8]) -> (r: Option<FormatError>)
    ensures
        r == chain_fault(b@),
{
    match split_chain(b) {
        Ok(_) => None,
        Err(e) => Some(e),
    }
}

/// A request for a view of a log: the sizes it begins and ends with.
pub open spec fn view_request_bytes(since: u64, upto: u64) -> Seq<u8> {
    bytes::le64(since) + bytes::le64(upto)
}

/// A body of a fixed length, or a refusal.
pub open spec fn exact_of(body: Seq<u8>, len: nat) -> Result<Seq<u8>, FormatError> {
    if body.len() == len {
        Ok(body)
    } else {
        Err(FormatError::BadFieldLength { tag: 0, len: body.len() as usize })
    }
}

/// A body of a fixed length, or a refusal.
fn exact_body<'a>(body: &'a [u8], len: usize) -> (r: Result<&'a [u8], FormatError>)
    ensures
        match r {
            Ok(b) => exact_of(body@, len as nat) == Ok::<Seq<u8>, FormatError>(b@),
            Err(e) => exact_of(body@, len as nat) == Err::<Seq<u8>, FormatError>(e),
        },
{
    if body.len() == len {
        Ok(body)
    } else {
        Err(bad(0, body.len()))
    }
}

/// A body that is not read here: not empty, and no longer than a document.
pub open spec fn opaque_of(body: Seq<u8>) -> Result<Seq<u8>, FormatError> {
    match tlv::bounded_fault(0, body, MAX_DOCUMENT as nat) {
        Some(e) => Err(e),
        None => Ok(body),
    }
}

/// A body that is not read here.
fn opaque(body: &[u8]) -> (r: Result<Vec<u8>, FormatError>)
    ensures
        tlv::agrees(r, opaque_of(body@)),
{
    refuse(check_bounded(0, body, MAX_DOCUMENT))?;
    Ok(owned(body))
}

/// Refuse a body where there should be none.
fn no_body(body: &[u8]) -> (r: Result<(), FormatError>)
    ensures
        match r {
            Ok(_) => exact_of(body@, 0) is Ok,
            Err(e) => exact_of(body@, 0) == Err::<Seq<u8>, FormatError>(e),
        },
{
    let _ = exact_body(body, 0)?;
    Ok(())
}

/// The kind of a message and its body.
pub open spec fn kind_of(b: Seq<u8>) -> Result<(u8, Seq<u8>), FormatError> {
    if b.len() == 0 {
        Err(FormatError::MissingField { tag: 0 })
    } else {
        Ok((b[0], b.skip(1)))
    }
}

/// The kind of a message and its body.
fn split_kind<'a>(b: &'a [u8]) -> (r: Result<(u8, &'a [u8]), FormatError>)
    ensures
        match r {
            Ok((k, body)) => kind_of(b@) == Ok::<(u8, Seq<u8>), FormatError>((k, body@)),
            Err(e) => kind_of(b@) == Err::<(u8, Seq<u8>), FormatError>(e),
        },
{
    if b.len() == 0 {
        return Err(FormatError::MissingField { tag: 0 });
    }
    let body = part(b, 1, b.len());
    assert(body@ =~= b@.skip(1));
    Ok((b[0], body))
}

/// A message: its kind, then its body.
pub open spec fn message(kind: u8, body: Seq<u8>) -> Seq<u8> {
    seq![kind] + body
}

/// A message with a kind and a body.
fn with_kind(kind: u8, body: &[u8]) -> (r: Vec<u8>)
    ensures
        r@ == message(kind, body@),
{
    let mut out = one(kind);
    append(&mut out, body);
    out
}

/// The kind and the body of a message are found again.
pub broadcast proof fn kind_of_message(kind: u8, body: Seq<u8>)
    ensures
        #[trigger] kind_of(message(kind, body)) == Ok::<(u8, Seq<u8>), FormatError>((kind, body)),
{
    assert(message(kind, body).skip(1) =~= body);
}

/// A notice of the server to who watches.
#[derive(Debug, Clone, PartialEq, Eq)]
pub enum Notice {
    /// Nothing happened; the line stands.
    Heartbeat,
    /// An event of the journal.
    Event { seq: u64, event: u8, file_id: [u8; 16], device_fpr: Option<[u8; 32]> },
}

/// What a notice says.
pub enum NoticeView {
    Heartbeat,
    Event { seq: u64, event: u8, file_id: Seq<u8>, device_fpr: Option<Seq<u8>> },
}

impl View for Notice {
    type V = NoticeView;

    open spec fn view(&self) -> NoticeView {
        match self {
            Notice::Heartbeat => NoticeView::Heartbeat,
            Notice::Event { seq, event, file_id, device_fpr } => NoticeView::Event {
                seq: *seq,
                event: *event,
                file_id: file_id@,
                device_fpr: bytes::opt_array(*device_fpr),
            },
        }
    }
}

impl NoticeView {
    /// The fields of fixed length have it.
    pub open spec fn sized(self) -> bool {
        match self {
            NoticeView::Heartbeat => true,
            NoticeView::Event { seq, event, file_id, device_fpr } => file_id.len() == 16 && (
            device_fpr is Some ==> device_fpr->0.len() == 32),
        }
    }
}

/// The kind of a notice that nothing happened.
pub const NOTICE_HEARTBEAT: u8 = 0;

/// The kind of a notice of an event.
pub const NOTICE_EVENT: u8 = 4;

/// The length of the body of an event: its number, its kind, the file, and a fingerprint
/// that may be absent.
pub const NOTICE_EVENT_LEN: usize = 8 + 1 + 16 + 1 + 32;

/// A fingerprint that may be absent: a flag, and thirty-two bytes either way.
pub open spec fn fpr_bytes(fpr: Option<Seq<u8>>) -> Seq<u8> {
    match fpr {
        Some(f) => seq![1u8] + f,
        None => seq![0u8] + Seq::new(32, |i: int| 0u8),
    }
}

/// The bytes of a notice.
pub open spec fn notice_bytes(n: NoticeView) -> Seq<u8> {
    match n {
        NoticeView::Heartbeat => seq![NOTICE_HEARTBEAT],
        NoticeView::Event { seq, event, file_id, device_fpr } => message(
            NOTICE_EVENT,
            bytes::le64(seq) + seq![event] + file_id + fpr_bytes(device_fpr),
        ),
    }
}

/// The notice that the bytes hold.
pub open spec fn notice_of(b: Seq<u8>) -> Result<NoticeView, FormatError> {
    match kind_of(b) {
        Err(e) => Err(e),
        Ok((kind, body)) => {
            let whole = FormatError::BadFieldLength { tag: 0, len: body.len() as usize };
            if kind == NOTICE_HEARTBEAT {
                if body.len() == 0 {
                    Ok(NoticeView::Heartbeat)
                } else {
                    Err(whole)
                }
            } else if kind == NOTICE_EVENT {
                if body.len() != NOTICE_EVENT_LEN || body[25] > 1 {
                    Err(whole)
                } else {
                    Ok(
                        NoticeView::Event {
                            seq: bytes::num64(body.subrange(0, 8)),
                            event: body[8],
                            file_id: body.subrange(9, 25),
                            device_fpr: if body[25] == 1 {
                                Some(body.subrange(26, 58))
                            } else {
                                None
                            },
                        },
                    )
                }
            } else {
                Err(FormatError::UnknownCriticalField { tag: kind as u16 })
            }
        },
    }
}

/// A notice survives being written and read back.
pub proof fn notice_round_trip(n: NoticeView)
    requires
        n.sized(),
    ensures
        notice_of(notice_bytes(n)) == Ok::<NoticeView, FormatError>(n),
{
    broadcast use {bytes::group_numbers, kind_of_message};

    match n {
        NoticeView::Heartbeat => {
            assert(notice_bytes(n) =~= message(NOTICE_HEARTBEAT, Seq::empty()));
        },
        NoticeView::Event { seq, event, file_id, device_fpr } => {
            let body = bytes::le64(seq) + seq![event] + file_id + fpr_bytes(device_fpr);
            assert(body.subrange(0, 8) =~= bytes::le64(seq));
            assert(body[8] == event);
            assert(body.subrange(9, 25) =~= file_id);
            match device_fpr {
                Some(f) => {
                    assert(body[25] == 1);
                    assert(body.subrange(26, 58) =~= f);
                },
                None => {
                    assert(body[25] == 0);
                },
            }
        },
    }
}

/// Write a notice.
fn encode_notice(notice: &Notice) -> (r: Vec<u8>)
    ensures
        r@ == notice_bytes(notice@),
{
    match notice {
        Notice::Heartbeat => one(NOTICE_HEARTBEAT),
        Notice::Event { seq, event, file_id, device_fpr } => {
            let mut body = write64(*seq);
            append(&mut body, one(*event).as_slice());
            append(&mut body, file_id.as_slice());
            match device_fpr {
                Some(fpr) => {
                    let mut tail = one(1);
                    append(&mut tail, fpr.as_slice());
                    append(&mut body, tail.as_slice());
                },
                None => {
                    let mut tail = one(0);
                    let zeros: [u8; 32] = [0u8; 32];
                    assert(zeros@ =~= Seq::new(32, |i: int| 0u8));
                    append(&mut tail, zeros.as_slice());
                    append(&mut body, tail.as_slice());
                },
            }
            with_kind(NOTICE_EVENT, body.as_slice())
        },
    }
}

/// Read a notice.
fn decode_notice(b: &[u8]) -> (r: Result<Notice, FormatError>)
    ensures
        tlv::agrees(r, notice_of(b@)),
{
    let (kind, body) = split_kind(b)?;
    if kind == NOTICE_HEARTBEAT {
        no_body(body)?;
        Ok(Notice::Heartbeat)
    } else if kind == NOTICE_EVENT {
        if body.len() != NOTICE_EVENT_LEN || body[25] > 1 {
            return Err(bad(0, body.len()));
        }
        Ok(
            Notice::Event {
                seq: read64(part(body, 0, 8)),
                event: body[8],
                file_id: array(part(body, 9, 25)),
                device_fpr: if body[25] == 1 {
                    Some(array(part(body, 26, 58)))
                } else {
                    None
                },
            },
        )
    } else {
        Err(FormatError::UnknownCriticalField { tag: kind as u16 })
    }
}

/// The bytes of a subscription: since when, how many files, and the files.
pub open spec fn watch_bytes(files: Seq<Seq<u8>>, since: u64) -> Result<Seq<u8>, FormatError> {
    if files.len() == 0 || files.len() > MAX_WATCH_FILES {
        Err(FormatError::BadFieldLength { tag: 0, len: files.len() as usize })
    } else {
        Ok(bytes::le64(since) + seq![files.len() as u8] + bytes::joined(files))
    }
}

/// The subscription that a body holds.
pub open spec fn watch_of(body: Seq<u8>) -> Result<(Seq<Seq<u8>>, u64), FormatError> {
    if body.len() >= 9 && 0 < body[8] <= MAX_WATCH_FILES && body.len() == 9 + 16 * body[8] {
        Ok((bytes::chunks(body.skip(9), 16), bytes::num64(body.subrange(0, 8))))
    } else {
        Err(FormatError::BadFieldLength { tag: 0, len: body.len() as usize })
    }
}

/// A subscription survives being written and read back.
pub proof fn watch_round_trip(files: Seq<Seq<u8>>, since: u64)
    requires
        watch_bytes(files, since) is Ok,
        bytes::all_sized(files, 16),
    ensures
        watch_of(watch_bytes(files, since)->Ok_0) == Ok::<(Seq<Seq<u8>>, u64), FormatError>(
            (files, since),
        ),
{
    broadcast use bytes::group_numbers;

    bytes::chunks_of_joined(files, 16);
    let b = watch_bytes(files, since)->Ok_0;
    assert(b.subrange(0, 8) =~= bytes::le64(since));
    assert(b[8] == files.len() as u8);
    assert(b.skip(9) =~= bytes::joined(files));
}

/// Write a subscription.
fn encode_watch(files: &Vec<[u8; 16]>, since: u64) -> (r: Result<Vec<u8>, FormatError>)
    ensures
        tlv::agrees(r, watch_bytes(bytes::arrays(files@), since)),
{
    if files.len() == 0 || files.len() > MAX_WATCH_FILES {
        return Err(bad(0, files.len()));
    }
    let mut out = write64(since);
    append(&mut out, one(files.len() as u8).as_slice());
    append(&mut out, join_arrays(files).as_slice());
    Ok(out)
}

/// Read a subscription.
fn decode_watch(body: &[u8]) -> (r: Result<(Vec<[u8; 16]>, u64), FormatError>)
    ensures
        match r {
            Ok((files, since)) => watch_of(body@) == Ok::<(Seq<Seq<u8>>, u64), FormatError>(
                (bytes::arrays(files@), since),
            ),
            Err(e) => watch_of(body@) == Err::<(Seq<Seq<u8>>, u64), FormatError>(e),
        },
{
    if body.len() < 9 || body[8] == 0 || body[8] as usize > MAX_WATCH_FILES {
        return Err(bad(0, body.len()));
    }
    let rest = part(body, 9, body.len());
    assert(rest@ =~= body@.skip(9));
    if rest.len() != 16 * body[8] as usize {
        return Err(bad(0, body.len()));
    }
    Ok((split_arrays(rest), read64(part(body, 0, 8))))
}

/// The bytes of a registration: the header behind its length, then the order.
pub open spec fn register_bytes(header: Seq<u8>, order: Seq<u8>) -> Result<Seq<u8>, FormatError> {
    match tlv::or_else(
        tlv::bounded_fault(0, header, MAX_DOCUMENT as nat),
        tlv::bounded_fault(0, order, MAX_DOCUMENT as nat),
    ) {
        Some(e) => Err(e),
        None => Ok(bytes::le32(header.len() as u32) + header + order),
    }
}

/// The registration that a body holds.
pub open spec fn register_of(body: Seq<u8>) -> Result<(Seq<u8>, Seq<u8>), FormatError> {
    if body.len() < 4 {
        Err(FormatError::Truncated { need: 4, have: body.len() as u64 })
    } else {
        let len = bytes::num32(body.subrange(0, 4));
        if len == 0 || len > MAX_DOCUMENT {
            Err(FormatError::BadFieldLength { tag: 0, len: len as usize })
        } else if body.len() - 4 < len {
            Err(FormatError::Truncated { need: (len + 4) as u64, have: body.len() as u64 })
        } else {
            match opaque_of(body.skip(4 + len)) {
                Err(e) => Err(e),
                Ok(order) => Ok((body.subrange(4, 4 + len), order)),
            }
        }
    }
}

/// A registration survives being written and read back.
pub proof fn register_round_trip(header: Seq<u8>, order: Seq<u8>)
    requires
        register_bytes(header, order) is Ok,
    ensures
        register_of(register_bytes(header, order)->Ok_0) == Ok::<(Seq<u8>, Seq<u8>), FormatError>(
            (header, order),
        ),
{
    broadcast use bytes::group_numbers;

    let b = register_bytes(header, order)->Ok_0;
    let n = header.len() as u32;
    assert(b.subrange(0, 4) =~= bytes::le32(n));
    assert(b.subrange(4, 4 + n) =~= header);
    assert(b.skip(4 + n) =~= order);
}

/// Write a registration.
fn encode_register(header: &[u8], order: &[u8]) -> (r: Result<Vec<u8>, FormatError>)
    ensures
        tlv::agrees(r, register_bytes(header@, order@)),
{
    refuse(check_bounded(0, header, MAX_DOCUMENT))?;
    refuse(check_bounded(0, order, MAX_DOCUMENT))?;
    let mut out = write32(header.len() as u32);
    append(&mut out, header);
    append(&mut out, order);
    Ok(out)
}

/// Read a registration.
fn decode_register(body: &[u8]) -> (r: Result<(Vec<u8>, Vec<u8>), FormatError>)
    ensures
        match r {
            Ok((header, order)) => register_of(body@) == Ok::<(Seq<u8>, Seq<u8>), FormatError>(
                (header@, order@),
            ),
            Err(e) => register_of(body@) == Err::<(Seq<u8>, Seq<u8>), FormatError>(e),
        },
{
    if body.len() < 4 {
        return Err(FormatError::Truncated { need: 4, have: body.len() as u64 });
    }
    let declared: u32 = read32(part(body, 0, 4));
    let len: usize = declared as usize;
    if len == 0 || len > MAX_DOCUMENT {
        return Err(bad(0, len));
    }
    if body.len() - 4 < len {
        return Err(FormatError::Truncated { need: len as u64 + 4, have: body.len() as u64 });
    }
    let order = part(body, 4 + len, body.len());
    assert(order@ =~= body@.skip(4 + declared));
    Ok((owned(part(body, 4, 4 + len)), opaque(order)?))
}

/// The bytes of an endorsement: who signs, then the order.
pub open spec fn endorse_bytes(signer: Seq<u8>, order: Seq<u8>) -> Result<Seq<u8>, FormatError> {
    match opaque_of(order) {
        Err(e) => Err(e),
        Ok(order) => Ok(signer + order),
    }
}

/// The endorsement that a body holds.
pub open spec fn endorse_of(body: Seq<u8>) -> Result<(Seq<u8>, Seq<u8>), FormatError> {
    if body.len() < 32 {
        Err(FormatError::BadFieldLength { tag: 0, len: body.len() as usize })
    } else {
        match opaque_of(body.skip(32)) {
            Err(e) => Err(e),
            Ok(order) => Ok((body.take(32), order)),
        }
    }
}

/// The bytes of a subscription of an author: since when, then the proof.
pub open spec fn watch_author_bytes(since: u64, evidence: Seq<u8>) -> Result<Seq<u8>, FormatError> {
    if evidence.len() <= SIGNATURE_LEN || evidence.len() > MAX_DOCUMENT {
        Err(FormatError::BadFieldLength { tag: 0, len: evidence.len() as usize })
    } else {
        Ok(bytes::le64(since) + evidence)
    }
}

/// The subscription of an author that a body holds.
pub open spec fn watch_author_of(body: Seq<u8>) -> Result<(u64, Seq<u8>), FormatError> {
    if body.len() < 8 {
        Err(FormatError::BadFieldLength { tag: 0, len: body.len() as usize })
    } else {
        let evidence = body.skip(8);
        if evidence.len() <= SIGNATURE_LEN || evidence.len() > MAX_DOCUMENT {
            Err(FormatError::BadFieldLength { tag: 0, len: evidence.len() as usize })
        } else {
            Ok((bytes::num64(body.take(8)), evidence))
        }
    }
}

/// The bytes of a report on an action: its number, whether it was done, and a digest.
pub open spec fn report_bytes(seq: u64, ok: bool, digest: Seq<u8>) -> Seq<u8> {
    bytes::le64(seq) + bytes::flag(ok) + digest
}

/// The report on an action that a body holds.
pub open spec fn report_of(body: Seq<u8>) -> Result<(u64, bool, Seq<u8>), FormatError> {
    if body.len() == 41 && body[8] <= 1 {
        Ok((bytes::num64(body.subrange(0, 8)), body[8] == 1, body.subrange(9, 41)))
    } else {
        Err(FormatError::BadFieldLength { tag: 0, len: body.len() as usize })
    }
}

/// The page of the directory that a body asks for.
pub open spec fn records_request_of(body: Seq<u8>) -> Result<(u64, u32), FormatError> {
    if body.len() == 12 && 0 < bytes::num32(body.subrange(8, 12)) <= MAX_PAGE {
        Ok((bytes::num64(body.subrange(0, 8)), bytes::num32(body.subrange(8, 12))))
    } else {
        Err(FormatError::BadFieldLength { tag: 0, len: body.len() as usize })
    }
}

/// The verdict on the words of a refused action: there are some, they are short,
/// and no character could repaint the screen.
pub open spec fn refusal_fault(why: Seq<char>) -> Option<FormatError> {
    let b = encode_utf8(why);
    if b.len() == 0 || b.len() > MAX_REFUSAL {
        Some(FormatError::BadFieldLength { tag: 0, len: b.len() as usize })
    } else {
        text::unsafe_fault(0, why)
    }
}

/// The verdict on the words of a refused action.
fn check_refusal(why: &str) -> (r: Option<FormatError>)
    ensures
        r == refusal_fault(why@),
{
    let len: usize = byte_len(why);
    if len == 0 || len > MAX_REFUSAL {
        return Some(bad(0, len));
    }
    check_unsafe(0, why)
}

/// The words of a refused action that a body holds.
pub open spec fn refusal_of(body: Seq<u8>) -> Result<Seq<char>, FormatError> {
    if !valid_utf8(body) {
        Err(FormatError::NotUtf8 { tag: 0 })
    } else {
        match refusal_fault(decode_utf8(body)) {
            Some(e) => Err(e),
            None => Ok(decode_utf8(body)),
        }
    }
}

/// The rule for the fields of an answer that carries a chain.
pub struct ChainSchema;

impl Schema for ChainSchema {
    open spec fn fault(&self, tag: u16, value: Seq<u8>) -> Option<FormatError> {
        if tag == chain_tag::DOCUMENTS {
            chain_fault(value)
        } else if tag == chain_tag::LEASE_VERIFY_KEY {
            tlv::length_fault(tag, value, 32)
        } else if tag == chain_tag::ACTION_GRANT {
            nonempty_fault(tag, value)
        } else {
            unknown::unknown_fault(tag)
        }
    }

    fn check(&self, tag: u16, value: &[u8]) -> (r: Option<FormatError>) {
        if tag == chain_tag::DOCUMENTS {
            check_chain(value)
        } else if tag == chain_tag::LEASE_VERIFY_KEY {
            check_length(tag, value, 32)
        } else if tag == chain_tag::ACTION_GRANT {
            check_nonempty(tag, value)
        } else {
            unknown_verdict(tag)
        }
    }
}

/// An action grant that says nothing is left out.
pub open spec fn grant_field(g: Option<Seq<u8>>) -> Option<Seq<u8>> {
    match g {
        Some(b) => if b.len() == 0 {
            None
        } else {
            Some(b)
        },
        None => None,
    }
}

/// The records of an answer that carries a chain.
pub open spec fn chain_recs(
    documents: Seq<u8>,
    key: Option<Seq<u8>>,
    actions: Option<Seq<u8>>,
) -> Seq<
    Rec,
> {
    let rs = Seq::<Rec>::empty().push((chain_tag::DOCUMENTS, documents));
    let rs = tlv::with_opt(rs, chain_tag::LEASE_VERIFY_KEY, key);
    tlv::with_opt(rs, chain_tag::ACTION_GRANT, grant_field(actions))
}

/// The bytes of an answer that carries a chain.
pub open spec fn chain_reply_bytes(
    documents: Seq<u8>,
    key: Option<Seq<u8>>,
    actions: Option<Seq<u8>>,
) -> Result<Seq<u8>, FormatError> {
    match chain_fault(documents) {
        Some(e) => Err(e),
        None => tlv::sealed(chain_recs(documents, key, actions)),
    }
}

/// The chain that an answer carries.
pub open spec fn chain_reply_of(body: Seq<u8>) -> Result<
    (Seq<u8>, Option<Seq<u8>>, Option<Seq<u8>>),
    FormatError,
> {
    match tlv::read(ChainSchema, body) {
        Err(e) => Err(e),
        Ok(rs) => match tlv::lookup(rs, chain_tag::DOCUMENTS) {
            None => Err(FormatError::MissingField { tag: chain_tag::DOCUMENTS }),
            Some(ds) => Ok(
                (
                    ds,
                    tlv::lookup(rs, chain_tag::LEASE_VERIFY_KEY),
                    tlv::lookup(rs, chain_tag::ACTION_GRANT),
                ),
            ),
        },
    }
}

/// An answer that carries a chain survives being written and read back.
pub proof fn chain_reply_round_trip(
    documents: Seq<u8>,
    key: Option<Seq<u8>>,
    actions: Option<Seq<u8>>,
)
    requires
        key is Some ==> key->0.len() == 32,
        chain_reply_bytes(documents, key, actions) is Ok,
    ensures
        chain_reply_of(chain_reply_bytes(documents, key, actions)->Ok_0) == Ok::<
            (Seq<u8>, Option<Seq<u8>>, Option<Seq<u8>>),
            FormatError,
        >((documents, key, grant_field(actions))),
{
    broadcast use tlv::group_records;

    tlv::read_wire(ChainSchema, chain_recs(documents, key, actions));
}

/// An optional field that is not known changes nothing in the reply that is read.
pub proof fn chain_reply_reads_past_unknown_fields(body: Seq<u8>)
    requires
        chain_reply_of(body) is Ok,
    ensures
        chain_reply_of(
            unknown::without_unknown(
                body,
                set![chain_tag::LEASE_VERIFY_KEY, chain_tag::ACTION_GRANT],
            ),
        ) == chain_reply_of(body),
{
    unknown::unknown_records_are_skipped(
        ChainSchema,
        body,
        set![chain_tag::LEASE_VERIFY_KEY, chain_tag::ACTION_GRANT],
    );
}

/// The optional fields stand behind the documents: an answer begins with the bytes
/// that it has without them.
pub proof fn chain_reply_begins_alike(
    documents: Seq<u8>,
    key: Option<Seq<u8>>,
    actions: Option<Seq<u8>>,
)
    requires
        chain_reply_bytes(documents, key, actions) is Ok,
    ensures
        chain_reply_bytes(documents, None, None) is Ok,
        chain_reply_bytes(documents, None, None)->Ok_0.is_prefix_of(
            chain_reply_bytes(documents, key, actions)->Ok_0,
        ),
{
    broadcast use {tlv::group_records, tlv::wire_push};

    let rs = chain_recs(documents, None, None);
    let one = tlv::with_opt(rs, chain_tag::LEASE_VERIFY_KEY, key);
    assert(tlv::wire(rs).is_prefix_of(tlv::wire(one)));
    assert(tlv::wire(one).is_prefix_of(tlv::wire(chain_recs(documents, key, actions))));
}

/// Write an answer that carries a chain.
fn encode_chain_reply(
    documents: &[u8],
    key: &Option<[u8; 32]>,
    actions: &Option<Vec<u8>>,
) -> (r: Result<Vec<u8>, FormatError>)
    ensures
        tlv::agrees(
            r,
            chain_reply_bytes(documents@, bytes::opt_array(*key), bytes::opt_bytes(*actions)),
        ),
{
    broadcast use tlv::group_records;

    refuse(check_chain(documents))?;
    let mut w = TlvWriter::new();
    w.put(chain_tag::DOCUMENTS, documents)?;
    if let Some(key) = key {
        w.put(chain_tag::LEASE_VERIFY_KEY, key.as_slice())?;
    }
    if let Some(bytes) = actions {
        if bytes.len() > 0 {
            w.put(chain_tag::ACTION_GRANT, bytes.as_slice())?;
        }
    }
    Ok(w.finish())
}

/// Read an answer that carries a chain.
fn decode_chain_reply(body: &[u8]) -> (r: Result<
    (Vec<u8>, Option<[u8; 32]>, Option<Vec<u8>>),
    FormatError,
>)
    ensures
        match r {
            Ok((ds, key, actions)) => chain_reply_of(body@) == Ok::<
                (Seq<u8>, Option<Seq<u8>>, Option<Seq<u8>>),
                FormatError,
            >((ds@, bytes::opt_array(key), bytes::opt_bytes(actions))),
            Err(e) => chain_reply_of(body@) == Err::<
                (Seq<u8>, Option<Seq<u8>>, Option<Seq<u8>>),
                FormatError,
            >(e),
        },
{
    let fs = read_fields(&ChainSchema, body)?;
    let documents = owned(need(&fs, chain_tag::DOCUMENTS)?);
    let key = match find(&fs, chain_tag::LEASE_VERIFY_KEY) {
        Some(v) => Some(array(v)),
        None => None,
    };
    let actions = match find(&fs, chain_tag::ACTION_GRANT) {
        Some(v) => Some(owned(v)),
        None => None,
    };
    Ok((documents, key, actions))
}

/// The kinds of request that carry the code of their session.
pub open spec fn session_sealed(kind: u8) -> bool {
    ||| kind == KIND_ACTIVATE
    ||| kind == KIND_RENEW
    ||| kind == KIND_ATTEST_OPEN
    ||| kind == KIND_ATTEST_EVIDENCE
    ||| kind == KIND_ATTEST_SECRET
}

/// Whether a kind of request carries the code of its session.
pub fn is_session_sealed(kind: u8) -> (r: bool)
    ensures
        r == session_sealed(kind),
{
    kind == KIND_ACTIVATE || kind == KIND_RENEW || kind == KIND_ATTEST_OPEN || kind
        == KIND_ATTEST_EVIDENCE || kind == KIND_ATTEST_SECRET
}

/// Part a sealed request from the code behind it; nothing may be left of neither.
pub fn split_request_mac<'a>(framed: &'a [u8]) -> (r: Result<(&'a [u8], [u8; 32]), FormatError>)
    ensures
        match r {
            Ok((body, mac)) => body@.len() > 0 && mac@.len() == REQUEST_MAC_LEN && framed@ == body@
                + mac@,
            Err(e) => framed@.len() <= REQUEST_MAC_LEN && e == (FormatError::Truncated {
                need: 33,
                have: framed@.len() as u64,
            }),
        },
{
    if framed.len() <= REQUEST_MAC_LEN {
        return Err(FormatError::Truncated { need: 33, have: framed.len() as u64 });
    }
    let at: usize = framed.len() - REQUEST_MAC_LEN;
    let body = part(framed, 0, at);
    let mac = array(part(framed, at, framed.len()));
    assert(framed@ =~= body@ + mac@);
    Ok((body, mac))
}

/// Where the decision on a request is collected.
#[derive(Debug, Clone, Copy, PartialEq, Eq)]
pub struct CollectReq {
    pub file_id: [u8; 16],
    pub device_fpr: [u8; 32],
}

fn encode_collect(c: &CollectReq) -> (r: Vec<u8>)
    ensures
        r@ == c.file_id@ + c.device_fpr@,
{
    let mut out = owned(c.file_id.as_slice());
    append(&mut out, c.device_fpr.as_slice());
    out
}

fn decode_collect(body: &[u8]) -> (r: Result<CollectReq, FormatError>)
    ensures
        match r {
            Ok(c) => exact_of(body@, 48) is Ok && c.file_id@ == body@.subrange(0, 16)
                && c.device_fpr@ == body@.subrange(16, 48),
            Err(e) => exact_of(body@, 48) == Err::<Seq<u8>, FormatError>(e),
        },
{
    let b = exact_body(body, 48)?;
    Ok(CollectReq { file_id: array(part(b, 0, 16)), device_fpr: array(part(b, 16, 48)) })
}

fn encode_view_request(since: u64, upto: u64) -> (r: Vec<u8>)
    ensures
        r@ == view_request_bytes(since, upto),
{
    let mut out = write64(since);
    append(&mut out, write64(upto).as_slice());
    out
}

fn decode_view_request(body: &[u8]) -> (r: Result<(u64, u64), FormatError>)
    ensures
        match r {
            Ok((since, upto)) => exact_of(body@, 16) is Ok
                && since == bytes::num64(body@.subrange(0, 8))
                && upto == bytes::num64(body@.subrange(8, 16)),
            Err(e) => exact_of(body@, 16) == Err::<Seq<u8>, FormatError>(e),
        },
{
    let b = exact_body(body, 16)?;
    Ok((read64(part(b, 0, 8)), read64(part(b, 8, 16))))
}

fn encode_records_request(from: u64, count: u32) -> (r: Vec<u8>)
    ensures
        r@ == bytes::le64(from) + bytes::le32(count),
{
    let mut out = write64(from);
    append(&mut out, write32(count).as_slice());
    out
}

fn decode_records_request(body: &[u8]) -> (r: Result<(u64, u32), FormatError>)
    ensures
        match r {
            Ok(x) => records_request_of(body@) == Ok::<(u64, u32), FormatError>(x),
            Err(e) => records_request_of(body@) == Err::<(u64, u32), FormatError>(e),
        },
{
    if body.len() != 12 {
        return Err(bad(0, body.len()));
    }
    let count: u32 = read32(part(body, 8, 12));
    if count == 0 || count > MAX_PAGE {
        return Err(bad(0, body.len()));
    }
    Ok((read64(part(body, 0, 8)), count))
}

fn encode_watch_author(since: u64, evidence: &[u8]) -> (r: Result<Vec<u8>, FormatError>)
    ensures
        tlv::agrees(r, watch_author_bytes(since, evidence@)),
{
    if evidence.len() <= SIGNATURE_LEN || evidence.len() > MAX_DOCUMENT {
        return Err(bad(0, evidence.len()));
    }
    let mut out = write64(since);
    append(&mut out, evidence);
    Ok(out)
}

fn decode_watch_author(body: &[u8]) -> (r: Result<(u64, Vec<u8>), FormatError>)
    ensures
        match r {
            Ok((since, evidence)) => watch_author_of(body@) == Ok::<(u64, Seq<u8>), FormatError>(
                (since, evidence@),
            ),
            Err(e) => watch_author_of(body@) == Err::<(u64, Seq<u8>), FormatError>(e),
        },
{
    if body.len() < 8 {
        return Err(bad(0, body.len()));
    }
    let evidence = part(body, 8, body.len());
    assert(evidence@ =~= body@.skip(8));
    if evidence.len() <= SIGNATURE_LEN || evidence.len() > MAX_DOCUMENT {
        return Err(bad(0, evidence.len()));
    }
    let head = part(body, 0, 8);
    assert(head@ =~= body@.take(8));
    Ok((read64(head), owned(evidence)))
}

fn encode_endorse(signer: &[u8; 32], order: &[u8]) -> (r: Result<Vec<u8>, FormatError>)
    ensures
        tlv::agrees(r, endorse_bytes(signer@, order@)),
{
    let order = opaque(order)?;
    let mut out = owned(signer.as_slice());
    append(&mut out, order.as_slice());
    Ok(out)
}

fn decode_endorse(body: &[u8]) -> (r: Result<([u8; 32], Vec<u8>), FormatError>)
    ensures
        match r {
            Ok((signer, order)) => endorse_of(body@) == Ok::<(Seq<u8>, Seq<u8>), FormatError>(
                (signer@, order@),
            ),
            Err(e) => endorse_of(body@) == Err::<(Seq<u8>, Seq<u8>), FormatError>(e),
        },
{
    if body.len() < 32 {
        return Err(bad(0, body.len()));
    }
    let rest = part(body, 32, body.len());
    assert(rest@ =~= body@.skip(32));
    let order = opaque(rest)?;
    let head = part(body, 0, 32);
    assert(head@ =~= body@.take(32));
    Ok((array(head), order))
}

fn encode_report(seq: u64, ok: bool, digest: &[u8; 32]) -> (r: Vec<u8>)
    ensures
        r@ == report_bytes(seq, ok, digest@),
{
    let mut out = write64(seq);
    append(&mut out, flag_byte(ok).as_slice());
    append(&mut out, digest.as_slice());
    out
}

fn decode_report(body: &[u8]) -> (r: Result<(u64, bool, [u8; 32]), FormatError>)
    ensures
        match r {
            Ok((seq, ok, digest)) => report_of(body@) == Ok::<(u64, bool, Seq<u8>), FormatError>(
                (seq, ok, digest@),
            ),
            Err(e) => report_of(body@) == Err::<(u64, bool, Seq<u8>), FormatError>(e),
        },
{
    if body.len() != 41 || body[8] > 1 {
        return Err(bad(0, body.len()));
    }
    Ok((read64(part(body, 0, 8)), body[8] == 1, array(part(body, 9, 41))))
}

fn encode_refusal(why: &str) -> (r: Result<Vec<u8>, FormatError>)
    ensures
        match refusal_fault(why@) {
            Some(e) => r == Err::<Vec<u8>, FormatError>(e),
            None => r is Ok && r->Ok_0@ == encode_utf8(why@),
        },
{
    refuse(check_refusal(why))?;
    Ok(owned(why.as_bytes()))
}

fn decode_refusal(body: &[u8]) -> (r: Result<String, FormatError>)
    ensures
        tlv::agrees(r, refusal_of(body@)),
{
    let why = match text_of(body) {
        Some(s) => s,
        None => {
            return Err(FormatError::NotUtf8 { tag: 0 });
        },
    };
    refuse(check_refusal(why.as_str()))?;
    Ok(why)
}

/// Two bytes.
fn two(a: u8, b: u8) -> (r: Vec<u8>)
    ensures
        r@ == seq![a, b],
{
    let mut r: Vec<u8> = Vec::new();
    r.push(a);
    r.push(b);
    assert(r@ =~= seq![a, b]);
    r
}

/// The credential that a body is.
pub open spec fn credential_of(body: Seq<u8>) -> Result<Seq<u8>, FormatError> {
    if attestation::credential_ok(body) {
        Ok(body)
    } else {
        Err(FormatError::BadFieldLength { tag: 0, len: body.len() as usize })
    }
}

fn credential(body: &[u8]) -> (r: Result<Vec<u8>, FormatError>)
    ensures
        tlv::agrees(r, credential_of(body@)),
{
    check_credential(body)?;
    Ok(owned(body))
}

/// The bases that a verdict can rest on.
pub open spec fn basis_known(b: u8) -> bool {
    b == crate::attestation::basis::VENDOR_CERTIFICATE || b
        == crate::attestation::basis::ENROLLED_EK
}

fn is_known_basis(b: u8) -> (r: bool)
    ensures
        r == basis_known(b),
{
    b == crate::attestation::basis::VENDOR_CERTIFICATE || b
        == crate::attestation::basis::ENROLLED_EK
}

/// A message of the device, the author or another server.
#[derive(Debug, Clone, PartialEq, Eq)]
pub enum Request {
    /// The first message of a device.
    Hello(Hello),
    /// The answer to the challenge.
    Prove(Proof),
    /// Activate a file.
    Activate(Box<ActivateReq>),
    /// Ask the author for access.
    Ask(Box<AskAccess>),
    /// Show the queue of a file.
    Requests { file_id: [u8; 16] },
    /// Collect the decision on a request.
    Collect(CollectReq),
    /// Watch files.
    Watch { files: Vec<[u8; 16]>, since: u64 },
    /// Watch all files of an author, who proves to be one by a signed document.
    WatchAuthor { since: u64, evidence: Vec<u8> },
    /// Ask whether a file is revoked.
    Revocation { file_id: [u8; 16] },
    /// Renew the lease of a file.
    Renew(Box<ActivateReq>),
    /// Register a file by its header and a signed order.
    Register { header: Vec<u8>, order: Vec<u8> },
    /// Revoke a file.
    Revoke { order: Vec<u8> },
    /// A signed decision on a request.
    Decide(Vec<u8>),
    /// A signed order of the author.
    Order(Vec<u8>),
    /// Endorse an order of another.
    Endorse { signer: [u8; 32], order: Vec<u8> },
    /// Ask for the standing of a file.
    Standing { file_id: [u8; 16] },
    /// Ask for a challenge to attest a key with.
    AttestOpen,
    /// The evidence for a key.
    AttestEvidence(Box<Evidence>),
    /// The secret of the credential, opened.
    AttestSecret([u8; SECRET_LEN]),
    /// Register a new edition of a file.
    RegisterEdition(Vec<u8>),
    /// Ask for a view of the journal.
    JournalView { since: u64, upto: u64 },
    /// Ask for a view of the directory.
    DirectoryView { since: u64, upto: u64 },
    /// Look a member of an organisation up.
    DirectoryLookup { tenant: String, name: String, size: u64 },
    /// Ask for a page of the directory.
    DirectoryRecords { from: u64, count: u32 },
    /// A signed intent of the administrators.
    Control(Vec<u8>),
    /// Ask for the binding of the server.
    Binding,
    /// State for a replica.
    ReplicaPush(Vec<u8>),
    /// Store the grant of an agent.
    PutGrant(Vec<u8>),
    /// Store a delegation.
    PutDelegation(Vec<u8>),
    /// Fetch the chain of a holder.
    FetchChain { holder_fpr: [u8; 32] },
    /// Store an action grant.
    PutActionGrant(Vec<u8>),
    /// Ask for an action.
    RequestAction(Vec<u8>),
    /// Report on an action.
    ReportAction { seq: u64, ok: bool, digest: [u8; 32] },
    /// Show the queue of actions of a grant.
    ActionRequests { grant_id: [u8; 16] },
    /// A signed decision on an action.
    DecideAction(Vec<u8>),
}

/// What a message to the server says.
pub enum RequestView {
    Hello(HelloView),
    Prove(ProofView),
    Activate(ActivateView),
    Ask(AskView),
    Requests { file_id: Seq<u8> },
    Collect { file_id: Seq<u8>, device_fpr: Seq<u8> },
    Watch { files: Seq<Seq<u8>>, since: u64 },
    WatchAuthor { since: u64, evidence: Seq<u8> },
    Revocation { file_id: Seq<u8> },
    Renew(ActivateView),
    Register { header: Seq<u8>, order: Seq<u8> },
    Revoke { order: Seq<u8> },
    Decide(Seq<u8>),
    Order(Seq<u8>),
    Endorse { signer: Seq<u8>, order: Seq<u8> },
    Standing { file_id: Seq<u8> },
    AttestOpen,
    AttestEvidence(EvidenceView),
    AttestSecret(Seq<u8>),
    RegisterEdition(Seq<u8>),
    JournalView { since: u64, upto: u64 },
    DirectoryView { since: u64, upto: u64 },
    DirectoryLookup { tenant: Seq<char>, name: Seq<char>, size: u64 },
    DirectoryRecords { from: u64, count: u32 },
    Control(Seq<u8>),
    Binding,
    ReplicaPush(Seq<u8>),
    PutGrant(Seq<u8>),
    PutDelegation(Seq<u8>),
    FetchChain { holder_fpr: Seq<u8> },
    PutActionGrant(Seq<u8>),
    RequestAction(Seq<u8>),
    ReportAction { seq: u64, ok: bool, digest: Seq<u8> },
    ActionRequests { grant_id: Seq<u8> },
    DecideAction(Seq<u8>),
}

impl View for Request {
    type V = RequestView;

    open spec fn view(&self) -> RequestView {
        match self {
            Request::Hello(x) => RequestView::Hello(x@),
            Request::Prove(x) => RequestView::Prove(x@),
            Request::Activate(x) => RequestView::Activate(x@),
            Request::Ask(x) => RequestView::Ask(x@),
            Request::Requests { file_id } => RequestView::Requests { file_id: file_id@ },
            Request::Collect(x) => RequestView::Collect {
                file_id: x.file_id@,
                device_fpr: x.device_fpr@,
            },
            Request::Watch { files, since } => RequestView::Watch {
                files: bytes::arrays(files@),
                since: *since,
            },
            Request::WatchAuthor { since, evidence } => RequestView::WatchAuthor {
                since: *since,
                evidence: evidence@,
            },
            Request::Revocation { file_id } => RequestView::Revocation { file_id: file_id@ },
            Request::Renew(x) => RequestView::Renew(x@),
            Request::Register { header, order } => RequestView::Register {
                header: header@,
                order: order@,
            },
            Request::Revoke { order } => RequestView::Revoke { order: order@ },
            Request::Decide(x) => RequestView::Decide(x@),
            Request::Order(x) => RequestView::Order(x@),
            Request::Endorse { signer, order } => RequestView::Endorse {
                signer: signer@,
                order: order@,
            },
            Request::Standing { file_id } => RequestView::Standing { file_id: file_id@ },
            Request::AttestOpen => RequestView::AttestOpen,
            Request::AttestEvidence(x) => RequestView::AttestEvidence(x@),
            Request::AttestSecret(x) => RequestView::AttestSecret(x@),
            Request::RegisterEdition(x) => RequestView::RegisterEdition(x@),
            Request::JournalView { since, upto } => RequestView::JournalView {
                since: *since,
                upto: *upto,
            },
            Request::DirectoryView { since, upto } => RequestView::DirectoryView {
                since: *since,
                upto: *upto,
            },
            Request::DirectoryLookup { tenant, name, size } => RequestView::DirectoryLookup {
                tenant: tenant@,
                name: name@,
                size: *size,
            },
            Request::DirectoryRecords { from, count } => RequestView::DirectoryRecords {
                from: *from,
                count: *count,
            },
            Request::Control(x) => RequestView::Control(x@),
            Request::Binding => RequestView::Binding,
            Request::ReplicaPush(x) => RequestView::ReplicaPush(x@),
            Request::PutGrant(x) => RequestView::PutGrant(x@),
            Request::PutDelegation(x) => RequestView::PutDelegation(x@),
            Request::FetchChain { holder_fpr } => RequestView::FetchChain {
                holder_fpr: holder_fpr@,
            },
            Request::PutActionGrant(x) => RequestView::PutActionGrant(x@),
            Request::RequestAction(x) => RequestView::RequestAction(x@),
            Request::ReportAction { seq, ok, digest } => RequestView::ReportAction {
                seq: *seq,
                ok: *ok,
                digest: digest@,
            },
            Request::ActionRequests { grant_id } => RequestView::ActionRequests {
                grant_id: grant_id@,
            },
            Request::DecideAction(x) => RequestView::DecideAction(x@),
        }
    }
}

impl RequestView {
    /// The number of its kind.
    pub open spec fn kind(self) -> u8 {
        match self {
            RequestView::Hello(..) => KIND_HELLO,
            RequestView::Prove(..) => KIND_PROVE,
            RequestView::Activate(..) => KIND_ACTIVATE,
            RequestView::Ask(..) => KIND_ASK,
            RequestView::Requests { .. } => KIND_REQUESTS,
            RequestView::Collect { .. } => KIND_COLLECT,
            RequestView::Watch { .. } => KIND_WATCH,
            RequestView::WatchAuthor { .. } => KIND_WATCH_AUTHOR,
            RequestView::Revocation { .. } => KIND_REVOCATION_REQ,
            RequestView::Renew(..) => KIND_RENEW,
            RequestView::Register { .. } => KIND_REGISTER,
            RequestView::Revoke { .. } => KIND_REVOKE,
            RequestView::Decide(..) => KIND_DECIDE,
            RequestView::Order(..) => KIND_ORDER,
            RequestView::Endorse { .. } => KIND_ENDORSE,
            RequestView::Standing { .. } => KIND_STANDING_REQ,
            RequestView::AttestOpen => KIND_ATTEST_OPEN,
            RequestView::AttestEvidence(..) => KIND_ATTEST_EVIDENCE,
            RequestView::AttestSecret(..) => KIND_ATTEST_SECRET,
            RequestView::RegisterEdition(..) => KIND_REGISTER_EDITION,
            RequestView::JournalView { .. } => KIND_JOURNAL_VIEW_REQ,
            RequestView::DirectoryView { .. } => KIND_DIRECTORY_VIEW_REQ,
            RequestView::DirectoryLookup { .. } => KIND_DIRECTORY_LOOKUP_REQ,
            RequestView::DirectoryRecords { .. } => KIND_DIRECTORY_RECORDS_REQ,
            RequestView::Control(..) => KIND_CONTROL,
            RequestView::Binding => KIND_BINDING_REQ,
            RequestView::ReplicaPush(..) => KIND_REPLICA_PUSH,
            RequestView::PutGrant(..) => KIND_PUT_GRANT,
            RequestView::PutDelegation(..) => KIND_PUT_DELEGATION,
            RequestView::FetchChain { .. } => KIND_FETCH_CHAIN,
            RequestView::PutActionGrant(..) => KIND_PUT_ACTION_GRANT,
            RequestView::RequestAction(..) => KIND_REQUEST_ACTION,
            RequestView::ReportAction { .. } => KIND_REPORT_ACTION,
            RequestView::ActionRequests { .. } => KIND_ACTION_REQUESTS,
            RequestView::DecideAction(..) => KIND_DECIDE_ACTION,
        }
    }

    /// Its body.
    pub open spec fn body(self) -> Result<Seq<u8>, FormatError> {
        match self {
            RequestView::Hello(x) => tlv::sealed(x.recs()),
            RequestView::Prove(x) => tlv::sealed(x.recs()),
            RequestView::Activate(x) => req_bytes(x),
            RequestView::Ask(x) => access::ask_bytes(x),
            RequestView::Requests { file_id } => Ok(file_id),
            RequestView::Collect { file_id, device_fpr } => Ok(file_id + device_fpr),
            RequestView::Watch { files, since } => watch_bytes(files, since),
            RequestView::WatchAuthor { since, evidence } => watch_author_bytes(since, evidence),
            RequestView::Revocation { file_id } => Ok(file_id),
            RequestView::Renew(x) => req_bytes(x),
            RequestView::Register { header, order } => register_bytes(header, order),
            RequestView::Revoke { order } => opaque_of(order),
            RequestView::Decide(x) => opaque_of(x),
            RequestView::Order(x) => opaque_of(x),
            RequestView::Endorse { signer, order } => endorse_bytes(signer, order),
            RequestView::Standing { file_id } => Ok(file_id),
            RequestView::AttestOpen => Ok(Seq::empty()),
            RequestView::AttestEvidence(x) => attestation::evidence_bytes(x),
            RequestView::AttestSecret(x) => Ok(x),
            RequestView::RegisterEdition(x) => opaque_of(x),
            RequestView::JournalView { since, upto } => Ok(view_request_bytes(since, upto)),
            RequestView::DirectoryView { since, upto } => Ok(view_request_bytes(since, upto)),
            RequestView::DirectoryLookup {
                tenant,
                name,
                size,
            } => directory::lookup_request_bytes(tenant, name, size),
            RequestView::DirectoryRecords { from, count } => Ok(
                bytes::le64(from) + bytes::le32(count),
            ),
            RequestView::Control(x) => opaque_of(x),
            RequestView::Binding => Ok(Seq::empty()),
            RequestView::ReplicaPush(x) => opaque_of(x),
            RequestView::PutGrant(x) => opaque_of(x),
            RequestView::PutDelegation(x) => opaque_of(x),
            RequestView::FetchChain { holder_fpr } => Ok(holder_fpr),
            RequestView::PutActionGrant(x) => opaque_of(x),
            RequestView::RequestAction(x) => opaque_of(x),
            RequestView::ReportAction { seq, ok, digest } => Ok(report_bytes(seq, ok, digest)),
            RequestView::ActionRequests { grant_id } => Ok(grant_id),
            RequestView::DecideAction(x) => opaque_of(x),
        }
    }

    /// The fields of fixed length have it.
    pub open spec fn sized(self) -> bool {
        match self {
            RequestView::Hello(x) => x.sized(),
            RequestView::Activate(x) => x.sized(),
            RequestView::Ask(x) => x.sized(),
            RequestView::Requests { file_id } => file_id.len() == 16,
            RequestView::Collect { file_id, device_fpr } => file_id.len() == 16
                && device_fpr.len() == 32,
            RequestView::Watch { files, since } => bytes::all_sized(files, 16),
            RequestView::Revocation { file_id } => file_id.len() == 16,
            RequestView::Renew(x) => x.sized(),
            RequestView::Endorse { signer, order } => signer.len() == 32,
            RequestView::Standing { file_id } => file_id.len() == 16,
            RequestView::AttestSecret(x) => x.len() == SECRET_LEN,
            RequestView::FetchChain { holder_fpr } => holder_fpr.len() == 32,
            RequestView::ReportAction { seq, ok, digest } => digest.len() == 32,
            RequestView::ActionRequests { grant_id } => grant_id.len() == 16,
            _ => true,
        }
    }

    /// What the writer lets pass and the reader does not is ruled out.
    pub open spec fn readable(self) -> bool {
        match self {
            RequestView::Hello(x) => x.readable(),
            RequestView::Prove(x) => x.echo.len() == 32,
            RequestView::Activate(x) => x.device_public.len() > 0
                && req_bytes(x)->Ok_0.len() <= MAX_DOCUMENT,
            RequestView::Renew(x) => x.device_public.len() > 0
                && req_bytes(x)->Ok_0.len() <= MAX_DOCUMENT,
            RequestView::DirectoryRecords { from, count } => 0 < count <= MAX_PAGE,
            _ => true,
        }
    }
}

/// The bytes of a request: its kind, then its body.
pub open spec fn request_bytes(v: RequestView) -> Result<Seq<u8>, FormatError> {
    match v.body() {
        Err(e) => Err(e),
        Ok(body) => Ok(message(v.kind(), body)),
    }
}

/// What a body of a kind says.
pub open spec fn request_in(kind: u8, body: Seq<u8>) -> Result<RequestView, FormatError> {
    if kind == KIND_HELLO {
        match hello_of(body) {
            Ok(x) => Ok(RequestView::Hello(x)),
            Err(e) => Err(e),
        }
    } else if kind == KIND_PROVE {
        match proof_of(body) {
            Ok(x) => Ok(RequestView::Prove(x)),
            Err(e) => Err(e),
        }
    } else if kind == KIND_ACTIVATE {
        match req_of(body) {
            Ok(x) => Ok(RequestView::Activate(x)),
            Err(e) => Err(e),
        }
    } else if kind == KIND_ASK {
        match access::ask_of(body) {
            Ok(x) => Ok(RequestView::Ask(x)),
            Err(e) => Err(e),
        }
    } else if kind == KIND_REQUESTS {
        match exact_of(body, 16) {
            Ok(x) => Ok(RequestView::Requests { file_id: x }),
            Err(e) => Err(e),
        }
    } else if kind == KIND_COLLECT {
        match exact_of(body, 48) {
            Ok(x) => Ok(
                RequestView::Collect {
                    file_id: x.subrange(0, 16),
                    device_fpr: x.subrange(16, 48),
                },
            ),
            Err(e) => Err(e),
        }
    } else if kind == KIND_WATCH {
        match watch_of(body) {
            Ok(x) => Ok(RequestView::Watch { files: x.0, since: x.1 }),
            Err(e) => Err(e),
        }
    } else if kind == KIND_WATCH_AUTHOR {
        match watch_author_of(body) {
            Ok(x) => Ok(RequestView::WatchAuthor { since: x.0, evidence: x.1 }),
            Err(e) => Err(e),
        }
    } else if kind == KIND_REVOCATION_REQ {
        match exact_of(body, 16) {
            Ok(x) => Ok(RequestView::Revocation { file_id: x }),
            Err(e) => Err(e),
        }
    } else if kind == KIND_RENEW {
        match req_of(body) {
            Ok(x) => Ok(RequestView::Renew(x)),
            Err(e) => Err(e),
        }
    } else if kind == KIND_REGISTER {
        match register_of(body) {
            Ok(x) => Ok(RequestView::Register { header: x.0, order: x.1 }),
            Err(e) => Err(e),
        }
    } else if kind == KIND_REVOKE {
        match opaque_of(body) {
            Ok(x) => Ok(RequestView::Revoke { order: x }),
            Err(e) => Err(e),
        }
    } else if kind == KIND_DECIDE {
        match opaque_of(body) {
            Ok(x) => Ok(RequestView::Decide(x)),
            Err(e) => Err(e),
        }
    } else if kind == KIND_ORDER {
        match opaque_of(body) {
            Ok(x) => Ok(RequestView::Order(x)),
            Err(e) => Err(e),
        }
    } else if kind == KIND_ENDORSE {
        match endorse_of(body) {
            Ok(x) => Ok(RequestView::Endorse { signer: x.0, order: x.1 }),
            Err(e) => Err(e),
        }
    } else if kind == KIND_STANDING_REQ {
        match exact_of(body, 16) {
            Ok(x) => Ok(RequestView::Standing { file_id: x }),
            Err(e) => Err(e),
        }
    } else if kind == KIND_ATTEST_OPEN {
        match exact_of(body, 0) {
            Ok(_) => Ok(RequestView::AttestOpen),
            Err(e) => Err(e),
        }
    } else if kind == KIND_ATTEST_EVIDENCE {
        match attestation::evidence_of(body) {
            Ok(x) => Ok(RequestView::AttestEvidence(x)),
            Err(e) => Err(e),
        }
    } else if kind == KIND_ATTEST_SECRET {
        match exact_of(body, SECRET_LEN as nat) {
            Ok(x) => Ok(RequestView::AttestSecret(x)),
            Err(e) => Err(e),
        }
    } else if kind == KIND_REGISTER_EDITION {
        match opaque_of(body) {
            Ok(x) => Ok(RequestView::RegisterEdition(x)),
            Err(e) => Err(e),
        }
    } else if kind == KIND_JOURNAL_VIEW_REQ {
        match exact_of(body, 16) {
            Ok(x) => Ok(
                RequestView::JournalView {
                    since: bytes::num64(x.subrange(0, 8)),
                    upto: bytes::num64(x.subrange(8, 16)),
                },
            ),
            Err(e) => Err(e),
        }
    } else if kind == KIND_DIRECTORY_VIEW_REQ {
        match exact_of(body, 16) {
            Ok(x) => Ok(
                RequestView::DirectoryView {
                    since: bytes::num64(x.subrange(0, 8)),
                    upto: bytes::num64(x.subrange(8, 16)),
                },
            ),
            Err(e) => Err(e),
        }
    } else if kind == KIND_DIRECTORY_LOOKUP_REQ {
        match directory::lookup_request_of(body) {
            Ok(x) => Ok(
                RequestView::DirectoryLookup { tenant: x.0, name: x.1, size: x.2 },
            ),
            Err(e) => Err(e),
        }
    } else if kind == KIND_DIRECTORY_RECORDS_REQ {
        match records_request_of(body) {
            Ok(x) => Ok(RequestView::DirectoryRecords { from: x.0, count: x.1 }),
            Err(e) => Err(e),
        }
    } else if kind == KIND_CONTROL {
        match opaque_of(body) {
            Ok(x) => Ok(RequestView::Control(x)),
            Err(e) => Err(e),
        }
    } else if kind == KIND_BINDING_REQ {
        match exact_of(body, 0) {
            Ok(_) => Ok(RequestView::Binding),
            Err(e) => Err(e),
        }
    } else if kind == KIND_REPLICA_PUSH {
        match opaque_of(body) {
            Ok(x) => Ok(RequestView::ReplicaPush(x)),
            Err(e) => Err(e),
        }
    } else if kind == KIND_PUT_GRANT {
        match opaque_of(body) {
            Ok(x) => Ok(RequestView::PutGrant(x)),
            Err(e) => Err(e),
        }
    } else if kind == KIND_PUT_DELEGATION {
        match opaque_of(body) {
            Ok(x) => Ok(RequestView::PutDelegation(x)),
            Err(e) => Err(e),
        }
    } else if kind == KIND_FETCH_CHAIN {
        match exact_of(body, 32) {
            Ok(x) => Ok(RequestView::FetchChain { holder_fpr: x }),
            Err(e) => Err(e),
        }
    } else if kind == KIND_PUT_ACTION_GRANT {
        match opaque_of(body) {
            Ok(x) => Ok(RequestView::PutActionGrant(x)),
            Err(e) => Err(e),
        }
    } else if kind == KIND_REQUEST_ACTION {
        match opaque_of(body) {
            Ok(x) => Ok(RequestView::RequestAction(x)),
            Err(e) => Err(e),
        }
    } else if kind == KIND_REPORT_ACTION {
        match report_of(body) {
            Ok(x) => Ok(RequestView::ReportAction { seq: x.0, ok: x.1, digest: x.2 }),
            Err(e) => Err(e),
        }
    } else if kind == KIND_ACTION_REQUESTS {
        match exact_of(body, 16) {
            Ok(x) => Ok(RequestView::ActionRequests { grant_id: x }),
            Err(e) => Err(e),
        }
    } else if kind == KIND_DECIDE_ACTION {
        match opaque_of(body) {
            Ok(x) => Ok(RequestView::DecideAction(x)),
            Err(e) => Err(e),
        }
    } else {
        Err(FormatError::UnknownCriticalField { tag: kind as u16 })
    }
}

/// What the bytes of a request say.
pub open spec fn request_of(b: Seq<u8>) -> Result<RequestView, FormatError> {
    match kind_of(b) {
        Err(e) => Err(e),
        Ok((kind, body)) => request_in(kind, body),
    }
}

/// A request survives being written and read back.
pub proof fn request_round_trip(v: RequestView)
    requires
        v.sized(),
        v.readable(),
        request_bytes(v) is Ok,
    ensures
        request_of(request_bytes(v)->Ok_0) == Ok::<RequestView, FormatError>(v),
{
    broadcast use {
        bytes::group_numbers,
        kind_of_message,
        encode_utf8_decode_utf8,
        encode_utf8_valid_utf8,
    };

    match v {
        RequestView::Hello(x) => {
            hello_round_trip(x);
        },
        RequestView::Prove(x) => {
            proof_round_trip(x);
        },
        RequestView::Activate(x) => {
            req_round_trip(x);
        },
        RequestView::Ask(x) => {
            access::ask_round_trip(x);
        },
        RequestView::Collect { file_id, device_fpr } => {
            let b = file_id + device_fpr;
            assert(b.subrange(0, 16) =~= file_id);
            assert(b.subrange(16, 48) =~= device_fpr);
        },
        RequestView::Watch { files, since } => {
            watch_round_trip(files, since);
        },
        RequestView::WatchAuthor { since, evidence } => {
            let b = bytes::le64(since) + evidence;
            assert(b.take(8) =~= bytes::le64(since));
            assert(b.skip(8) =~= evidence);
        },
        RequestView::Renew(x) => {
            req_round_trip(x);
        },
        RequestView::Register { header, order } => {
            register_round_trip(header, order);
        },
        RequestView::Endorse { signer, order } => {
            let b = signer + order;
            assert(b.take(32) =~= signer);
            assert(b.skip(32) =~= order);
        },
        RequestView::AttestEvidence(x) => {
            attestation::evidence_round_trip(x);
        },
        RequestView::JournalView { since, upto } => {
            let b = view_request_bytes(since, upto);
            assert(b.subrange(0, 8) =~= bytes::le64(since));
            assert(b.subrange(8, 16) =~= bytes::le64(upto));
        },
        RequestView::DirectoryView { since, upto } => {
            let b = view_request_bytes(since, upto);
            assert(b.subrange(0, 8) =~= bytes::le64(since));
            assert(b.subrange(8, 16) =~= bytes::le64(upto));
        },
        RequestView::DirectoryLookup { tenant, name, size } => {
            directory::lookup_request_round_trip(tenant, name, size);
        },
        RequestView::DirectoryRecords { from, count } => {
            let b = bytes::le64(from) + bytes::le32(count);
            assert(b.subrange(0, 8) =~= bytes::le64(from));
            assert(b.subrange(8, 12) =~= bytes::le32(count));
        },
        RequestView::ReportAction { seq, ok, digest } => {
            let b = report_bytes(seq, ok, digest);
            assert(b.subrange(0, 8) =~= bytes::le64(seq));
            assert(b[8] == bytes::flag(ok)[0]);
            assert(b.subrange(9, 41) =~= digest);
        },
        _ => {},
    }
}

/// The number of the kind of a request.
fn kind_of_request(v: &Request) -> (r: u8)
    ensures
        r == v@.kind(),
{
    match v {
        Request::Hello(_) => KIND_HELLO,
        Request::Prove(_) => KIND_PROVE,
        Request::Activate(_) => KIND_ACTIVATE,
        Request::Ask(_) => KIND_ASK,
        Request::Requests { .. } => KIND_REQUESTS,
        Request::Collect(_) => KIND_COLLECT,
        Request::Watch { .. } => KIND_WATCH,
        Request::WatchAuthor { .. } => KIND_WATCH_AUTHOR,
        Request::Revocation { .. } => KIND_REVOCATION_REQ,
        Request::Renew(_) => KIND_RENEW,
        Request::Register { .. } => KIND_REGISTER,
        Request::Revoke { .. } => KIND_REVOKE,
        Request::Decide(_) => KIND_DECIDE,
        Request::Order(_) => KIND_ORDER,
        Request::Endorse { .. } => KIND_ENDORSE,
        Request::Standing { .. } => KIND_STANDING_REQ,
        Request::AttestOpen => KIND_ATTEST_OPEN,
        Request::AttestEvidence(_) => KIND_ATTEST_EVIDENCE,
        Request::AttestSecret(_) => KIND_ATTEST_SECRET,
        Request::RegisterEdition(_) => KIND_REGISTER_EDITION,
        Request::JournalView { .. } => KIND_JOURNAL_VIEW_REQ,
        Request::DirectoryView { .. } => KIND_DIRECTORY_VIEW_REQ,
        Request::DirectoryLookup { .. } => KIND_DIRECTORY_LOOKUP_REQ,
        Request::DirectoryRecords { .. } => KIND_DIRECTORY_RECORDS_REQ,
        Request::Control(_) => KIND_CONTROL,
        Request::Binding => KIND_BINDING_REQ,
        Request::ReplicaPush(_) => KIND_REPLICA_PUSH,
        Request::PutGrant(_) => KIND_PUT_GRANT,
        Request::PutDelegation(_) => KIND_PUT_DELEGATION,
        Request::FetchChain { .. } => KIND_FETCH_CHAIN,
        Request::PutActionGrant(_) => KIND_PUT_ACTION_GRANT,
        Request::RequestAction(_) => KIND_REQUEST_ACTION,
        Request::ReportAction { .. } => KIND_REPORT_ACTION,
        Request::ActionRequests { .. } => KIND_ACTION_REQUESTS,
        Request::DecideAction(_) => KIND_DECIDE_ACTION,
    }
}

/// The body of a request.
fn body_of_request(v: &Request) -> (r: Result<Vec<u8>, FormatError>)
    ensures
        tlv::agrees(r, v@.body()),
{
    match v {
        Request::Hello(x) => encode_hello(x),
        Request::Prove(x) => encode_proof(x),
        Request::Activate(x) => encode_req(x),
        Request::Ask(x) => encode_ask(x),
        Request::Requests { file_id } => Ok(owned(file_id.as_slice())),
        Request::Collect(x) => Ok(encode_collect(x)),
        Request::Watch { files, since } => encode_watch(files, *since),
        Request::WatchAuthor { since, evidence } => encode_watch_author(
            *since,
            evidence.as_slice(),
        ),
        Request::Revocation { file_id } => Ok(owned(file_id.as_slice())),
        Request::Renew(x) => encode_req(x),
        Request::Register { header, order } => encode_register(header.as_slice(), order.as_slice()),
        Request::Revoke { order } => opaque(order.as_slice()),
        Request::Decide(x) => opaque(x.as_slice()),
        Request::Order(x) => opaque(x.as_slice()),
        Request::Endorse { signer, order } => encode_endorse(signer, order.as_slice()),
        Request::Standing { file_id } => Ok(owned(file_id.as_slice())),
        Request::AttestOpen => Ok(Vec::new()),
        Request::AttestEvidence(x) => encode_evidence(x),
        Request::AttestSecret(x) => Ok(owned(x.as_slice())),
        Request::RegisterEdition(x) => opaque(x.as_slice()),
        Request::JournalView { since, upto } => Ok(encode_view_request(*since, *upto)),
        Request::DirectoryView { since, upto } => Ok(encode_view_request(*since, *upto)),
        Request::DirectoryLookup { tenant, name, size } => encode_lookup_request(
            tenant.as_str(),
            name.as_str(),
            *size,
        ),
        Request::DirectoryRecords { from, count } => Ok(encode_records_request(*from, *count)),
        Request::Control(x) => opaque(x.as_slice()),
        Request::Binding => Ok(Vec::new()),
        Request::ReplicaPush(x) => opaque(x.as_slice()),
        Request::PutGrant(x) => opaque(x.as_slice()),
        Request::PutDelegation(x) => opaque(x.as_slice()),
        Request::FetchChain { holder_fpr } => Ok(owned(holder_fpr.as_slice())),
        Request::PutActionGrant(x) => opaque(x.as_slice()),
        Request::RequestAction(x) => opaque(x.as_slice()),
        Request::ReportAction { seq, ok, digest } => Ok(encode_report(*seq, *ok, digest)),
        Request::ActionRequests { grant_id } => Ok(owned(grant_id.as_slice())),
        Request::DecideAction(x) => opaque(x.as_slice()),
    }
}

/// Write a request.
pub fn encode_request(request: &Request) -> (r: Result<Vec<u8>, FormatError>)
    ensures
        tlv::agrees(r, request_bytes(request@)),
{
    let body = body_of_request(request)?;
    Ok(with_kind(kind_of_request(request), body.as_slice()))
}

/// Read a request.
#[verifier::rlimit(60)]
pub fn decode_request(bytes: &[u8]) -> (r: Result<Request, FormatError>)
    ensures
        tlv::agrees(r, request_of(bytes@)),
{
    let (kind, body) = split_kind(bytes)?;
    if kind == KIND_HELLO {
        Ok(Request::Hello(decode_hello(body)?))
    } else if kind == KIND_PROVE {
        Ok(Request::Prove(decode_proof(body)?))
    } else if kind == KIND_ACTIVATE {
        Ok(Request::Activate(Box::new(decode_req(body)?)))
    } else if kind == KIND_ASK {
        Ok(Request::Ask(Box::new(decode_ask(body)?)))
    } else if kind == KIND_REQUESTS {
        Ok(Request::Requests { file_id: array(exact_body(body, 16)?) })
    } else if kind == KIND_COLLECT {
        Ok(Request::Collect(decode_collect(body)?))
    } else if kind == KIND_WATCH {
        let (files, since) = decode_watch(body)?;
        Ok(Request::Watch { files, since })
    } else if kind == KIND_WATCH_AUTHOR {
        let (since, evidence) = decode_watch_author(body)?;
        Ok(Request::WatchAuthor { since, evidence })
    } else if kind == KIND_REVOCATION_REQ {
        Ok(Request::Revocation { file_id: array(exact_body(body, 16)?) })
    } else if kind == KIND_RENEW {
        Ok(Request::Renew(Box::new(decode_req(body)?)))
    } else if kind == KIND_REGISTER {
        let (header, order) = decode_register(body)?;
        Ok(Request::Register { header, order })
    } else if kind == KIND_REVOKE {
        Ok(Request::Revoke { order: opaque(body)? })
    } else if kind == KIND_DECIDE {
        Ok(Request::Decide(opaque(body)?))
    } else if kind == KIND_ORDER {
        Ok(Request::Order(opaque(body)?))
    } else if kind == KIND_ENDORSE {
        let (signer, order) = decode_endorse(body)?;
        Ok(Request::Endorse { signer, order })
    } else if kind == KIND_STANDING_REQ {
        Ok(Request::Standing { file_id: array(exact_body(body, 16)?) })
    } else if kind == KIND_ATTEST_OPEN {
        no_body(body)?;
        Ok(Request::AttestOpen)
    } else if kind == KIND_ATTEST_EVIDENCE {
        Ok(Request::AttestEvidence(Box::new(decode_evidence(body)?)))
    } else if kind == KIND_ATTEST_SECRET {
        Ok(Request::AttestSecret(array(exact_body(body, SECRET_LEN)?)))
    } else if kind == KIND_REGISTER_EDITION {
        Ok(Request::RegisterEdition(opaque(body)?))
    } else if kind == KIND_JOURNAL_VIEW_REQ {
        let (since, upto) = decode_view_request(body)?;
        Ok(Request::JournalView { since, upto })
    } else if kind == KIND_DIRECTORY_VIEW_REQ {
        let (since, upto) = decode_view_request(body)?;
        Ok(Request::DirectoryView { since, upto })
    } else if kind == KIND_DIRECTORY_LOOKUP_REQ {
        let (tenant, name, size) = decode_lookup_request(body)?;
        Ok(Request::DirectoryLookup { tenant, name, size })
    } else if kind == KIND_DIRECTORY_RECORDS_REQ {
        let (from, count) = decode_records_request(body)?;
        Ok(Request::DirectoryRecords { from, count })
    } else if kind == KIND_CONTROL {
        Ok(Request::Control(opaque(body)?))
    } else if kind == KIND_BINDING_REQ {
        no_body(body)?;
        Ok(Request::Binding)
    } else if kind == KIND_REPLICA_PUSH {
        Ok(Request::ReplicaPush(opaque(body)?))
    } else if kind == KIND_PUT_GRANT {
        Ok(Request::PutGrant(opaque(body)?))
    } else if kind == KIND_PUT_DELEGATION {
        Ok(Request::PutDelegation(opaque(body)?))
    } else if kind == KIND_FETCH_CHAIN {
        Ok(Request::FetchChain { holder_fpr: array(exact_body(body, 32)?) })
    } else if kind == KIND_PUT_ACTION_GRANT {
        Ok(Request::PutActionGrant(opaque(body)?))
    } else if kind == KIND_REQUEST_ACTION {
        Ok(Request::RequestAction(opaque(body)?))
    } else if kind == KIND_REPORT_ACTION {
        let (seq, ok, digest) = decode_report(body)?;
        Ok(Request::ReportAction { seq, ok, digest })
    } else if kind == KIND_ACTION_REQUESTS {
        Ok(Request::ActionRequests { grant_id: array(exact_body(body, 16)?) })
    } else if kind == KIND_DECIDE_ACTION {
        Ok(Request::DecideAction(opaque(body)?))
    } else {
        Err(FormatError::UnknownCriticalField { tag: kind as u16 })
    }
}

/// A message of the server.
#[derive(Debug, Clone, PartialEq, Eq)]
pub enum Response {
    /// The challenge to a device.
    Challenge(Challenge),
    /// The device has proven its keys.
    Proven,
    /// The request is granted.
    Granted(Grant),
    /// The request is refused.
    Denied(Deny),
    /// The request for access waits under a number.
    Asked { seq: u64 },
    /// The queue of waiting requests; it may be empty.
    Queue(Vec<u8>),
    /// The signed decision.
    Decided(Vec<u8>),
    /// There is no decision yet.
    Waiting,
    /// Done.
    Accepted,
    /// A notice to who watches.
    Notice(Notice),
    /// The signed revocation of a file.
    Revocation(Vec<u8>),
    /// The file is not revoked.
    NotRevoked,
    /// The signed standing of a file.
    Standing(Vec<u8>),
    /// An order has so many endorsements of those it needs.
    Endorsed { have: u8, need: u8 },
    /// The challenge to attest a key with.
    AttestNonce([u8; SECRET_LEN]),
    /// The credential that the key has to open.
    AttestCredential(Vec<u8>),
    /// The key is attested, and on what basis.
    Attested { basis: u8 },
    /// A view of a log, in the bytes of its own codec.
    LogView(Vec<u8>),
    /// A record of the directory with its proof.
    DirectoryEntry(Box<Lookup>),
    /// A page of the directory.
    DirectoryRecords(Vec<Vec<u8>>),
    /// The signed receipt of a control operation.
    Receipt(Vec<u8>),
    /// The signed binding of the server.
    Binding(Vec<u8>),
    /// The word of a replica.
    ReplicaAck(Vec<u8>),
    /// The document of a chain is stored.
    ChainStored,
    /// The chain of a holder.
    Chain {
        documents: Vec<u8>,
        lease_verify_key: Option<[u8; 32]>,
        action_grant: Option<Vec<u8>>,
    },
    /// The holder has no chain.
    NoChain,
    /// The signed lease for an action.
    ActionGranted(Vec<u8>),
    /// The action waits under a number.
    ActionPending { seq: u64 },
    /// The action is refused, in words.
    ActionRefused { why: String },
    /// The queue of waiting actions; it may be empty.
    ActionQueue(Vec<u8>),
}

/// What a message of the server says.
pub enum ResponseView {
    Challenge(ChallengeView),
    Proven,
    Granted(GrantView),
    Denied(DenyView),
    Asked { seq: u64 },
    Queue(Seq<u8>),
    Decided(Seq<u8>),
    Waiting,
    Accepted,
    Notice(NoticeView),
    Revocation(Seq<u8>),
    NotRevoked,
    Standing(Seq<u8>),
    Endorsed { have: u8, need: u8 },
    AttestNonce(Seq<u8>),
    AttestCredential(Seq<u8>),
    Attested { basis: u8 },
    LogView(Seq<u8>),
    DirectoryEntry(LookupView),
    DirectoryRecords(Seq<Seq<u8>>),
    Receipt(Seq<u8>),
    Binding(Seq<u8>),
    ReplicaAck(Seq<u8>),
    ChainStored,
    Chain {
        documents: Seq<u8>,
        lease_verify_key: Option<Seq<u8>>,
        action_grant: Option<Seq<u8>>,
    },
    NoChain,
    ActionGranted(Seq<u8>),
    ActionPending { seq: u64 },
    ActionRefused { why: Seq<char> },
    ActionQueue(Seq<u8>),
}

impl View for Response {
    type V = ResponseView;

    open spec fn view(&self) -> ResponseView {
        match self {
            Response::Challenge(x) => ResponseView::Challenge(x@),
            Response::Proven => ResponseView::Proven,
            Response::Granted(x) => ResponseView::Granted(x@),
            Response::Denied(x) => ResponseView::Denied(x@),
            Response::Asked { seq } => ResponseView::Asked { seq: *seq },
            Response::Queue(x) => ResponseView::Queue(x@),
            Response::Decided(x) => ResponseView::Decided(x@),
            Response::Waiting => ResponseView::Waiting,
            Response::Accepted => ResponseView::Accepted,
            Response::Notice(x) => ResponseView::Notice(x@),
            Response::Revocation(x) => ResponseView::Revocation(x@),
            Response::NotRevoked => ResponseView::NotRevoked,
            Response::Standing(x) => ResponseView::Standing(x@),
            Response::Endorsed { have, need } => ResponseView::Endorsed {
                have: *have,
                need: *need,
            },
            Response::AttestNonce(x) => ResponseView::AttestNonce(x@),
            Response::AttestCredential(x) => ResponseView::AttestCredential(x@),
            Response::Attested { basis } => ResponseView::Attested { basis: *basis },
            Response::LogView(x) => ResponseView::LogView(x@),
            Response::DirectoryEntry(x) => ResponseView::DirectoryEntry(x@),
            Response::DirectoryRecords(x) => ResponseView::DirectoryRecords(bytes::blobs(x@)),
            Response::Receipt(x) => ResponseView::Receipt(x@),
            Response::Binding(x) => ResponseView::Binding(x@),
            Response::ReplicaAck(x) => ResponseView::ReplicaAck(x@),
            Response::ChainStored => ResponseView::ChainStored,
            Response::Chain { documents, lease_verify_key, action_grant } => ResponseView::Chain {
                documents: documents@,
                lease_verify_key: bytes::opt_array(*lease_verify_key),
                action_grant: bytes::opt_bytes(*action_grant),
            },
            Response::NoChain => ResponseView::NoChain,
            Response::ActionGranted(x) => ResponseView::ActionGranted(x@),
            Response::ActionPending { seq } => ResponseView::ActionPending { seq: *seq },
            Response::ActionRefused { why } => ResponseView::ActionRefused { why: why@ },
            Response::ActionQueue(x) => ResponseView::ActionQueue(x@),
        }
    }
}

impl ResponseView {
    /// The number of its kind.
    pub open spec fn kind(self) -> u8 {
        match self {
            ResponseView::Challenge(..) => KIND_CHALLENGE,
            ResponseView::Proven => KIND_PROVEN,
            ResponseView::Granted(..) => KIND_GRANTED,
            ResponseView::Denied(..) => KIND_DENIED,
            ResponseView::Asked { .. } => KIND_ASKED,
            ResponseView::Queue(..) => KIND_QUEUE,
            ResponseView::Decided(..) => KIND_DECIDED,
            ResponseView::Waiting => KIND_WAITING,
            ResponseView::Accepted => KIND_ACCEPTED,
            ResponseView::Notice(..) => KIND_NOTICE,
            ResponseView::Revocation(..) => KIND_REVOCATION,
            ResponseView::NotRevoked => KIND_NOT_REVOKED,
            ResponseView::Standing(..) => KIND_STANDING,
            ResponseView::Endorsed { .. } => KIND_ENDORSED,
            ResponseView::AttestNonce(..) => KIND_ATTEST_NONCE,
            ResponseView::AttestCredential(..) => KIND_ATTEST_CREDENTIAL,
            ResponseView::Attested { .. } => KIND_ATTESTED,
            ResponseView::LogView(..) => KIND_LOG_VIEW,
            ResponseView::DirectoryEntry(..) => KIND_DIRECTORY_ENTRY,
            ResponseView::DirectoryRecords(..) => KIND_DIRECTORY_RECORDS,
            ResponseView::Receipt(..) => KIND_RECEIPT,
            ResponseView::Binding(..) => KIND_BINDING,
            ResponseView::ReplicaAck(..) => KIND_REPLICA_ACK,
            ResponseView::ChainStored => KIND_CHAIN_STORED,
            ResponseView::Chain { .. } => KIND_CHAIN,
            ResponseView::NoChain => KIND_NO_CHAIN,
            ResponseView::ActionGranted(..) => KIND_ACTION_GRANTED,
            ResponseView::ActionPending { .. } => KIND_ACTION_PENDING,
            ResponseView::ActionRefused { .. } => KIND_ACTION_REFUSED,
            ResponseView::ActionQueue(..) => KIND_ACTION_QUEUE,
        }
    }

    /// Its body.
    pub open spec fn body(self) -> Result<Seq<u8>, FormatError> {
        match self {
            ResponseView::Challenge(x) => challenge_bytes(x),
            ResponseView::Proven => Ok(Seq::empty()),
            ResponseView::Granted(x) => tlv::sealed(x.recs()),
            ResponseView::Denied(x) => tlv::sealed(x.recs()),
            ResponseView::Asked { seq } => Ok(bytes::le64(seq)),
            ResponseView::Queue(x) => Ok(x),
            ResponseView::Decided(x) => opaque_of(x),
            ResponseView::Waiting => Ok(Seq::empty()),
            ResponseView::Accepted => Ok(Seq::empty()),
            ResponseView::Notice(x) => Ok(notice_bytes(x)),
            ResponseView::Revocation(x) => opaque_of(x),
            ResponseView::NotRevoked => Ok(Seq::empty()),
            ResponseView::Standing(x) => opaque_of(x),
            ResponseView::Endorsed { have, need } => Ok(seq![have, need]),
            ResponseView::AttestNonce(x) => Ok(x),
            ResponseView::AttestCredential(x) => credential_of(x),
            ResponseView::Attested { basis } => Ok(seq![basis]),
            ResponseView::LogView(x) => Ok(x),
            ResponseView::DirectoryEntry(x) => directory::lookup_bytes(x),
            ResponseView::DirectoryRecords(x) => directory::page_bytes(x),
            ResponseView::Receipt(x) => opaque_of(x),
            ResponseView::Binding(x) => opaque_of(x),
            ResponseView::ReplicaAck(x) => opaque_of(x),
            ResponseView::ChainStored => Ok(Seq::empty()),
            ResponseView::Chain {
                documents,
                lease_verify_key,
                action_grant,
            } => chain_reply_bytes(documents, lease_verify_key, action_grant),
            ResponseView::NoChain => Ok(Seq::empty()),
            ResponseView::ActionGranted(x) => opaque_of(x),
            ResponseView::ActionPending { seq } => Ok(bytes::le64(seq)),
            ResponseView::ActionRefused { why } => match refusal_fault(why) {
                Some(e) => Err(e),
                None => Ok(encode_utf8(why)),
            },
            ResponseView::ActionQueue(x) => Ok(x),
        }
    }

    /// The fields of fixed length have it.
    pub open spec fn sized(self) -> bool {
        match self {
            ResponseView::Challenge(x) => x.sized(),
            ResponseView::Granted(x) => x.sized(),
            ResponseView::Denied(x) => x.sized(),
            ResponseView::Notice(x) => x.sized(),
            ResponseView::AttestNonce(x) => x.len() == SECRET_LEN,
            ResponseView::DirectoryEntry(x) => x.head.sized() && bytes::all_sized(x.path, 32),
            ResponseView::Chain {
                documents,
                lease_verify_key,
                action_grant,
            } => lease_verify_key is Some
                ==> lease_verify_key->0.len() == 32,
            _ => true,
        }
    }

    /// What the writer lets pass and the reader does not is ruled out.
    pub open spec fn readable(
        self,
        prints: Seq<Option<[u8; 32]>>,
        view: Option<FormatError>,
    ) -> bool {
        match self {
            ResponseView::LogView(..) => view is None,
            ResponseView::Granted(x) => tlv::sealed(x.recs())->Ok_0.len() <= MAX_DOCUMENT,
            ResponseView::Denied(x) => tlv::sealed(x.recs())->Ok_0.len() <= MAX_DOCUMENT,
            ResponseView::Attested { basis } => basis_known(basis),
            ResponseView::DirectoryEntry(x) => x.record.len() > 0,
            ResponseView::DirectoryRecords(x) => (forall|i: int|
                0 <= i < x.len()
                    ==> directory::record_of(
                        #[trigger] x[i],
                        directory::print_at(prints, i as nat),
                    ) is Ok),
            ResponseView::Chain {
                documents,
                lease_verify_key,
                action_grant,
            } => grant_field(action_grant)
                == action_grant,
            _ => true,
        }
    }
}

/// The bytes of a response: its kind, then its body.
pub open spec fn response_bytes(v: ResponseView) -> Result<Seq<u8>, FormatError> {
    match v.body() {
        Err(e) => Err(e),
        Ok(body) => Ok(message(v.kind(), body)),
    }
}

/// What a body of a kind says. `view` is what the codec of views has against a view of a
/// log.
pub open spec fn response_in(
    kind: u8,
    body: Seq<u8>,
    prints: Seq<Option<[u8; 32]>>,
    view: Option<FormatError>,
) -> Result<ResponseView, FormatError> {
    if kind == KIND_CHALLENGE {
        match challenge_of(body) {
            Ok(x) => Ok(ResponseView::Challenge(x)),
            Err(e) => Err(e),
        }
    } else if kind == KIND_PROVEN {
        match exact_of(body, 0) {
            Ok(_) => Ok(ResponseView::Proven),
            Err(e) => Err(e),
        }
    } else if kind == KIND_GRANTED {
        match grant_of(body) {
            Ok(x) => Ok(ResponseView::Granted(x)),
            Err(e) => Err(e),
        }
    } else if kind == KIND_DENIED {
        match deny_of(body) {
            Ok(x) => Ok(ResponseView::Denied(x)),
            Err(e) => Err(e),
        }
    } else if kind == KIND_ASKED {
        match exact_of(body, 8) {
            Ok(x) => Ok(ResponseView::Asked { seq: bytes::num64(x) }),
            Err(e) => Err(e),
        }
    } else if kind == KIND_QUEUE {
        Ok(ResponseView::Queue(body))
    } else if kind == KIND_DECIDED {
        match opaque_of(body) {
            Ok(x) => Ok(ResponseView::Decided(x)),
            Err(e) => Err(e),
        }
    } else if kind == KIND_WAITING {
        match exact_of(body, 0) {
            Ok(_) => Ok(ResponseView::Waiting),
            Err(e) => Err(e),
        }
    } else if kind == KIND_ACCEPTED {
        match exact_of(body, 0) {
            Ok(_) => Ok(ResponseView::Accepted),
            Err(e) => Err(e),
        }
    } else if kind == KIND_NOTICE {
        match notice_of(body) {
            Ok(x) => Ok(ResponseView::Notice(x)),
            Err(e) => Err(e),
        }
    } else if kind == KIND_REVOCATION {
        match opaque_of(body) {
            Ok(x) => Ok(ResponseView::Revocation(x)),
            Err(e) => Err(e),
        }
    } else if kind == KIND_NOT_REVOKED {
        match exact_of(body, 0) {
            Ok(_) => Ok(ResponseView::NotRevoked),
            Err(e) => Err(e),
        }
    } else if kind == KIND_STANDING {
        match opaque_of(body) {
            Ok(x) => Ok(ResponseView::Standing(x)),
            Err(e) => Err(e),
        }
    } else if kind == KIND_ENDORSED {
        match exact_of(body, 2) {
            Ok(x) => Ok(ResponseView::Endorsed { have: x[0], need: x[1] }),
            Err(e) => Err(e),
        }
    } else if kind == KIND_ATTEST_NONCE {
        match exact_of(body, SECRET_LEN as nat) {
            Ok(x) => Ok(ResponseView::AttestNonce(x)),
            Err(e) => Err(e),
        }
    } else if kind == KIND_ATTEST_CREDENTIAL {
        match credential_of(body) {
            Ok(x) => Ok(ResponseView::AttestCredential(x)),
            Err(e) => Err(e),
        }
    } else if kind == KIND_ATTESTED {
        if body.len() == 1 && basis_known(body[0]) {
            Ok(ResponseView::Attested { basis: body[0] })
        } else {
            Err(FormatError::BadFieldLength { tag: 0, len: body.len() as usize })
        }
    } else if kind == KIND_LOG_VIEW {
        match view {
            Some(e) => Err(e),
            None => Ok(ResponseView::LogView(body)),
        }
    } else if kind == KIND_DIRECTORY_ENTRY {
        match directory::lookup_of(body) {
            Ok(x) => Ok(ResponseView::DirectoryEntry(x)),
            Err(e) => Err(e),
        }
    } else if kind == KIND_DIRECTORY_RECORDS {
        match directory::page_behind(body, 0, prints) {
            Ok(x) => Ok(ResponseView::DirectoryRecords(x)),
            Err(e) => Err(e),
        }
    } else if kind == KIND_RECEIPT {
        match opaque_of(body) {
            Ok(x) => Ok(ResponseView::Receipt(x)),
            Err(e) => Err(e),
        }
    } else if kind == KIND_BINDING {
        match opaque_of(body) {
            Ok(x) => Ok(ResponseView::Binding(x)),
            Err(e) => Err(e),
        }
    } else if kind == KIND_REPLICA_ACK {
        match opaque_of(body) {
            Ok(x) => Ok(ResponseView::ReplicaAck(x)),
            Err(e) => Err(e),
        }
    } else if kind == KIND_CHAIN_STORED {
        match exact_of(body, 0) {
            Ok(_) => Ok(ResponseView::ChainStored),
            Err(e) => Err(e),
        }
    } else if kind == KIND_CHAIN {
        match chain_reply_of(body) {
            Ok(x) => Ok(
                ResponseView::Chain {
                    documents: x.0,
                    lease_verify_key: x.1,
                    action_grant: x.2,
                },
            ),
            Err(e) => Err(e),
        }
    } else if kind == KIND_NO_CHAIN {
        match exact_of(body, 0) {
            Ok(_) => Ok(ResponseView::NoChain),
            Err(e) => Err(e),
        }
    } else if kind == KIND_ACTION_GRANTED {
        match opaque_of(body) {
            Ok(x) => Ok(ResponseView::ActionGranted(x)),
            Err(e) => Err(e),
        }
    } else if kind == KIND_ACTION_PENDING {
        match exact_of(body, 8) {
            Ok(x) => Ok(ResponseView::ActionPending { seq: bytes::num64(x) }),
            Err(e) => Err(e),
        }
    } else if kind == KIND_ACTION_REFUSED {
        match refusal_of(body) {
            Ok(x) => Ok(ResponseView::ActionRefused { why: x }),
            Err(e) => Err(e),
        }
    } else if kind == KIND_ACTION_QUEUE {
        Ok(ResponseView::ActionQueue(body))
    } else {
        Err(FormatError::UnknownCriticalField { tag: kind as u16 })
    }
}

/// What the bytes of a response say.
pub open spec fn response_of(
    b: Seq<u8>,
    prints: Seq<Option<[u8; 32]>>,
    view: Option<FormatError>,
) -> Result<ResponseView, FormatError> {
    match kind_of(b) {
        Err(e) => Err(e),
        Ok((kind, body)) => response_in(kind, body, prints, view),
    }
}

/// A response survives being written and read back.
#[verifier::rlimit(60)]
pub proof fn response_round_trip(
    v: ResponseView,
    prints: Seq<Option<[u8; 32]>>,
    view: Option<FormatError>,
)
    requires
        v.sized(),
        v.readable(prints, view),
        response_bytes(v) is Ok,
    ensures
        response_of(response_bytes(v)->Ok_0, prints, view) == Ok::<ResponseView, FormatError>(v),
{
    broadcast use {
        bytes::group_numbers,
        kind_of_message,
        encode_utf8_decode_utf8,
        encode_utf8_valid_utf8,
    };

    match v {
        ResponseView::Challenge(x) => {
            challenge_round_trip(x);
        },
        ResponseView::Granted(x) => {
            grant_round_trip(x);
        },
        ResponseView::Denied(x) => {
            deny_round_trip(x);
        },
        ResponseView::Notice(x) => {
            notice_round_trip(x);
        },
        ResponseView::DirectoryEntry(x) => {
            directory::lookup_round_trip(x);
        },
        ResponseView::DirectoryRecords(x) => {
            directory::page_round_trip(x, prints);
        },
        ResponseView::Chain { documents, lease_verify_key, action_grant } => {
            chain_reply_round_trip(documents, lease_verify_key, action_grant);
        },
        _ => {},
    }
}

/// The number of the kind of a response.
fn kind_of_response(v: &Response) -> (r: u8)
    ensures
        r == v@.kind(),
{
    match v {
        Response::Challenge(_) => KIND_CHALLENGE,
        Response::Proven => KIND_PROVEN,
        Response::Granted(_) => KIND_GRANTED,
        Response::Denied(_) => KIND_DENIED,
        Response::Asked { .. } => KIND_ASKED,
        Response::Queue(_) => KIND_QUEUE,
        Response::Decided(_) => KIND_DECIDED,
        Response::Waiting => KIND_WAITING,
        Response::Accepted => KIND_ACCEPTED,
        Response::Notice(_) => KIND_NOTICE,
        Response::Revocation(_) => KIND_REVOCATION,
        Response::NotRevoked => KIND_NOT_REVOKED,
        Response::Standing(_) => KIND_STANDING,
        Response::Endorsed { .. } => KIND_ENDORSED,
        Response::AttestNonce(_) => KIND_ATTEST_NONCE,
        Response::AttestCredential(_) => KIND_ATTEST_CREDENTIAL,
        Response::Attested { .. } => KIND_ATTESTED,
        Response::LogView(_) => KIND_LOG_VIEW,
        Response::DirectoryEntry(_) => KIND_DIRECTORY_ENTRY,
        Response::DirectoryRecords(_) => KIND_DIRECTORY_RECORDS,
        Response::Receipt(_) => KIND_RECEIPT,
        Response::Binding(_) => KIND_BINDING,
        Response::ReplicaAck(_) => KIND_REPLICA_ACK,
        Response::ChainStored => KIND_CHAIN_STORED,
        Response::Chain { .. } => KIND_CHAIN,
        Response::NoChain => KIND_NO_CHAIN,
        Response::ActionGranted(_) => KIND_ACTION_GRANTED,
        Response::ActionPending { .. } => KIND_ACTION_PENDING,
        Response::ActionRefused { .. } => KIND_ACTION_REFUSED,
        Response::ActionQueue(_) => KIND_ACTION_QUEUE,
    }
}

/// The body of a response.
fn body_of_response(v: &Response) -> (r: Result<Vec<u8>, FormatError>)
    ensures
        tlv::agrees(r, v@.body()),
{
    match v {
        Response::Challenge(x) => encode_challenge(x),
        Response::Proven => Ok(Vec::new()),
        Response::Granted(x) => encode_grant(x),
        Response::Denied(x) => encode_deny(x),
        Response::Asked { seq } => Ok(write64(*seq)),
        Response::Queue(x) => Ok(owned(x.as_slice())),
        Response::Decided(x) => opaque(x.as_slice()),
        Response::Waiting => Ok(Vec::new()),
        Response::Accepted => Ok(Vec::new()),
        Response::Notice(x) => Ok(encode_notice(x)),
        Response::Revocation(x) => opaque(x.as_slice()),
        Response::NotRevoked => Ok(Vec::new()),
        Response::Standing(x) => opaque(x.as_slice()),
        Response::Endorsed { have, need } => Ok(two(*have, *need)),
        Response::AttestNonce(x) => Ok(owned(x.as_slice())),
        Response::AttestCredential(x) => credential(x.as_slice()),
        Response::Attested { basis } => Ok(one(*basis)),
        Response::LogView(x) => Ok(owned(x.as_slice())),
        Response::DirectoryEntry(x) => Lookup::encode(x),
        Response::DirectoryRecords(x) => encode_page(x),
        Response::Receipt(x) => opaque(x.as_slice()),
        Response::Binding(x) => opaque(x.as_slice()),
        Response::ReplicaAck(x) => opaque(x.as_slice()),
        Response::ChainStored => Ok(Vec::new()),
        Response::Chain { documents, lease_verify_key, action_grant } => encode_chain_reply(
            documents.as_slice(),
            lease_verify_key,
            action_grant,
        ),
        Response::NoChain => Ok(Vec::new()),
        Response::ActionGranted(x) => opaque(x.as_slice()),
        Response::ActionPending { seq } => Ok(write64(*seq)),
        Response::ActionRefused { why } => encode_refusal(why.as_str()),
        Response::ActionQueue(x) => Ok(owned(x.as_slice())),
    }
}

/// Write a response.
pub fn encode_response(response: &Response) -> (r: Result<Vec<u8>, FormatError>)
    ensures
        tlv::agrees(r, response_bytes(response@)),
{
    let body = body_of_response(response)?;
    Ok(with_kind(kind_of_response(response), body.as_slice()))
}

/// The view of a log in the bytes of a response that is one: what the codec of views is
/// asked about before the response is read.
pub fn log_view_in(bytes: &[u8]) -> (r: Option<Vec<u8>>)
    ensures
        match r {
            Some(v) => kind_of(bytes@) == Ok::<(u8, Seq<u8>), FormatError>((KIND_LOG_VIEW, v@)),
            None => kind_of(bytes@) is Err || kind_of(bytes@)->Ok_0.0 != KIND_LOG_VIEW,
        },
{
    match split_kind(bytes) {
        Ok((kind, body)) => if kind == KIND_LOG_VIEW {
            Some(owned(body))
        } else {
            None
        },
        Err(_) => None,
    }
}

/// A view of a log is read on receipt: what the codec of views refuses is refused, with
/// its reason, and no other response depends on the codec.
pub proof fn a_view_is_read_on_receipt(
    b: Seq<u8>,
    prints: Seq<Option<[u8; 32]>>,
    view: Option<FormatError>,
)
    requires
        kind_of(b) is Ok,
    ensures
        kind_of(b)->Ok_0.0 == KIND_LOG_VIEW ==> response_of(b, prints, view) == match view {
            Some(e) => Err::<ResponseView, FormatError>(e),
            None => Ok::<ResponseView, FormatError>(ResponseView::LogView(kind_of(b)->Ok_0.1)),
        },
        kind_of(b)->Ok_0.0 != KIND_LOG_VIEW ==> response_of(b, prints, view) == response_of(
            b,
            prints,
            None,
        ),
{
}

/// Read a response. `prints` holds the hashes of the keys in a page of
/// the directory, in their order, where their mechanisms ask for one. `view` is what the
/// codec of views has against a view of a log (see [`log_view_in`]).
#[verifier::rlimit(60)]
pub fn decode_response(
    bytes: &[u8],
    prints: &[Option<[u8; 32]>],
    view: Option<FormatError>,
) -> (r: Result<Response, FormatError>)
    ensures
        tlv::agrees(r, response_of(bytes@, prints@, view)),
{
    let (kind, body) = split_kind(bytes)?;
    if kind == KIND_CHALLENGE {
        Ok(Response::Challenge(decode_challenge(body)?))
    } else if kind == KIND_PROVEN {
        no_body(body)?;
        Ok(Response::Proven)
    } else if kind == KIND_GRANTED {
        Ok(Response::Granted(decode_grant(body)?))
    } else if kind == KIND_DENIED {
        Ok(Response::Denied(decode_deny(body)?))
    } else if kind == KIND_ASKED {
        Ok(Response::Asked { seq: read64(exact_body(body, 8)?) })
    } else if kind == KIND_QUEUE {
        Ok(Response::Queue(owned(body)))
    } else if kind == KIND_DECIDED {
        Ok(Response::Decided(opaque(body)?))
    } else if kind == KIND_WAITING {
        no_body(body)?;
        Ok(Response::Waiting)
    } else if kind == KIND_ACCEPTED {
        no_body(body)?;
        Ok(Response::Accepted)
    } else if kind == KIND_NOTICE {
        Ok(Response::Notice(decode_notice(body)?))
    } else if kind == KIND_REVOCATION {
        Ok(Response::Revocation(opaque(body)?))
    } else if kind == KIND_NOT_REVOKED {
        no_body(body)?;
        Ok(Response::NotRevoked)
    } else if kind == KIND_STANDING {
        Ok(Response::Standing(opaque(body)?))
    } else if kind == KIND_ENDORSED {
        let b = exact_body(body, 2)?;
        Ok(Response::Endorsed { have: b[0], need: b[1] })
    } else if kind == KIND_ATTEST_NONCE {
        Ok(Response::AttestNonce(array(exact_body(body, SECRET_LEN)?)))
    } else if kind == KIND_ATTEST_CREDENTIAL {
        Ok(Response::AttestCredential(credential(body)?))
    } else if kind == KIND_ATTESTED {
        if body.len() != 1 || !is_known_basis(body[0]) {
            return Err(bad(0, body.len()));
        }
        Ok(Response::Attested { basis: body[0] })
    } else if kind == KIND_LOG_VIEW {
        refuse(view)?;
        Ok(Response::LogView(owned(body)))
    } else if kind == KIND_DIRECTORY_ENTRY {
        Ok(Response::DirectoryEntry(Box::new(Lookup::decode(body)?)))
    } else if kind == KIND_DIRECTORY_RECORDS {
        Ok(Response::DirectoryRecords(decode_page(body, prints)?))
    } else if kind == KIND_RECEIPT {
        Ok(Response::Receipt(opaque(body)?))
    } else if kind == KIND_BINDING {
        Ok(Response::Binding(opaque(body)?))
    } else if kind == KIND_REPLICA_ACK {
        Ok(Response::ReplicaAck(opaque(body)?))
    } else if kind == KIND_CHAIN_STORED {
        no_body(body)?;
        Ok(Response::ChainStored)
    } else if kind == KIND_CHAIN {
        let (documents, lease_verify_key, action_grant) = decode_chain_reply(body)?;
        Ok(Response::Chain { documents, lease_verify_key, action_grant })
    } else if kind == KIND_NO_CHAIN {
        no_body(body)?;
        Ok(Response::NoChain)
    } else if kind == KIND_ACTION_GRANTED {
        Ok(Response::ActionGranted(opaque(body)?))
    } else if kind == KIND_ACTION_PENDING {
        Ok(Response::ActionPending { seq: read64(exact_body(body, 8)?) })
    } else if kind == KIND_ACTION_REFUSED {
        Ok(Response::ActionRefused { why: decode_refusal(body)? })
    } else if kind == KIND_ACTION_QUEUE {
        Ok(Response::ActionQueue(owned(body)))
    } else {
        Err(FormatError::UnknownCriticalField { tag: kind as u16 })
    }
}

/// No kind of request is a kind of response: a message cannot be read as both.
pub proof fn requests_are_no_responses(a: RequestView, b: ResponseView)
    ensures
        a.kind() != b.kind(),
{
}

/// The answers that ask for patience, that refuse and that grant have kinds of
/// their own.
pub proof fn waiting_is_no_refusal(d: DenyView, g: GrantView)
    ensures
        ResponseView::Waiting.kind() != ResponseView::Denied(d).kind(),
        ResponseView::Waiting.kind() != ResponseView::Granted(g).kind(),
        ResponseView::Denied(d).kind() != ResponseView::Granted(g).kind(),
{
}

/// The requests that carry the code of their session are those for a lease and the
/// three steps of attestation.
pub proof fn sealed_requests(v: RequestView)
    ensures
        session_sealed(v.kind()) <==> (v is Activate || v is Renew || v is AttestOpen
            || v is AttestEvidence || v is AttestSecret),
{
}

/// A response that the reader accepts reads back as itself. Only a chain with an empty
/// grant of actions does not: the grant is not written.
pub proof fn accepted_response_reads_back(
    v: ResponseView,
    prints: Seq<Option<[u8; 32]>>,
    view: Option<FormatError>,
)
    requires
        v.sized(),
        v matches ResponseView::Chain { action_grant, .. } ==> (action_grant is Some
            ==> action_grant->0.len() > 0),
        response_bytes(v) is Ok,
        response_of(response_bytes(v)->Ok_0, prints, view) is Ok,
    ensures
        response_of(response_bytes(v)->Ok_0, prints, view) == Ok::<ResponseView, FormatError>(v),
{
    accepted_response_is_readable(v, prints, view);
    response_round_trip(v, prints, view);
}

proof fn accepted_response_is_readable(
    v: ResponseView,
    prints: Seq<Option<[u8; 32]>>,
    view: Option<FormatError>,
)
    requires
        v.sized(),
        v matches ResponseView::Chain { action_grant, .. } ==> (action_grant is Some
            ==> action_grant->0.len() > 0),
        response_bytes(v) is Ok,
        response_of(response_bytes(v)->Ok_0, prints, view) is Ok,
    ensures
        v.readable(prints, view),
{
    broadcast use {bytes::group_numbers, kind_of_message};

    match v {
        ResponseView::DirectoryEntry(x) => {
            directory::accepted_lookup_has_a_record(x);
        },
        ResponseView::DirectoryRecords(x) => {
            directory::accepted_page_is_readable(x, prints);
        },
        _ => {},
    }
}

/// Two responses with the same bytes, which the reader accepts, are the same response.
pub proof fn accepted_response_bytes_tell_apart(
    a: ResponseView,
    b: ResponseView,
    prints: Seq<Option<[u8; 32]>>,
    view: Option<FormatError>,
)
    requires
        a.sized() && b.sized(),
        a matches ResponseView::Chain { action_grant, .. } ==> (action_grant is Some
            ==> action_grant->0.len() > 0),
        b matches ResponseView::Chain { action_grant, .. } ==> (action_grant is Some
            ==> action_grant->0.len() > 0),
        response_bytes(a) is Ok,
        response_bytes(a) == response_bytes(b),
        response_of(response_bytes(a)->Ok_0, prints, view) is Ok,
    ensures
        a == b,
{
    accepted_response_reads_back(a, prints, view);
    accepted_response_reads_back(b, prints, view);
}

/// A request that the reader accepts reads back as itself.
pub proof fn accepted_request_reads_back(v: RequestView)
    requires
        v.sized(),
        request_bytes(v) is Ok,
        request_of(request_bytes(v)->Ok_0) is Ok,
    ensures
        request_of(request_bytes(v)->Ok_0) == Ok::<RequestView, FormatError>(v),
{
    accepted_request_is_readable(v);
    request_round_trip(v);
}

proof fn accepted_request_is_readable(v: RequestView)
    requires
        v.sized(),
        request_bytes(v) is Ok,
        request_of(request_bytes(v)->Ok_0) is Ok,
    ensures
        v.readable(),
{
    broadcast use {tlv::group_records, bytes::group_numbers, kind_of_message};

    match v {
        RequestView::Hello(x) => {
            tlv::scan_wire(x.recs());
            assert(tlv::first_fault(HelloSchema, x.recs()) is None);
            assert(hybrid_in(x.recs()) is Ok);
        },
        RequestView::Prove(x) => {
            tlv::scan_wire(x.recs());
            assert(tlv::first_fault(ProofSchema, x.recs()) is None);
        },
        RequestView::Activate(x) => {
            tlv::scan_wire(x.recs());
            assert(tlv::first_fault(ActivateSchema, x.recs()) is None);
        },
        RequestView::Renew(x) => {
            tlv::scan_wire(x.recs());
            assert(tlv::first_fault(ActivateSchema, x.recs()) is None);
        },
        RequestView::DirectoryRecords { from, count } => {
            let b = bytes::le64(from) + bytes::le32(count);
            assert(b.subrange(8, 12) =~= bytes::le32(count));
        },
        _ => {},
    }
}

/// Two first messages with the same bytes are the same message.
pub proof fn hello_bytes_tell_apart(a: HelloView, b: HelloView)
    requires
        tlv::sealed(a.recs()) is Ok,
        tlv::sealed(a.recs()) == tlv::sealed(b.recs()),
    ensures
        a == b,
{
    broadcast use tlv::group_records;

    tlv::scan_wire(a.recs());
    tlv::scan_wire(b.recs());
    let rs = a.recs();
    assert(rs == b.recs());
    assert(tlv::lookup(rs, hello_tag::DEVICE_FPR) == Some(a.device_fpr));
    assert(tlv::lookup(rs, hello_tag::DEVICE_FPR) == Some(b.device_fpr));
    assert(tlv::lookup(rs, hello_tag::DEVICE_PUBLIC) == Some(a.device_public));
    assert(tlv::lookup(rs, hello_tag::DEVICE_PUBLIC) == Some(b.device_public));
    assert(tlv::lookup(rs, hello_tag::DEVICE_TPM) == a.device_tpm);
    assert(tlv::lookup(rs, hello_tag::DEVICE_TPM) == b.device_tpm);
    let kem = tlv::lookup(rs, hello_tag::DEVICE_HYBRID_KEM);
    let public = tlv::lookup(rs, hello_tag::DEVICE_HYBRID_PUBLIC);
    assert(a.device_hybrid is Some <==> kem is Some);
    assert(b.device_hybrid is Some <==> kem is Some);
    if let (Some(x), Some(y)) = (a.device_hybrid, b.device_hybrid) {
        assert(kem->0[0] == x.0 && kem->0[0] == y.0);
        assert(public == Some(x.1) && public == Some(y.1));
    }
}

/// Two requests to activate with the same bytes are the same request.
pub proof fn req_bytes_tell_apart(a: ActivateView, b: ActivateView)
    requires
        a.sized(),
        b.sized(),
        req_bytes(a) is Ok,
        req_bytes(a) == req_bytes(b),
    ensures
        a == b,
{
    broadcast use {tlv::group_records, bytes::group_numbers};

    tlv::scan_wire(a.recs());
    tlv::scan_wire(b.recs());
    let rs = a.recs();
    assert(rs == b.recs());
    slot_round_trip(a.server_slot);
    slot_round_trip(b.server_slot);
    if a.device_clock is Some {
        clock_round_trip(a.device_clock->0);
    }
    if b.device_clock is Some {
        clock_round_trip(b.device_clock->0);
    }
    assert(req_in(rs) == Ok::<ActivateView, FormatError>(a));
    assert(req_in(b.recs()) == Ok::<ActivateView, FormatError>(b));
}

/// Two requests with the same bytes are the same request.
pub proof fn request_bytes_tell_apart(a: RequestView, b: RequestView)
    requires
        a.sized(),
        b.sized(),
        request_bytes(a) is Ok,
        request_bytes(a) == request_bytes(b),
    ensures
        a == b,
{
    broadcast use {tlv::group_records, bytes::group_numbers, kind_of_message};

    if request_of(request_bytes(a)->Ok_0) is Ok {
        accepted_request_reads_back(a);
        accepted_request_reads_back(b);
    } else {
        if a.readable() {
            request_round_trip(a);
        }
        if b.readable() {
            request_round_trip(b);
        }
        assert(kind_of(request_bytes(a)->Ok_0) == Ok::<(u8, Seq<u8>), FormatError>(
            (a.kind(), a.body()->Ok_0),
        ));
        assert(kind_of(request_bytes(b)->Ok_0) == Ok::<(u8, Seq<u8>), FormatError>(
            (b.kind(), b.body()->Ok_0),
        ));
        unreadable_bodies_tell_apart(a, b);
    }
}

proof fn unreadable_bodies_tell_apart(a: RequestView, b: RequestView)
    requires
        a.sized() && !a.readable(),
        b.sized() && !b.readable(),
        a.kind() == b.kind(),
        a.body() is Ok,
        a.body() == b.body(),
    ensures
        a == b,
{
    broadcast use {tlv::group_records, bytes::group_numbers};

    match a {
        RequestView::Hello(x) => {
            hello_bytes_tell_apart(x, b->Hello_0);
        },
        RequestView::Prove(x) => {
            let y = b->Prove_0;
            tlv::scan_wire(x.recs());
            tlv::scan_wire(y.recs());
            assert(tlv::lookup(x.recs(), proof_tag::ECHO) == Some(x.echo));
            assert(tlv::lookup(y.recs(), proof_tag::ECHO) == Some(y.echo));
        },
        RequestView::Activate(x) => {
            req_bytes_tell_apart(x, b->Activate_0);
        },
        RequestView::Renew(x) => {
            req_bytes_tell_apart(x, b->Renew_0);
        },
        RequestView::DirectoryRecords { from, count } => {
            let p = bytes::le64(from) + bytes::le32(count);
            let q = bytes::le64(b->DirectoryRecords_from) + bytes::le32(b->DirectoryRecords_count);
            assert(p.subrange(0, 8) =~= bytes::le64(from));
            assert(p.subrange(8, 12) =~= bytes::le32(count));
            assert(q.subrange(0, 8) =~= bytes::le64(b->DirectoryRecords_from));
            assert(q.subrange(8, 12) =~= bytes::le32(b->DirectoryRecords_count));
        },
        _ => {},
    }
}

} // verus!
