//! Leases: a server's signed permission to open one file on one device.
//!
//! A lease stands apart from the container that the author signed, so it can end, be
//! renewed or be revoked. The body is read only where its signature holds.
//!
//! The policy of a server is carried as the bytes of its own codec; what the codec
//! says of them is told by the caller.

use crate::action::{self, split_signature};
use crate::attestation::basis;
use crate::bytes::{
    self, append, array, one, owned, part, read16, read32, read64, read64s, write16, write32,
    write64, write64s,
};
use crate::error::{bad, missing, FormatError};
use crate::tlv::{
    self, check_length, find, need, read_fields, refuse, value_in, Rec, Schema, TlvWriter,
};
use crate::transcript::{self, Claim, Label, Transcript, TranscriptView};
use crate::unknown::{self, unknown_verdict};
use vstd::prelude::*;

pub mod laws;
pub mod tag;

verus! {

/// The length of the signature before the body.
pub const SIGNATURE_LEN: usize = 64;

/// The version of a lease without a policy of the server.
pub const LEASE_VERSION: u16 = 1;

/// The version of a lease with a policy of the server: who does not know of such a
/// policy refuses the document rather than lose the restriction.
pub const LEASE_VERSION_WITH_SERVER_POLICY: u16 = 2;

/// The version of a lease for a device whose key was attested.
pub const LEASE_VERSION_WITH_ATTESTATION: u16 = 3;

/// The lease may be used.
pub const STATUS_ACTIVE: u8 = 1;

/// The lease was revoked.
pub const STATUS_REVOKED: u8 = 2;

/// A moment, in seconds.
#[derive(Debug, Clone, Copy, PartialEq, Eq, PartialOrd, Ord, Structural)]
pub struct Timestamp(pub i64);

/// What the clock of a device shows.
#[derive(Debug, Clone, Copy, PartialEq, Eq, Structural)]
pub struct TpmClock {
    pub reset_count: u32,
    pub clock_ms: u64,
}

/// The grounds on which the key of a device was attested.
#[derive(Debug, Clone, Copy, PartialEq, Eq, Structural)]
pub enum Attestation {
    /// A certificate of the vendor.
    VendorCertificate,
    /// A key that was enrolled before.
    EnrolledEk,
}

impl Attestation {
    /// The number in documents.
    pub open spec fn number(self) -> u8 {
        match self {
            Attestation::VendorCertificate => basis::VENDOR_CERTIFICATE,
            Attestation::EnrolledEk => basis::ENROLLED_EK,
        }
    }

    /// What a number means; most mean nothing.
    pub open spec fn numbered(v: u8) -> Option<Attestation> {
        if v == basis::VENDOR_CERTIFICATE {
            Some(Attestation::VendorCertificate)
        } else if v == basis::ENROLLED_EK {
            Some(Attestation::EnrolledEk)
        } else {
            None
        }
    }

    /// The number in documents.
    fn as_u8(self) -> (r: u8)
        ensures
            r == self.number(),
    {
        match self {
            Attestation::VendorCertificate => basis::VENDOR_CERTIFICATE,
            Attestation::EnrolledEk => basis::ENROLLED_EK,
        }
    }

    /// What a number means; an unknown one means nothing.
    fn from_u8(v: u8) -> (r: Option<Attestation>)
        ensures
            r == Attestation::numbered(v),
    {
        if v == basis::VENDOR_CERTIFICATE {
            Some(Attestation::VendorCertificate)
        } else if v == basis::ENROLLED_EK {
            Some(Attestation::EnrolledEk)
        } else {
            None
        }
    }
}

/// What a lease permits.
#[derive(Debug, Clone, PartialEq, Eq)]
pub struct LeaseFacts {
    pub device_fingerprint: [u8; 32],
    /// The hash of the policy under which the lease was granted.
    pub policy_hash: [u8; 32],
    pub seq: u64,
    pub epoch: u64,
    pub issued_at: Timestamp,
    pub expires_at: Timestamp,
    /// How often the file may still be opened, where there is a limit.
    pub opens_remaining: Option<u32>,
    pub revoked: bool,
    pub tpm_clock: Option<TpmClock>,
    /// The policy of the server, as its codec writes it.
    pub server_policy: Option<Vec<u8>>,
    pub attested: Option<Attestation>,
}

/// What a lease permits.
pub struct LeaseFactsView {
    pub device_fingerprint: Seq<u8>,
    pub policy_hash: Seq<u8>,
    pub seq: u64,
    pub epoch: u64,
    pub issued_at: Timestamp,
    pub expires_at: Timestamp,
    pub opens_remaining: Option<u32>,
    pub revoked: bool,
    pub tpm_clock: Option<TpmClock>,
    pub server_policy: Option<Seq<u8>>,
    pub attested: Option<Attestation>,
}

impl View for LeaseFacts {
    type V = LeaseFactsView;

    open spec fn view(&self) -> LeaseFactsView {
        LeaseFactsView {
            device_fingerprint: self.device_fingerprint@,
            policy_hash: self.policy_hash@,
            seq: self.seq,
            epoch: self.epoch,
            issued_at: self.issued_at,
            expires_at: self.expires_at,
            opens_remaining: self.opens_remaining,
            revoked: self.revoked,
            tpm_clock: self.tpm_clock,
            server_policy: bytes::opt_bytes(self.server_policy),
            attested: self.attested,
        }
    }
}

/// A lease.
#[derive(Debug, Clone, PartialEq, Eq)]
pub struct Lease {
    /// The file; the caller holds it against the container.
    pub file_id: [u8; 16],
    pub facts: LeaseFacts,
}

/// What a lease says.
pub struct LeaseView {
    pub file_id: Seq<u8>,
    pub facts: LeaseFactsView,
}

impl View for Lease {
    type V = LeaseView;

    open spec fn view(&self) -> LeaseView {
        LeaseView {
            file_id: self.file_id@,
            facts: self.facts@,
        }
    }
}

/// The bytes of a limit: none where there is no limit.
pub open spec fn limit_bytes(limit: Option<u32>) -> Seq<u8> {
    match limit {
        Some(n) => bytes::le32(n),
        None => Seq::empty(),
    }
}

/// The bytes of what a clock shows.
pub open spec fn clock_bytes(clock: TpmClock) -> Seq<u8> {
    bytes::le32(clock.reset_count) + bytes::le64(clock.clock_ms)
}

/// What a clock shows, by its bytes.
pub open spec fn clock_of(b: Seq<u8>) -> TpmClock {
    TpmClock {
        reset_count: bytes::num32(b.subrange(0, 4)),
        clock_ms: bytes::num64(b.subrange(4, 12)),
    }
}

impl LeaseView {
    /// The fields of fixed length have it.
    pub open spec fn sized(self) -> bool {
        self.file_id.len() == 16 && self.facts.device_fingerprint.len() == 32
            && self.facts.policy_hash.len() == 32
    }

    /// The version that the contents ask for.
    pub open spec fn version(self) -> u16 {
        if self.facts.attested is Some {
            LEASE_VERSION_WITH_ATTESTATION
        } else if self.facts.server_policy is Some {
            LEASE_VERSION_WITH_SERVER_POLICY
        } else {
            LEASE_VERSION
        }
    }

    /// The records of the lease.
    pub open spec fn recs(self) -> Seq<Rec> {
        let f = self.facts;
        let rs = Seq::<Rec>::empty();
        let rs = rs.push((tag::VERSION, bytes::le16(self.version())));
        let rs = rs.push((tag::FILE_ID, self.file_id));
        let rs = rs.push((tag::DEVICE_FPR, f.device_fingerprint));
        let rs = rs.push((tag::POLICY_HASH, f.policy_hash));
        let rs = rs.push((tag::SEQ, bytes::le64(f.seq)));
        let rs = rs.push((tag::EPOCH, bytes::le64(f.epoch)));
        let rs = rs.push((tag::ISSUED_AT, bytes::le64s(f.issued_at.0)));
        let rs = rs.push((tag::EXPIRES_AT, bytes::le64s(f.expires_at.0)));
        let rs = rs.push(
            (
                tag::STATUS,
                seq![
                    if f.revoked {
                        STATUS_REVOKED
                    } else {
                        STATUS_ACTIVE
                    },
                ],
            ),
        );
        let rs = rs.push((tag::OPENS_REMAINING, limit_bytes(f.opens_remaining)));
        let rs = tlv::with_opt(
            rs,
            tag::TPM_CLOCK,
            match f.tpm_clock {
                Some(c) => Some(clock_bytes(c)),
                None => None,
            },
        );
        let rs = tlv::with_opt(rs, tag::SERVER_POLICY, f.server_policy);
        tlv::with_opt(
            rs,
            tag::ATTESTED,
            match f.attested {
                Some(a) => Some(seq![a.number()]),
                None => None,
            },
        )
    }
}

/// The verdict on a limit: it is empty, or a number of four bytes.
pub open spec fn limit_fault(value: Seq<u8>) -> Option<FormatError> {
    if value.len() == 0 || value.len() == 4 {
        None
    } else {
        Some(FormatError::BadFieldLength { tag: 0, len: value.len() as usize })
    }
}

/// The verdict on a limit.
fn check_limit(value: &[u8]) -> (r: Option<FormatError>)
    ensures
        r == limit_fault(value@),
{
    if value.len() == 0 || value.len() == 4 {
        None
    } else {
        Some(bad(0, value.len()))
    }
}

/// The verdict on a byte of which only some values mean something.
pub open spec fn byte_fault(tag: u16, value: Seq<u8>, means: bool) -> Option<FormatError> {
    if value.len() != 1 {
        Some(FormatError::BadFieldLength { tag, len: value.len() as usize })
    } else if !means {
        Some(FormatError::BadFieldLength { tag, len: 1 })
    } else {
        None
    }
}

/// The state of a lease is known.
pub open spec fn status_is_known(v: u8) -> bool {
    v == STATUS_ACTIVE || v == STATUS_REVOKED
}

/// The verdict on the state of a lease: an unknown one is refused, not guessed at.
fn check_status(tag: u16, value: &[u8]) -> (r: Option<FormatError>)
    ensures
        r == byte_fault(tag, value@, status_is_known(value@[0])),
{
    if value.len() != 1 {
        Some(bad(tag, value.len()))
    } else if value[0] != STATUS_ACTIVE && value[0] != STATUS_REVOKED {
        Some(bad(tag, 1))
    } else {
        None
    }
}

/// The verdict on the grounds of an attestation.
fn check_basis(tag: u16, value: &[u8]) -> (r: Option<FormatError>)
    ensures
        r == byte_fault(tag, value@, Attestation::numbered(value@[0]) is Some),
{
    if value.len() != 1 {
        return Some(bad(tag, value.len()));
    }
    match Attestation::from_u8(value[0]) {
        Some(_) => None,
        None => Some(bad(tag, 1)),
    }
}

/// The rule for the fields of a lease.
pub struct LeaseSchema {
    /// What the codec of policies has against the policy of the server.
    pub policy: Option<FormatError>,
}

impl Schema for LeaseSchema {
    open spec fn fault(&self, tag: u16, value: Seq<u8>) -> Option<FormatError> {
        if tag == self::tag::VERSION {
            tlv::length_fault(tag, value, 2)
        } else if tag == self::tag::FILE_ID {
            tlv::length_fault(tag, value, 16)
        } else if tag == self::tag::DEVICE_FPR || tag == self::tag::POLICY_HASH {
            tlv::length_fault(tag, value, 32)
        } else if tag == self::tag::SEQ || tag == self::tag::EPOCH || tag == self::tag::ISSUED_AT
            || tag == self::tag::EXPIRES_AT {
            tlv::length_fault(0, value, 8)
        } else if tag == self::tag::STATUS {
            byte_fault(tag, value, status_is_known(value[0]))
        } else if tag == self::tag::OPENS_REMAINING {
            limit_fault(value)
        } else if tag == self::tag::TPM_CLOCK {
            tlv::length_fault(tag, value, 12)
        } else if tag == self::tag::SERVER_POLICY {
            self.policy
        } else if tag == self::tag::ATTESTED {
            byte_fault(tag, value, Attestation::numbered(value[0]) is Some)
        } else {
            unknown::unknown_fault(tag)
        }
    }

    fn check(&self, tag: u16, value: &[u8]) -> (r: Option<FormatError>) {
        if tag == self::tag::VERSION {
            check_length(tag, value, 2)
        } else if tag == self::tag::FILE_ID {
            check_length(tag, value, 16)
        } else if tag == self::tag::DEVICE_FPR || tag == self::tag::POLICY_HASH {
            check_length(tag, value, 32)
        } else if tag == self::tag::SEQ || tag == self::tag::EPOCH || tag == self::tag::ISSUED_AT
            || tag == self::tag::EXPIRES_AT {
            check_length(0, value, 8)
        } else if tag == self::tag::STATUS {
            check_status(tag, value)
        } else if tag == self::tag::OPENS_REMAINING {
            check_limit(value)
        } else if tag == self::tag::TPM_CLOCK {
            check_length(tag, value, 12)
        } else if tag == self::tag::SERVER_POLICY {
            self.policy
        } else if tag == self::tag::ATTESTED {
            check_basis(tag, value)
        } else {
            unknown_verdict(tag)
        }
    }
}

/// The verdict on a version beside what the document holds: a policy of the server
/// stands in the second version and may stand in the third, an attestation stands in
/// the third alone.
pub open spec fn version_fault(version: u16, policy: bool, attested: bool) -> Option<FormatError> {
    if version == LEASE_VERSION_WITH_ATTESTATION {
        if attested {
            None
        } else {
            Some(FormatError::MissingField { tag: tag::ATTESTED })
        }
    } else if version != LEASE_VERSION && version != LEASE_VERSION_WITH_SERVER_POLICY {
        Some(FormatError::UnsupportedLeaseVersion { version })
    } else if attested {
        Some(FormatError::UnknownCriticalField { tag: tag::ATTESTED })
    } else if version == LEASE_VERSION && policy {
        Some(FormatError::UnknownCriticalField { tag: tag::SERVER_POLICY })
    } else if version == LEASE_VERSION_WITH_SERVER_POLICY && !policy {
        Some(FormatError::MissingField { tag: tag::SERVER_POLICY })
    } else {
        None
    }
}

/// The verdict on a version beside what the document holds.
fn check_version(version: u16, policy: bool, attested: bool) -> (r: Option<FormatError>)
    ensures
        r == version_fault(version, policy, attested),
{
    if version == LEASE_VERSION_WITH_ATTESTATION {
        if attested {
            None
        } else {
            Some(missing(tag::ATTESTED))
        }
    } else if version != LEASE_VERSION && version != LEASE_VERSION_WITH_SERVER_POLICY {
        Some(FormatError::UnsupportedLeaseVersion { version })
    } else if attested {
        Some(FormatError::UnknownCriticalField { tag: tag::ATTESTED })
    } else if version == LEASE_VERSION && policy {
        Some(FormatError::UnknownCriticalField { tag: tag::SERVER_POLICY })
    } else if version == LEASE_VERSION_WITH_SERVER_POLICY && !policy {
        Some(missing(tag::SERVER_POLICY))
    } else {
        None
    }
}

/// The lease that the records hold.
pub open spec fn lease_in(rs: Seq<Rec>) -> Result<LeaseView, FormatError> {
    let policy = tlv::lookup(rs, tag::SERVER_POLICY);
    let attested = tlv::lookup(rs, tag::ATTESTED);
    if tlv::lookup(rs, tag::VERSION) is None {
        Err(FormatError::MissingField { tag: tag::VERSION })
    } else if version_fault(
        bytes::num16(tlv::lookup(rs, tag::VERSION)->0),
        policy is Some,
        attested is Some,
    ) is Some {
        Err(
            version_fault(
                bytes::num16(tlv::lookup(rs, tag::VERSION)->0),
                policy is Some,
                attested is Some,
            )->0,
        )
    } else if tlv::lookup(rs, tag::FILE_ID) is None {
        Err(FormatError::MissingField { tag: tag::FILE_ID })
    } else if tlv::lookup(rs, tag::DEVICE_FPR) is None {
        Err(FormatError::MissingField { tag: tag::DEVICE_FPR })
    } else if tlv::lookup(rs, tag::POLICY_HASH) is None {
        Err(FormatError::MissingField { tag: tag::POLICY_HASH })
    } else if tlv::lookup(rs, tag::SEQ) is None {
        Err(FormatError::MissingField { tag: tag::SEQ })
    } else if tlv::lookup(rs, tag::EPOCH) is None {
        Err(FormatError::MissingField { tag: tag::EPOCH })
    } else if tlv::lookup(rs, tag::ISSUED_AT) is None {
        Err(FormatError::MissingField { tag: tag::ISSUED_AT })
    } else if tlv::lookup(rs, tag::EXPIRES_AT) is None {
        Err(FormatError::MissingField { tag: tag::EXPIRES_AT })
    } else if tlv::lookup(rs, tag::OPENS_REMAINING) is None {
        Err(FormatError::MissingField { tag: tag::OPENS_REMAINING })
    } else if tlv::lookup(rs, tag::STATUS) is None {
        Err(FormatError::MissingField { tag: tag::STATUS })
    } else {
        Ok(
            LeaseView {
                file_id: tlv::lookup(rs, tag::FILE_ID)->0,
                facts: LeaseFactsView {
                    device_fingerprint: tlv::lookup(rs, tag::DEVICE_FPR)->0,
                    policy_hash: tlv::lookup(rs, tag::POLICY_HASH)->0,
                    seq: bytes::num64(tlv::lookup(rs, tag::SEQ)->0),
                    epoch: bytes::num64(tlv::lookup(rs, tag::EPOCH)->0),
                    issued_at: Timestamp(bytes::num64s(tlv::lookup(rs, tag::ISSUED_AT)->0)),
                    expires_at: Timestamp(bytes::num64s(tlv::lookup(rs, tag::EXPIRES_AT)->0)),
                    opens_remaining: if tlv::lookup(rs, tag::OPENS_REMAINING)->0.len() == 0 {
                        None
                    } else {
                        Some(bytes::num32(tlv::lookup(rs, tag::OPENS_REMAINING)->0))
                    },
                    revoked: tlv::lookup(rs, tag::STATUS)->0[0] == STATUS_REVOKED,
                    tpm_clock: match tlv::lookup(rs, tag::TPM_CLOCK) {
                        Some(v) => Some(clock_of(v)),
                        None => None,
                    },
                    server_policy: policy,
                    attested: match attested {
                        Some(v) => Attestation::numbered(v[0]),
                        None => None,
                    },
                },
            },
        )
    }
}

/// The lease that a body holds. `policy` is what the codec of policies has against the
/// policy of the server.
pub open spec fn lease_of(body: Seq<u8>, policy: Option<FormatError>) -> Result<
    LeaseView,
    FormatError,
> {
    match tlv::read(LeaseSchema { policy }, body) {
        Err(e) => Err(e),
        Ok(rs) => lease_in(rs),
    }
}

/// An optional field that is not known changes nothing in the lease that is read.
pub proof fn lease_reads_past_optional_fields(body: Seq<u8>, policy: Option<FormatError>)
    requires
        lease_of(body, policy) is Ok,
    ensures
        lease_of(unknown::without_optional(body), policy) == lease_of(body, policy),
{
    unknown::optional_records_are_skipped(LeaseSchema { policy }, body);
}

/// The lease that the bytes hold, where `signed` says whether the signature holds under
/// the key of the server. Nothing is read of a body that is not signed.
pub open spec fn opened_lease(b: Seq<u8>, signed: bool, policy: Option<FormatError>) -> Result<
    LeaseView,
    FormatError,
> {
    if b.len() < SIGNATURE_LEN || !signed {
        Err(FormatError::BadHeaderSignature)
    } else {
        lease_of(b.skip(SIGNATURE_LEN as int), policy)
    }
}

/// A lease survives being written and read back.
pub proof fn lease_round_trip(l: LeaseView)
    requires
        l.sized(),
        tlv::sealed(l.recs()) is Ok,
    ensures
        lease_of(tlv::sealed(l.recs())->Ok_0, None) == Ok::<LeaseView, FormatError>(l),
{
    broadcast use {tlv::group_records, bytes::group_numbers};

    if let Some(c) = l.facts.tpm_clock {
        assert(clock_bytes(c).subrange(0, 4) =~= bytes::le32(c.reset_count));
        assert(clock_bytes(c).subrange(4, 12) =~= bytes::le64(c.clock_ms));
    }
    tlv::read_wire(LeaseSchema { policy: None }, l.recs());
}

/// Under a signature that does not hold, no body is told from another: each is refused alike.
pub proof fn unsigned_lease_is_refused(b: Seq<u8>, policy: Option<FormatError>)
    ensures
        opened_lease(b, false, policy)
            == Err::<LeaseView, FormatError>(FormatError::BadHeaderSignature),
{
}

/// A lease that was opened was read from the very body that its signature was checked over.
pub proof fn lease_is_read_from_what_was_signed(
    b: Seq<u8>,
    lease_verify_key: Seq<u8>,
    policy: Option<FormatError>,
)
    requires
        opened_lease(b, true, policy) is Ok,
    ensures
        transcript::claimed(Label::Lease, b, lease_verify_key) is Ok,
        ({
            let claim = transcript::claimed(Label::Lease, b, lease_verify_key)->Ok_0;
            opened_lease(b, true, policy) == lease_of(claim.transcript.body, policy)
        }),
{
}

/// A signed lease survives being written and read back.
pub proof fn signed_lease_round_trip(l: LeaseView, signature: Seq<u8>)
    requires
        l.sized(),
        signature.len() == SIGNATURE_LEN,
        tlv::sealed(l.recs()) is Ok,
    ensures
        opened_lease(action::signed_bytes(signature, tlv::sealed(l.recs()))->Ok_0, true, None)
            == Ok::<
            LeaseView,
            FormatError,
        >(l),
{
    lease_round_trip(l);
    action::signature_parts(signature, tlv::sealed(l.recs())->Ok_0);
}

/// A policy of the server is never lost on the way: a lease that is read has one
/// exactly where the document is of a version that announces it, or may.
pub proof fn no_policy_is_lost(body: Seq<u8>, policy: Option<FormatError>)
    requires
        lease_of(body, policy) is Ok,
    ensures
        ({
            let l = lease_of(body, policy)->Ok_0;
            let version = bytes::num16(
                tlv::lookup(tlv::read(LeaseSchema { policy }, body)->Ok_0, tag::VERSION)->0,
            );
            &&& version == LEASE_VERSION
                ==> l.facts.server_policy is None && l.facts.attested is None
            &&& version == LEASE_VERSION_WITH_SERVER_POLICY ==> l.facts.server_policy is Some
                && l.facts.attested is None
            &&& version == LEASE_VERSION_WITH_ATTESTATION ==> l.facts.attested is Some
            &&& version == LEASE_VERSION || version == LEASE_VERSION_WITH_SERVER_POLICY || version
                == LEASE_VERSION_WITH_ATTESTATION
        }),
{
    let rs = tlv::read(LeaseSchema { policy }, body)->Ok_0;
    if tlv::lookup(rs, tag::ATTESTED) is Some {
        tlv::looked_up_is_sound(LeaseSchema { policy }, rs, tag::ATTESTED);
    }
}

/// Write the body of a lease. Its signature is for who holds the key.
pub fn encode(lease: &Lease) -> (r: Result<Vec<u8>, FormatError>)
    ensures
        tlv::agrees(r, tlv::sealed(lease@.recs())),
{
    broadcast use {tlv::group_records, bytes::group_numbers};

    let f = &lease.facts;
    let version: u16 = if f.attested.is_some() {
        LEASE_VERSION_WITH_ATTESTATION
    } else if f.server_policy.is_some() {
        LEASE_VERSION_WITH_SERVER_POLICY
    } else {
        LEASE_VERSION
    };
    let mut w = TlvWriter::new();
    w.put(tag::VERSION, write16(version).as_slice())?;
    w.put(tag::FILE_ID, lease.file_id.as_slice())?;
    w.put(tag::DEVICE_FPR, f.device_fingerprint.as_slice())?;
    w.put(tag::POLICY_HASH, f.policy_hash.as_slice())?;
    w.put(tag::SEQ, write64(f.seq).as_slice())?;
    w.put(tag::EPOCH, write64(f.epoch).as_slice())?;
    w.put(tag::ISSUED_AT, write64s(f.issued_at.0).as_slice())?;
    w.put(tag::EXPIRES_AT, write64s(f.expires_at.0).as_slice())?;
    let status: u8 = if f.revoked {
        STATUS_REVOKED
    } else {
        STATUS_ACTIVE
    };
    w.put(tag::STATUS, one(status).as_slice())?;
    let limit = match f.opens_remaining {
        Some(n) => write32(n),
        None => Vec::new(),
    };
    assert(limit@ =~= limit_bytes(f.opens_remaining));
    w.put(tag::OPENS_REMAINING, limit.as_slice())?;
    if let Some(clock) = f.tpm_clock {
        w.put(tag::TPM_CLOCK, encode_clock(clock).as_slice())?;
    }
    if let Some(policy) = &f.server_policy {
        w.put(tag::SERVER_POLICY, policy.as_slice())?;
    }
    if let Some(attested) = f.attested {
        w.put(tag::ATTESTED, one(attested.as_u8()).as_slice())?;
    }
    Ok(w.finish())
}

/// Write what a clock shows.
fn encode_clock(clock: TpmClock) -> (r: Vec<u8>)
    ensures
        r@ == clock_bytes(clock),
{
    let mut out = write32(clock.reset_count);
    append(&mut out, write64(clock.clock_ms).as_slice());
    out
}

/// Read what a clock shows.
fn decode_clock(value: &[u8]) -> (r: TpmClock)
    requires
        value@.len() == 12,
    ensures
        r == clock_of(value@),
{
    TpmClock {
        reset_count: read32(part(value, 0, 4)),
        clock_ms: read64(part(value, 4, 12)),
    }
}

/// The policy in the body of a lease, in the bytes of its codec: what the codec is asked
/// about before the lease is read.
pub fn policy_in(body: &[u8]) -> (r: Option<Vec<u8>>)
    ensures
        match r {
            Some(v) => tlv::lookup(tlv::scan(body@, None).0, tag::SERVER_POLICY) == Some(v@),
            None => tlv::lookup(tlv::scan(body@, None).0, tag::SERVER_POLICY) is None,
        },
{
    value_in(body, tag::SERVER_POLICY)
}

/// Read the body of a lease without regard to its signature: the result permits
/// nothing. `policy` is what the codec of policies has against the policy of the server
/// (see [`policy_in`]).
pub fn decode(body: &[u8], policy: Option<FormatError>) -> (r: Result<Lease, FormatError>)
    ensures
        tlv::agrees(r, lease_of(body@, policy)),
{
    let fs = read_fields(&LeaseSchema { policy }, body)?;
    let version: u16 = read16(need(&fs, tag::VERSION)?);
    let server_policy = find(&fs, tag::SERVER_POLICY);
    let attested = find(&fs, tag::ATTESTED);
    refuse(check_version(version, server_policy.is_some(), attested.is_some()))?;
    let file_id = need(&fs, tag::FILE_ID)?;
    let device_fpr = need(&fs, tag::DEVICE_FPR)?;
    let policy_hash = need(&fs, tag::POLICY_HASH)?;
    let seq_field = need(&fs, tag::SEQ)?;
    let epoch = need(&fs, tag::EPOCH)?;
    let issued_at = need(&fs, tag::ISSUED_AT)?;
    let expires_at = need(&fs, tag::EXPIRES_AT)?;
    let limit = need(&fs, tag::OPENS_REMAINING)?;
    let status = need(&fs, tag::STATUS)?;
    Ok(
        Lease {
            file_id: array(file_id),
            facts: LeaseFacts {
                device_fingerprint: array(device_fpr),
                policy_hash: array(policy_hash),
                seq: read64(seq_field),
                epoch: read64(epoch),
                issued_at: Timestamp(read64s(issued_at)),
                expires_at: Timestamp(read64s(expires_at)),
                opens_remaining: if limit.len() == 0 {
                    None
                } else {
                    Some(read32(limit))
                },
                revoked: status[0] == STATUS_REVOKED,
                tpm_clock: match find(&fs, tag::TPM_CLOCK) {
                    Some(v) => Some(decode_clock(v)),
                    None => None,
                },
                server_policy: match server_policy {
                    Some(v) => Some(owned(v)),
                    None => None,
                },
                attested: match attested {
                    Some(v) => Attestation::from_u8(v[0]),
                    None => None,
                },
            },
        },
    )
}

/// What the server signs of a lease.
pub fn signing_transcript(body: &[u8]) -> (r: Transcript)
    ensures
        r@ == (TranscriptView { label: Label::Lease, body: body@ }),
{
    Transcript::new(Label::Lease, body)
}

/// The signature that is to be checked before a lease is read.
pub fn claim(bytes: &[u8], lease_verify_key: &[u8; 32]) -> (r: Result<Claim, FormatError>)
    ensures
        tlv::agrees(r, transcript::claimed(Label::Lease, bytes@, lease_verify_key@)),
{
    transcript::claim(Label::Lease, bytes, lease_verify_key)
}

/// Read a signed lease, `signature ‖ body`. `signed` says whether the signature over the
/// body (see [`claim`]) holds under the key of the server. The caller holds the file and
/// the hash of the policy against the container.
pub fn verify_signed(bytes: &[u8], signed: bool, policy: Option<FormatError>) -> (r: Result<
    Lease,
    FormatError,
>)
    ensures
        tlv::agrees(r, opened_lease(bytes@, signed, policy)),
{
    let (_, body) = split_signature(bytes)?;
    if !signed {
        return Err(FormatError::BadHeaderSignature);
    }
    decode(body, policy)
}

} // verus!
