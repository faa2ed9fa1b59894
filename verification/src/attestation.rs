//! Attestation of a device key on the wire: evidence, credential and verdict.
//!
//! Three steps. The device asks for a challenge and gets a nonce. It sends the
//! whole [`Evidence`] with that challenge and gets a credential. It returns the
//! opened secret and gets the verdict. What the structures inside say is for the
//! verifier; here are their layout and the caps on their lengths.

use crate::bytes::{self, append, owned, part, read16be, write16be};
use crate::error::FormatError;
use crate::tlv::{self, check_bounded, find, need, read_fields, Rec, Schema, TlvWriter};
use crate::unknown::{self, unknown_verdict};
use vstd::prelude::*;

pub mod laws;
pub mod basis;
pub mod evidence_tag;

verus! {

/// The longest public area of a key.
pub const MAX_PUBLIC: usize = 1026;

/// The longest certificate.
pub const MAX_CERTIFICATE: usize = 8 * 1024;

/// The longest chain of intermediate certificates.
pub const MAX_INTERMEDIATES: usize = 2;

/// The longest attestation.
pub const MAX_ATTEST: usize = 1024;

/// The longest signature under an attestation.
pub const MAX_SIGNATURE: usize = 600;

/// The longest credential: two blobs, each behind its length.
pub const MAX_CREDENTIAL: usize = 2 + 132 + 2 + 512;

/// The length of the challenge and of the secret.
pub const SECRET_LEN: usize = 32;

/// What a device shows of its key.
#[derive(Debug, Clone, PartialEq, Eq)]
pub struct Evidence {
    pub ek_public: Vec<u8>,
    pub ek_certificate: Option<Vec<u8>>,
    pub intermediates: Vec<Vec<u8>>,
    pub identity_public: Vec<u8>,
    pub attest: Vec<u8>,
    pub signature: Vec<u8>,
    pub device_public: Vec<u8>,
}

/// What the evidence holds.
pub struct EvidenceView {
    pub ek_public: Seq<u8>,
    pub ek_certificate: Option<Seq<u8>>,
    pub intermediates: Seq<Seq<u8>>,
    pub identity_public: Seq<u8>,
    pub attest: Seq<u8>,
    pub signature: Seq<u8>,
    pub device_public: Seq<u8>,
}

impl View for Evidence {
    type V = EvidenceView;

    open spec fn view(&self) -> EvidenceView {
        EvidenceView {
            ek_public: self.ek_public@,
            ek_certificate: bytes::opt_bytes(self.ek_certificate),
            intermediates: bytes::blobs(self.intermediates@),
            identity_public: self.identity_public@,
            attest: self.attest@,
            signature: self.signature@,
            device_public: self.device_public@,
        }
    }
}

/// The bytes of a chain of certificates: each behind its length.
pub open spec fn certs_bytes(certs: Seq<Seq<u8>>) -> Seq<u8>
    decreases certs.len(),
{
    if certs.len() == 0 {
        Seq::empty()
    } else {
        bytes::be16(certs[0].len() as u16) + certs[0] + certs_bytes(certs.drop_first())
    }
}

/// The verdict on a chain of certificates.
pub open spec fn certs_fault(certs: Seq<Seq<u8>>) -> Option<FormatError> {
    if certs.len() > MAX_INTERMEDIATES {
        Some(
            FormatError::BadFieldLength {
                tag: evidence_tag::INTERMEDIATES,
                len: certs.len() as usize,
            },
        )
    } else {
        first_cert_fault(certs)
    }
}

/// The verdict on the first certificate that is out of bounds.
pub open spec fn first_cert_fault(certs: Seq<Seq<u8>>) -> Option<FormatError>
    decreases certs.len(),
{
    if certs.len() == 0 {
        None
    } else {
        tlv::or_else(
            tlv::bounded_fault(evidence_tag::INTERMEDIATES, certs[0], MAX_CERTIFICATE as nat),
            first_cert_fault(certs.drop_first()),
        )
    }
}

/// The certificates in the bytes behind `taken` others, in a value of `whole` bytes.
pub open spec fn certs_behind(bytes: Seq<u8>, taken: nat, whole: nat) -> Result<
    Seq<Seq<u8>>,
    FormatError,
>
    decreases bytes.len(),
{
    let bad = FormatError::BadFieldLength {
        tag: evidence_tag::INTERMEDIATES,
        len: whole as usize,
    };
    if bytes.len() == 0 {
        Ok(Seq::empty())
    } else if taken >= MAX_INTERMEDIATES || bytes.len() < 2 {
        Err(bad)
    } else {
        let len = bytes::num16be(bytes.subrange(0, 2));
        if bytes.len() - 2 < len {
            Err(bad)
        } else {
            let cert = bytes.subrange(2, 2 + len);
            match tlv::bounded_fault(evidence_tag::INTERMEDIATES, cert, MAX_CERTIFICATE as nat) {
                Some(e) => Err(e),
                None => match certs_behind(bytes.skip(2 + len), taken + 1, whole) {
                    Err(e) => Err(e),
                    Ok(rest) => Ok(seq![cert] + rest),
                },
            }
        }
    }
}

/// The chain of certificates that a value holds.
pub open spec fn certs_of(value: Seq<u8>) -> Result<Seq<Seq<u8>>, FormatError> {
    if value.len() == 0 {
        Err(FormatError::BadFieldLength { tag: evidence_tag::INTERMEDIATES, len: 0 })
    } else {
        certs_behind(value, 0, value.len())
    }
}

proof fn certs_behind_round_trip(certs: Seq<Seq<u8>>, taken: nat, whole: nat)
    requires
        taken + certs.len() <= MAX_INTERMEDIATES,
        first_cert_fault(certs) is None,
    ensures
        certs_behind(certs_bytes(certs), taken, whole) == Ok::<Seq<Seq<u8>>, FormatError>(certs),
    decreases certs.len(),
{
    if certs.len() > 0 {
        let n = certs[0].len() as u16;
        let rest = certs_bytes(certs.drop_first());
        let all = certs_bytes(certs);
        bytes::be16_round_trip(n);
        assert(all.subrange(0, 2) =~= bytes::be16(n));
        assert(all.subrange(2, 2 + n) =~= certs[0]);
        assert(all.skip(2 + n) =~= rest);
        certs_behind_round_trip(certs.drop_first(), taken + 1, whole);
        assert(seq![certs[0]] + certs.drop_first() =~= certs);
    } else {
        assert(certs =~= Seq::empty());
    }
}

/// A chain of certificates is far from the limit of a document, and it has bytes where it
/// has certificates.
proof fn certs_are_small(certs: Seq<Seq<u8>>)
    requires
        first_cert_fault(certs) is None,
    ensures
        certs_bytes(certs).len() <= 8194 * certs.len(),
        certs.len() > 0 ==> certs_bytes(certs).len() > 0,
    decreases certs.len(),
{
    if certs.len() > 0 {
        bytes::be16_round_trip(certs[0].len() as u16);
        certs_are_small(certs.drop_first());
    }
}

/// A chain of certificates survives being written and read back.
pub proof fn certs_round_trip(certs: Seq<Seq<u8>>)
    requires
        certs.len() > 0,
        certs_fault(certs) is None,
    ensures
        certs_of(certs_bytes(certs)) == Ok::<Seq<Seq<u8>>, FormatError>(certs),
        certs_bytes(certs).len() <= u32::MAX,
{
    certs_are_small(certs);
    certs_behind_round_trip(certs, 0, certs_bytes(certs).len());
}

impl EvidenceView {
    /// The chain of certificates as a field: absent where there are none.
    pub open spec fn chain(self) -> Option<Seq<u8>> {
        if self.intermediates.len() == 0 {
            None
        } else {
            Some(certs_bytes(self.intermediates))
        }
    }

    /// The first field that is out of bounds.
    pub open spec fn fault(self) -> Option<FormatError> {
        let cert = match self.ek_certificate {
            Some(c) => tlv::bounded_fault(evidence_tag::EK_CERTIFICATE, c, MAX_CERTIFICATE as nat),
            None => None,
        };
        tlv::or_else(
            tlv::bounded_fault(evidence_tag::EK_PUBLIC, self.ek_public, MAX_PUBLIC as nat),
            tlv::or_else(
                cert,
                tlv::or_else(
                    certs_fault(self.intermediates),
                    tlv::or_else(
                        tlv::bounded_fault(
                            evidence_tag::IDENTITY_PUBLIC,
                            self.identity_public,
                            MAX_PUBLIC as nat,
                        ),
                        tlv::or_else(
                            tlv::bounded_fault(
                                evidence_tag::ATTEST,
                                self.attest,
                                MAX_ATTEST as nat,
                            ),
                            tlv::or_else(
                                tlv::bounded_fault(
                                    evidence_tag::SIGNATURE,
                                    self.signature,
                                    MAX_SIGNATURE as nat,
                                ),
                                tlv::bounded_fault(
                                    evidence_tag::DEVICE_PUBLIC,
                                    self.device_public,
                                    MAX_PUBLIC as nat,
                                ),
                            ),
                        ),
                    ),
                ),
            ),
        )
    }
}

impl EvidenceView {
    /// The records of the evidence.
    pub open spec fn recs(self) -> Seq<Rec> {
        let rs = Seq::<Rec>::empty();
        let rs = rs.push((evidence_tag::EK_PUBLIC, self.ek_public));
        let rs = tlv::with_opt(rs, evidence_tag::EK_CERTIFICATE, self.ek_certificate);
        let rs = tlv::with_opt(rs, evidence_tag::INTERMEDIATES, self.chain());
        let rs = rs.push((evidence_tag::IDENTITY_PUBLIC, self.identity_public));
        let rs = rs.push((evidence_tag::ATTEST, self.attest));
        let rs = rs.push((evidence_tag::SIGNATURE, self.signature));
        let rs = rs.push((evidence_tag::DEVICE_PUBLIC, self.device_public));
        rs
    }
}

/// The rule for the fields of the evidence.
pub struct EvidenceSchema;

impl Schema for EvidenceSchema {
    open spec fn fault(&self, tag: u16, value: Seq<u8>) -> Option<FormatError> {
        if tag == evidence_tag::EK_PUBLIC || tag == evidence_tag::IDENTITY_PUBLIC
            || tag == evidence_tag::DEVICE_PUBLIC {
            tlv::bounded_fault(tag, value, MAX_PUBLIC as nat)
        } else if tag == evidence_tag::EK_CERTIFICATE {
            tlv::bounded_fault(tag, value, MAX_CERTIFICATE as nat)
        } else if tag == evidence_tag::INTERMEDIATES {
            match certs_of(value) {
                Ok(_) => None,
                Err(e) => Some(e),
            }
        } else if tag == evidence_tag::ATTEST {
            tlv::bounded_fault(tag, value, MAX_ATTEST as nat)
        } else if tag == evidence_tag::SIGNATURE {
            tlv::bounded_fault(tag, value, MAX_SIGNATURE as nat)
        } else {
            unknown::unknown_fault(tag)
        }
    }

    fn check(&self, tag: u16, value: &[u8]) -> (r: Option<FormatError>) {
        if tag == evidence_tag::EK_PUBLIC || tag == evidence_tag::IDENTITY_PUBLIC
            || tag == evidence_tag::DEVICE_PUBLIC {
            check_bounded(tag, value, MAX_PUBLIC)
        } else if tag == evidence_tag::EK_CERTIFICATE {
            check_bounded(tag, value, MAX_CERTIFICATE)
        } else if tag == evidence_tag::INTERMEDIATES {
            match split_certs(value) {
                Ok(_) => None,
                Err(e) => Some(e),
            }
        } else if tag == evidence_tag::ATTEST {
            check_bounded(tag, value, MAX_ATTEST)
        } else if tag == evidence_tag::SIGNATURE {
            check_bounded(tag, value, MAX_SIGNATURE)
        } else {
            unknown_verdict(tag)
        }
    }
}

/// The bytes of the evidence.
pub open spec fn evidence_bytes(e: EvidenceView) -> Result<Seq<u8>, FormatError> {
    match e.fault() {
        Some(err) => Err(err),
        None => tlv::sealed(e.recs()),
    }
}

/// The evidence that the records hold, or the first field that is absent.
pub open spec fn evidence_in(rs: Seq<Rec>) -> Result<EvidenceView, FormatError> {
    if tlv::lookup(rs, evidence_tag::EK_PUBLIC) is None {
        Err(FormatError::MissingField { tag: evidence_tag::EK_PUBLIC })
    } else if tlv::lookup(rs, evidence_tag::IDENTITY_PUBLIC) is None {
        Err(FormatError::MissingField { tag: evidence_tag::IDENTITY_PUBLIC })
    } else if tlv::lookup(rs, evidence_tag::ATTEST) is None {
        Err(FormatError::MissingField { tag: evidence_tag::ATTEST })
    } else if tlv::lookup(rs, evidence_tag::SIGNATURE) is None {
        Err(FormatError::MissingField { tag: evidence_tag::SIGNATURE })
    } else if tlv::lookup(rs, evidence_tag::DEVICE_PUBLIC) is None {
        Err(FormatError::MissingField { tag: evidence_tag::DEVICE_PUBLIC })
    } else {
        Ok(
            EvidenceView {
                ek_public: tlv::lookup(rs, evidence_tag::EK_PUBLIC)->0,
                ek_certificate: tlv::lookup(rs, evidence_tag::EK_CERTIFICATE),
                intermediates: match tlv::lookup(rs, evidence_tag::INTERMEDIATES) {
                    Some(v) => certs_of(v)->Ok_0,
                    None => Seq::empty(),
                },
                identity_public: tlv::lookup(rs, evidence_tag::IDENTITY_PUBLIC)->0,
                attest: tlv::lookup(rs, evidence_tag::ATTEST)->0,
                signature: tlv::lookup(rs, evidence_tag::SIGNATURE)->0,
                device_public: tlv::lookup(rs, evidence_tag::DEVICE_PUBLIC)->0,
            },
        )
    }
}

/// The evidence that the bytes hold.
pub open spec fn evidence_of(bytes: Seq<u8>) -> Result<EvidenceView, FormatError> {
    if bytes.len() > tlv::MAX_HEADER_LEN {
        Err(FormatError::OffsetOverflow)
    } else {
        match tlv::read(EvidenceSchema, bytes) {
            Err(e) => Err(e),
            Ok(rs) => evidence_in(rs),
        }
    }
}

/// An optional field that is not known changes nothing in the evidence that is read.
pub proof fn evidence_reads_past_optional_fields(bytes: Seq<u8>)
    requires
        evidence_of(bytes) is Ok,
    ensures
        evidence_of(unknown::without_optional(bytes)) == evidence_of(bytes),
{
    unknown::optional_records_are_skipped(EvidenceSchema, bytes);
}

/// Evidence is far from the limit of a document.
proof fn evidence_is_small(e: EvidenceView)
    requires
        evidence_bytes(e) is Ok,
    ensures
        evidence_bytes(e)->Ok_0.len() <= tlv::MAX_HEADER_LEN,
{
    broadcast use tlv::wire_len_push;

    certs_are_small(e.intermediates);
}

/// Evidence survives being written and read back.
pub proof fn evidence_round_trip(e: EvidenceView)
    requires
        evidence_bytes(e) is Ok,
    ensures
        evidence_of(evidence_bytes(e)->Ok_0) == Ok::<EvidenceView, FormatError>(e),
{
    broadcast use tlv::group_records;

    if e.intermediates.len() > 0 {
        certs_round_trip(e.intermediates);
    } else {
        assert(e.intermediates =~= Seq::empty());
    }
    evidence_is_small(e);
    tlv::read_wire(EvidenceSchema, e.recs());
}

/// Evidence that is out of bounds is not written.
fn check_evidence(e: &Evidence) -> (r: Option<FormatError>)
    ensures
        r == e@.fault(),
{
    if let Some(err) = check_bounded(evidence_tag::EK_PUBLIC, e.ek_public.as_slice(), MAX_PUBLIC) {
        return Some(err);
    }
    if let Some(cert) = &e.ek_certificate {
        if let Some(err) = check_bounded(
            evidence_tag::EK_CERTIFICATE,
            cert.as_slice(),
            MAX_CERTIFICATE,
        ) {
            return Some(err);
        }
    }
    if let Some(err) = check_certs(&e.intermediates) {
        return Some(err);
    }
    if let Some(err) = check_bounded(
        evidence_tag::IDENTITY_PUBLIC,
        e.identity_public.as_slice(),
        MAX_PUBLIC,
    ) {
        return Some(err);
    }
    if let Some(err) = check_bounded(evidence_tag::ATTEST, e.attest.as_slice(), MAX_ATTEST) {
        return Some(err);
    }
    if let Some(err) = check_bounded(
        evidence_tag::SIGNATURE,
        e.signature.as_slice(),
        MAX_SIGNATURE,
    ) {
        return Some(err);
    }
    check_bounded(evidence_tag::DEVICE_PUBLIC, e.device_public.as_slice(), MAX_PUBLIC)
}

/// The verdict on a chain of certificates.
fn check_certs(certs: &Vec<Vec<u8>>) -> (r: Option<FormatError>)
    ensures
        r == certs_fault(bytes::blobs(certs@)),
{
    if certs.len() > MAX_INTERMEDIATES {
        return Some(
            FormatError::BadFieldLength { tag: evidence_tag::INTERMEDIATES, len: certs.len() },
        );
    }
    let mut i: usize = 0;
    assert(bytes::blobs(certs@).skip(0) =~= bytes::blobs(certs@));
    while i < certs.len()
        invariant
            i <= certs@.len() <= MAX_INTERMEDIATES,
            first_cert_fault(bytes::blobs(certs@))
                == first_cert_fault(bytes::blobs(certs@).skip(i as int)),
        decreases certs@.len() - i,
    {
        assert(
            bytes::blobs(certs@).skip(i as int).drop_first() =~= bytes::blobs(certs@).skip(i as int + 1)
        );
        assert(bytes::blobs(certs@).skip(i as int)[0] == certs@[i as int]@);
        if let Some(e) = check_bounded(
            evidence_tag::INTERMEDIATES,
            certs[i].as_slice(),
            MAX_CERTIFICATE,
        ) {
            return Some(e);
        }
        i = i + 1;
    }
    None
}

/// The bytes of a chain of certificates that are within bounds.
fn join_certs(certs: &Vec<Vec<u8>>) -> (r: Vec<u8>)
    requires
        first_cert_fault(bytes::blobs(certs@)) is None,
    ensures
        r@ == certs_bytes(bytes::blobs(certs@)),
{
    let ghost all = bytes::blobs(certs@);
    let mut out: Vec<u8> = Vec::new();
    let mut i: usize = 0;
    assert(all.skip(0) =~= all);
    assert(out@ + certs_bytes(all) =~= certs_bytes(all));
    while i < certs.len()
        invariant
            i <= certs@.len(),
            all == bytes::blobs(certs@),
            first_cert_fault(all.skip(i as int)) is None,
            out@ + certs_bytes(all.skip(i as int)) == certs_bytes(all),
        decreases certs@.len() - i,
    {
        let ghost done = out@;
        let ghost rest = all.skip(i as int);
        assert(rest.drop_first() =~= all.skip(i as int + 1));
        assert(rest[0] == certs@[i as int]@);
        let head = write16be(certs[i].len() as u16);
        append(&mut out, head.as_slice());
        append(&mut out, certs[i].as_slice());
        assert(out@ + certs_bytes(rest.drop_first()) =~= done + certs_bytes(rest));
        i = i + 1;
    }
    assert(out@ + Seq::<u8>::empty() =~= out@);
    out
}

/// The chain of certificates that a value holds.
fn split_certs(value: &[u8]) -> (r: Result<Vec<Vec<u8>>, FormatError>)
    ensures
        match r {
            Ok(certs) => certs_of(value@) == Ok::<Seq<Seq<u8>>, FormatError>(bytes::blobs(certs@)),
            Err(e) => certs_of(value@) == Err::<Seq<Seq<u8>>, FormatError>(e),
        },
{
    let bad = FormatError::BadFieldLength { tag: evidence_tag::INTERMEDIATES, len: value.len() };
    if value.len() == 0 {
        return Err(bad);
    }
    let mut out: Vec<Vec<u8>> = Vec::new();
    let mut rest: &[u8] = value;
    proof {
        if certs_of(value@) is Ok {
            assert(bytes::blobs(out@) + certs_of(value@)->Ok_0 =~= certs_of(value@)->Ok_0);
        }
    }
    while rest.len() > 0
        invariant
            bad == (FormatError::BadFieldLength {
                tag: evidence_tag::INTERMEDIATES,
                len: value@.len() as usize,
            }),
            out@.len() <= MAX_INTERMEDIATES,
            certs_of(value@) == match certs_behind(rest@, out@.len(), value@.len()) {
                Err(e) => Err::<Seq<Seq<u8>>, FormatError>(e),
                Ok(tail) => Ok::<Seq<Seq<u8>>, FormatError>(bytes::blobs(out@) + tail),
            },
        decreases rest@.len(),
    {
        if out.len() >= MAX_INTERMEDIATES || rest.len() < 2 {
            return Err(bad);
        }
        let len: usize = read16be(part(rest, 0, 2)) as usize;
        if rest.len() - 2 < len {
            return Err(bad);
        }
        let cert = part(rest, 2, 2 + len);
        if let Some(e) = check_bounded(evidence_tag::INTERMEDIATES, cert, MAX_CERTIFICATE) {
            return Err(e);
        }
        let ghost before = out@;
        let ghost whole = rest@;
        out.push(owned(cert));
        rest = part(rest, 2 + len, rest.len());
        proof {
            assert(rest@ =~= whole.skip(2 + len));
            assert(bytes::blobs(out@) =~= bytes::blobs(before).push(cert@));
            if certs_behind(rest@, out@.len(), value@.len()) is Ok {
                let tail = certs_behind(rest@, out@.len(), value@.len())->Ok_0;
                assert(bytes::blobs(before) + (seq![cert@] + tail) =~= bytes::blobs(out@) + tail);
            }
        }
    }
    assert(bytes::blobs(out@) + Seq::<Seq<u8>>::empty() =~= bytes::blobs(out@));
    Ok(out)
}

/// Write the evidence; the first field that is out of bounds refuses it.
pub fn encode_evidence(e: &Evidence) -> (r: Result<Vec<u8>, FormatError>)
    ensures
        tlv::agrees(r, evidence_bytes(e@)),
{
    broadcast use tlv::group_records;

    if let Some(err) = check_evidence(e) {
        return Err(err);
    }
    let mut w = TlvWriter::new();
    w.put(evidence_tag::EK_PUBLIC, e.ek_public.as_slice())?;
    if let Some(cert) = &e.ek_certificate {
        w.put(evidence_tag::EK_CERTIFICATE, cert.as_slice())?;
    }
    if e.intermediates.len() > 0 {
        proof {
            certs_round_trip(bytes::blobs(e.intermediates@));
        }
        w.put(evidence_tag::INTERMEDIATES, join_certs(&e.intermediates).as_slice())?;
    }
    w.put(evidence_tag::IDENTITY_PUBLIC, e.identity_public.as_slice())?;
    w.put(evidence_tag::ATTEST, e.attest.as_slice())?;
    w.put(evidence_tag::SIGNATURE, e.signature.as_slice())?;
    w.put(evidence_tag::DEVICE_PUBLIC, e.device_public.as_slice())?;
    Ok(w.finish())
}

/// Read the evidence.
pub fn decode_evidence(bytes: &[u8]) -> (r: Result<Evidence, FormatError>)
    ensures
        tlv::agrees(r, evidence_of(bytes@)),
{
    if bytes.len() > tlv::MAX_HEADER_LEN {
        return Err(FormatError::OffsetOverflow);
    }
    let fs = read_fields(&EvidenceSchema, bytes)?;
    let ek_public = need(&fs, evidence_tag::EK_PUBLIC)?;
    let identity_public = need(&fs, evidence_tag::IDENTITY_PUBLIC)?;
    let attest = need(&fs, evidence_tag::ATTEST)?;
    let signature = need(&fs, evidence_tag::SIGNATURE)?;
    let device_public = need(&fs, evidence_tag::DEVICE_PUBLIC)?;
    let ek_certificate = match find(&fs, evidence_tag::EK_CERTIFICATE) {
        Some(v) => Some(owned(v)),
        None => None,
    };
    let intermediates = match find(&fs, evidence_tag::INTERMEDIATES) {
        Some(v) => split_certs(v)?,
        None => Vec::new(),
    };
    assert(intermediates@.len() == 0 ==> bytes::blobs(intermediates@) =~= Seq::empty());
    Ok(
        Evidence {
            ek_public: owned(ek_public),
            ek_certificate,
            intermediates,
            identity_public: owned(identity_public),
            attest: owned(attest),
            signature: owned(signature),
            device_public: owned(device_public),
        },
    )
}

/// A credential: two byte strings, each behind its length, and nothing else.
pub open spec fn credential_ok(bytes: Seq<u8>) -> bool {
    exists|a: Seq<u8>, b: Seq<u8>| #[trigger] credential_bytes(a, b) == bytes
        && a.len() <= u16::MAX && b.len() <= u16::MAX && bytes.len() <= MAX_CREDENTIAL
}

/// The bytes of a credential.
pub open spec fn credential_bytes(a: Seq<u8>, b: Seq<u8>) -> Seq<u8> {
    bytes::be16(a.len() as u16) + a + bytes::be16(b.len() as u16) + b
}

/// Refuse bytes that are no credential.
pub fn check_credential(bytes: &[u8]) -> (r: Result<(), FormatError>)
    ensures
        r == if credential_ok(bytes@) {
            Ok::<(), FormatError>(())
        } else {
            Err::<(), FormatError>(
                FormatError::BadFieldLength { tag: 0, len: bytes@.len() as usize },
            )
        },
{
    let bad = FormatError::BadFieldLength { tag: 0, len: bytes.len() };
    let ghost all = bytes@;
    if bytes.len() < 2 || bytes.len() > MAX_CREDENTIAL {
        proof {
            assert forall|a: Seq<u8>, b: Seq<u8>| #[trigger] credential_bytes(a, b)
                == all implies all.len() >= 4 by {
                bytes::be16_round_trip(a.len() as u16);
                bytes::be16_round_trip(b.len() as u16);
            }
        }
        return Err(bad);
    }
    let n: usize = read16be(part(bytes, 0, 2)) as usize;
    proof {
        assert forall|a: Seq<u8>, b: Seq<u8>|
            #[trigger] credential_bytes(a, b) == all && a.len() <= u16::MAX && b.len()
                <= u16::MAX implies a.len() == n && all.len() == 4 + n + b.len() && b.len()
            == bytes::num16be(all.subrange(2 + n, 4 + n)) by {
            bytes::be16_round_trip(a.len() as u16);
            bytes::be16_round_trip(b.len() as u16);
            assert(all.subrange(0, 2) =~= bytes::be16(a.len() as u16));
            assert(all.subrange(2 + n, 4 + n) =~= bytes::be16(b.len() as u16));
        }
    }
    if bytes.len() - 2 < n || bytes.len() - 2 - n < 2 {
        return Err(bad);
    }
    let m: usize = read16be(part(bytes, 2 + n, 4 + n)) as usize;
    if bytes.len() - 4 - n != m {
        return Err(bad);
    }
    proof {
        let a = all.subrange(2, 2 + n);
        let b = all.subrange(4 + n, all.len() as int);
        bytes::be16_of_num(all.subrange(0, 2));
        bytes::be16_of_num(all.subrange(2 + n, 4 + n));
        assert(credential_bytes(a, b) =~= all);
    }
    Ok(())
}

} // verus!
