//! How large the parts of the evidence may be.

use crate::attestation::{self, EvidenceView};
use crate::bytes;
use crate::tlv::{self, Rec};
use vstd::prelude::*;

verus! {

/// Intermediate certificates are accepted exactly where there are at most two, of one byte to
/// 8192 each.
pub proof fn certificates_that_are_accepted(certs: Seq<Seq<u8>>)
    ensures
        attestation::certs_fault(certs) is None <==> certs.len() <= 2 && (forall|i: int|
            0 <= i < certs.len() ==> 1 <= (#[trigger] certs[i]).len() <= 8192),
{
    no_certificate_at_fault(certs);
}

proof fn no_certificate_at_fault(certs: Seq<Seq<u8>>)
    ensures
        attestation::first_cert_fault(certs) is None <==> (forall|i: int|
            0 <= i < certs.len() ==> 1 <= (#[trigger] certs[i]).len() <= 8192),
    decreases certs.len(),
{
    if certs.len() > 0 {
        let rest = certs.drop_first();
        no_certificate_at_fault(rest);
        if attestation::first_cert_fault(certs) is None {
            assert forall|i: int| 0 <= i < certs.len() implies 1 <= (#[trigger] certs[i]).len()
                <= 8192 by {
                if i > 0 {
                    assert(rest[i - 1] == certs[i]);
                }
            }
        }
        if forall|i: int| 0 <= i < certs.len() ==> 1 <= (#[trigger] certs[i]).len() <= 8192 {
            assert(1 <= certs[0].len() <= 8192);
            assert forall|i: int| 0 <= i < rest.len() implies 1 <= (#[trigger] rest[i]).len()
                <= 8192 by {
                assert(rest[i] == certs[i + 1]);
            }
        }
    }
}

/// Evidence is accepted exactly where no part of it is empty or too large.
pub proof fn evidence_that_is_accepted(e: EvidenceView)
    ensures
        e.fault() is None <==> {
            &&& 1 <= e.ek_public.len() <= 1026
            &&& e.ek_certificate matches Some(c) ==> 1 <= c.len() && c.len() <= 8192
            &&& e.intermediates.len() <= 2
            &&& forall|i: int|
                0 <= i < e.intermediates.len() ==> 1 <= (#[trigger] e.intermediates[i]).len()
                    <= 8192
            &&& 1 <= e.identity_public.len() <= 1026
            &&& 1 <= e.attest.len() <= 1024
            &&& 1 <= e.signature.len() <= 600
            &&& 1 <= e.device_public.len() <= 1026
        },
        attestation::evidence_bytes(e) is Ok ==> e.fault() is None,
{
    certificates_that_are_accepted(e.intermediates);
}

/// Certificates stand one behind the other, each behind its length in two bytes, the most
/// significant first.
pub proof fn where_certificates_stand(c: Seq<u8>, a: Seq<Seq<u8>>, b: Seq<Seq<u8>>)
    ensures
        attestation::certs_bytes(Seq::empty()).len() == 0,
        attestation::certs_bytes(seq![c]) == bytes::be16(c.len() as u16) + c,
        attestation::certs_bytes(a + b) == attestation::certs_bytes(a) + attestation::certs_bytes(
            b,
        ),
    decreases a.len(),
{
    assert(seq![c].drop_first() =~= Seq::empty());
    assert(attestation::certs_bytes(Seq::<Seq<u8>>::empty()) =~= Seq::empty());
    assert(attestation::certs_bytes(seq![c]) =~= bytes::be16(c.len() as u16) + c);
    if a.len() == 0 {
        assert(a + b =~= b);
        assert(attestation::certs_bytes(a + b) =~= attestation::certs_bytes(a)
            + attestation::certs_bytes(b));
    } else {
        where_certificates_stand(c, a.drop_first(), b);
        assert((a + b).drop_first() =~= a.drop_first() + b);
        assert(attestation::certs_bytes(a + b) =~= attestation::certs_bytes(a)
            + attestation::certs_bytes(b));
    }
}

/// A credential is two parts, each behind its length in two bytes, the most significant first,
/// and nothing behind; in all at most 648 bytes.
pub proof fn credentials_that_are_accepted(b: Seq<u8>)
    ensures
        attestation::credential_ok(b) <==> {
            &&& 4 <= b.len() <= 648
            &&& {
                let n = bytes::num16be(b.subrange(0, 2)) as int;
                &&& 4 + n <= b.len()
                &&& b.len() == 4 + n + bytes::num16be(b.subrange(2 + n, 4 + n))
            }
        },
{
    broadcast use bytes::group_numbers;

    if attestation::credential_ok(b) {
        let (x, y) = choose|x: Seq<u8>, y: Seq<u8>| #[trigger]
            attestation::credential_bytes(x, y) == b && x.len() <= u16::MAX && y.len() <= u16::MAX
                && b.len() <= 648;
        bytes::be16_round_trip(x.len() as u16);
        bytes::be16_round_trip(y.len() as u16);
        let n = x.len() as int;
        assert(b.subrange(0, 2) =~= bytes::be16(x.len() as u16));
        assert(b.subrange(2 + n, 4 + n) =~= bytes::be16(y.len() as u16));
    }
    if 4 <= b.len() <= 648 {
        let n = bytes::num16be(b.subrange(0, 2)) as int;
        if 4 + n <= b.len() && b.len() == 4 + n + bytes::num16be(b.subrange(2 + n, 4 + n)) {
            let x = b.subrange(2, 2 + n);
            let y = b.skip(4 + n);
            bytes::be16_of_num(b.subrange(0, 2));
            bytes::be16_of_num(b.subrange(2 + n, 4 + n));
            assert(attestation::credential_bytes(x, y) =~= b);
        }
    }
}

/// A document is read exactly where its records are, and they hold what it needs.
pub proof fn documents_that_are_read(b: Seq<u8>)
    ensures
        attestation::evidence_of(b) is Ok <==> b.len() <= 1_048_576
            && (tlv::read(attestation::EvidenceSchema, b) matches Ok(rs)
                && attestation::evidence_in(rs) is Ok),
        b.len() <= 1_048_576 && tlv::read(attestation::EvidenceSchema, b) is Ok
            ==> attestation::evidence_of(b)
                == attestation::evidence_in(tlv::read(attestation::EvidenceSchema, b)->Ok_0),
{
}

/// Certificates that are read are one or two, of one byte to 8192 each, and are what was
/// written.
pub proof fn certificates_that_are_read(b: Seq<u8>)
    ensures
        attestation::certs_of(b) matches Ok(certs) ==> certs.len() > 0 && attestation::certs_fault(
            certs,
        ) is None && attestation::certs_bytes(certs) == b,
{
    if let Ok(certs) = attestation::certs_of(b) {
        certificates_from(b, 0, b.len());
        certificates_that_are_accepted(certs);
    }
}

proof fn certificates_from(b: Seq<u8>, taken: nat, whole: nat)
    requires
        attestation::certs_behind(b, taken, whole) is Ok,
        taken <= 2,
    ensures
        ({
            let certs = attestation::certs_behind(b, taken, whole)->Ok_0;
            &&& taken + certs.len() <= 2
            &&& b.len() > 0 ==> certs.len() > 0
            &&& b == attestation::certs_bytes(certs)
            &&& forall|i: int| 0 <= i < certs.len() ==> 1 <= (#[trigger] certs[i]).len() <= 8192
        }),
    decreases b.len(),
{
    let certs = attestation::certs_behind(b, taken, whole)->Ok_0;
    if b.len() == 0 {
        assert(b =~= attestation::certs_bytes(certs));
    } else {
        let len = bytes::num16be(b.subrange(0, 2)) as int;
        let tail = b.skip(2 + len);
        certificates_from(tail, taken + 1, whole);
        let rest = attestation::certs_behind(tail, taken + 1, whole)->Ok_0;
        assert(certs.drop_first() =~= rest);
        bytes::be16_of_num(b.subrange(0, 2));
        assert(b =~= attestation::certs_bytes(certs));
        assert forall|i: int| 0 <= i < certs.len() implies 1 <= (#[trigger] certs[i]).len()
            <= 8192 by {
            if i > 0 {
                assert(certs[i] == rest[i - 1]);
            }
        }
    }
}

/// Evidence is written exactly where it is accepted and its fields fit.
pub proof fn evidence_that_is_written(e: EvidenceView)
    ensures
        attestation::evidence_bytes(e) is Ok <==> e.fault() is None && tlv::sealed(e.recs()) is Ok,
        attestation::evidence_bytes(e) matches Ok(b) ==> b == tlv::wire(e.recs()),
{
}

/// Where the fields of evidence stand, and which of them have to be there.
pub proof fn where_the_fields_of_evidence_stand(rs: Seq<Rec>)
    ensures
        attestation::evidence_in(rs) matches Ok(v) ==> {
            &&& tlv::lookup(rs, 1) == Some(v.ek_public)
            &&& v.ek_certificate == tlv::lookup(rs, 2)
            &&& v.intermediates == match tlv::lookup(rs, 3) {
                Some(x) => attestation::certs_of(x)->Ok_0,
                None => Seq::empty(),
            }
            &&& tlv::lookup(rs, 4) == Some(v.identity_public)
            &&& tlv::lookup(rs, 5) == Some(v.attest)
            &&& tlv::lookup(rs, 6) == Some(v.signature)
            &&& tlv::lookup(rs, 7) == Some(v.device_public)
        },
        attestation::evidence_in(rs) is Ok <==> {
            &&& tlv::lookup(rs, 1) is Some
            &&& tlv::lookup(rs, 4) is Some
            &&& tlv::lookup(rs, 5) is Some
            &&& tlv::lookup(rs, 6) is Some
            &&& tlv::lookup(rs, 7) is Some
        },
{
}

} // verus!
