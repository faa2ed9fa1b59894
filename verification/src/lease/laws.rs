//! What a lease must hold to be accepted.

use crate::bytes;
use crate::error::FormatError;
use crate::lease::{self, Attestation, LeaseView};
use crate::tlv::{self, Rec, Schema};
use vstd::prelude::*;

verus! {

/// A lease of the first version has neither a policy of the server nor grounds, one of the
/// second has a policy and no grounds, and one of the third has grounds. There is no other.
pub proof fn what_a_version_holds(version: u16, policy: bool, attested: bool)
    ensures
        lease::version_fault(version, policy, attested) is None <==> {
            ||| version == 1 && !policy && !attested
            ||| version == 2 && policy && !attested
            ||| version == 3 && attested
        },
        version == 0 || version > 3 ==> lease::version_fault(version, policy, attested) == Some(
            FormatError::UnsupportedLeaseVersion { version },
        ),
        version == 1 && policy && !attested ==> lease::version_fault(version, policy, attested)
            == Some(FormatError::UnknownCriticalField { tag: 12 }),
        (version == 1 || version == 2) && attested ==> lease::version_fault(
            version,
            policy,
            attested,
        ) == Some(FormatError::UnknownCriticalField { tag: 13 }),
        version == 2 && !policy && !attested ==> lease::version_fault(version, policy, attested)
            == Some(FormatError::MissingField { tag: 12 }),
        version == 3 && !attested ==> lease::version_fault(version, policy, attested) == Some(
            FormatError::MissingField { tag: 13 },
        ),
{
}

/// A lease is written under the one version that may hold what it holds.
pub proof fn a_lease_is_written_under_its_version(l: LeaseView)
    ensures
        lease::version_fault(l.version(), l.facts.server_policy is Some, l.facts.attested is Some)
            is None,
        1 <= l.version() <= 3,
        l.facts.attested is None && l.facts.server_policy is None ==> l.version() == 1,
        l.facts.attested is None && l.facts.server_policy is Some ==> l.version() == 2,
        l.facts.attested is Some ==> l.version() == 3,
{
}

/// The status is one byte, one for active and two for revoked; the grounds are one byte, one
/// for a certificate of the maker and two for an enrolled key; a limit is four bytes, or none
/// where there is no limit.
pub proof fn values_of_single_fields(tag: u16, v: Seq<u8>, known: bool, n: u8)
    ensures
        lease::status_is_known(n) <==> n == 1 || n == 2,
        lease::byte_fault(tag, v, known) is None <==> v.len() == 1 && known,
        lease::limit_fault(v) is None <==> v.len() == 0 || v.len() == 4,
        Attestation::VendorCertificate.number() == 1 && Attestation::EnrolledEk.number() == 2,
        match Attestation::numbered(n) {
            Some(a) => a.number() == n,
            None => n == 0 || n > 2,
        },
{
}

/// A lease opens exactly where it has a signature, that holds, and what is behind it is a lease.
pub proof fn leases_that_are_opened(b: Seq<u8>, signed: bool, policy: Option<FormatError>)
    ensures
        b.len() >= 64 && signed ==> lease::opened_lease(b, signed, policy) == lease::lease_of(
            b.skip(64),
            policy,
        ),
        b.len() < 64 || !signed ==> lease::opened_lease(b, signed, policy) == Err::<
            LeaseView,
            FormatError,
        >(FormatError::BadHeaderSignature),
{
}

/// A lease whose policy the codec refuses is not read, and one without a policy is read
/// whatever the codec says.
pub proof fn a_refused_policy_refuses_the_lease(body: Seq<u8>, e: FormatError)
    ensures
        lease::lease_of(body, None) matches Ok(l) ==> (l.facts.server_policy is Some
            ==> lease::lease_of(body, Some(e)) is Err) && (l.facts.server_policy is None
            ==> lease::lease_of(body, Some(e)) == Ok::<LeaseView, FormatError>(l)),
{
    let open = lease::LeaseSchema { policy: None };
    let shut = lease::LeaseSchema { policy: Some(e) };
    let (rs, torn) = tlv::scan(body, None);
    tlv::scan_ascends(body);
    tlv::laws::what_stands_under_a_tag(rs, 12);
    tlv::laws::the_first_objection_decides(open, rs);
    tlv::laws::the_first_objection_decides(shut, rs);
    if let Ok(l) = lease::lease_of(body, None) {
        if let Some(p) = l.facts.server_policy {
            assert(rs.contains((12u16, p)));
            let i = rs.index_of((12u16, p));
            assert(shut.fault(rs[i].0, rs[i].1) is Some);
        } else {
            assert forall|i: int| 0 <= i < rs.len() implies shut.fault(
                (#[trigger] rs[i]).0,
                rs[i].1,
            ) is None by {
                assert(rs[i].0 != 12);
                assert(open.fault(rs[i].0, rs[i].1) is None);
            }
        }
    }
}

/// A document is read exactly where its records are, and they hold what it needs.
pub proof fn documents_that_are_read(b: Seq<u8>, policy: Option<FormatError>)
    ensures
        lease::lease_of(b, policy) is Ok <==> (
            tlv::read(lease::LeaseSchema { policy }, b) matches Ok(rs)
                && lease::lease_in(rs) is Ok
        ),
        tlv::read(lease::LeaseSchema { policy }, b) matches Ok(rs)
            ==> lease::lease_of(b, policy) == lease::lease_in(rs),
{
}

/// Where the fields of a lease stand, and which of them have to be there.
pub proof fn where_the_fields_of_a_lease_stand(rs: Seq<Rec>)
    ensures
        lease::lease_in(rs) matches Ok(v) ==> {
            &&& tlv::lookup(rs, 2) == Some(v.file_id)
            &&& tlv::lookup(rs, 3) == Some(v.facts.device_fingerprint)
            &&& tlv::lookup(rs, 4) == Some(v.facts.policy_hash)
            &&& tlv::lookup(rs, 5) matches Some(b) && v.facts.seq == bytes::num64(b)
            &&& tlv::lookup(rs, 6) matches Some(b) && v.facts.epoch == bytes::num64(b)
            &&& tlv::lookup(rs, 7) matches Some(b) && v.facts.issued_at.0 == bytes::num64s(b)
            &&& tlv::lookup(rs, 8) matches Some(b) && v.facts.expires_at.0 == bytes::num64s(b)
            &&& v.facts.opens_remaining == if tlv::lookup(rs, 10)->0.len() == 0 {
                None
            } else {
                Some(bytes::num32(tlv::lookup(rs, 10)->0))
            }
            &&& tlv::lookup(rs, 9) matches Some(b) && (v.facts.revoked <==> b[0] == 2)
            &&& v.facts.tpm_clock == match tlv::lookup(rs, 11) {
                Some(x) => Some(lease::clock_of(x)),
                None => None,
            }
            &&& v.facts.server_policy == tlv::lookup(rs, 12)
            &&& v.facts.attested == match tlv::lookup(rs, 13) {
                Some(x) => Attestation::numbered(x[0]),
                None => None,
            }
            &&& tlv::lookup(rs, 1) is Some
            &&& tlv::lookup(rs, 10) is Some
        },
        lease::lease_in(rs) is Ok <==> {
            &&& tlv::lookup(rs, 1) is Some
            &&& tlv::lookup(rs, 2) is Some
            &&& tlv::lookup(rs, 3) is Some
            &&& tlv::lookup(rs, 4) is Some
            &&& tlv::lookup(rs, 5) is Some
            &&& tlv::lookup(rs, 6) is Some
            &&& tlv::lookup(rs, 7) is Some
            &&& tlv::lookup(rs, 8) is Some
            &&& tlv::lookup(rs, 9) is Some
            &&& tlv::lookup(rs, 10) is Some
            &&& lease::version_fault(
                bytes::num16(tlv::lookup(rs, 1)->0),
                tlv::lookup(rs, 12) is Some,
                tlv::lookup(rs, 13) is Some,
            ) is None
        },
{
}

} // verus!
