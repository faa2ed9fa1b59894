//! Evidence of a device key, and credentials.

use oc_protocol::attestation::{
    check_credential, decode_evidence, encode_evidence, evidence_tag, Evidence, MAX_ATTEST,
};
use oc_protocol::error::FormatError;
use oc_protocol::tlv::TlvWriter;

fn sample() -> Evidence {
    Evidence {
        ek_public: vec![1; 316],
        ek_certificate: Some(vec![2; 900]),
        intermediates: vec![vec![3; 800], vec![4; 700]],
        identity_public: vec![5; 282],
        attest: vec![6; 173],
        signature: vec![7; 262],
        device_public: vec![8; 90],
    }
}

#[test]
fn evidence_round_trips_with_and_without_optional_fields() {
    let full = sample();
    assert_eq!(decode_evidence(&encode_evidence(&full).unwrap()).unwrap(), full);
    let bare = Evidence { ek_certificate: None, intermediates: vec![], ..sample() };
    assert_eq!(decode_evidence(&encode_evidence(&bare).unwrap()).unwrap(), bare);
}

#[test]
fn evidence_limits_are_enforced_both_ways() {
    let three = Evidence { intermediates: vec![vec![3; 10]; 3], ..sample() };
    assert!(encode_evidence(&three).is_err());
    let long = Evidence { attest: vec![0; MAX_ATTEST + 1], ..sample() };
    assert!(encode_evidence(&long).is_err());
    let empty = Evidence { signature: vec![], ..sample() };
    assert!(encode_evidence(&empty).is_err());

    let bytes = encode_evidence(
        &Evidence { intermediates: vec![vec![3; 10]; 2], ..sample() },
    ).unwrap();
    let mut w = TlvWriter::new();
    let mut chain = Vec::new();
    for _ in 0..3 {
        chain.extend_from_slice(&10u16.to_be_bytes());
        chain.extend_from_slice(&[3; 10]);
    }
    w.put(evidence_tag::EK_PUBLIC, &[1; 4]).unwrap();
    w.put(evidence_tag::INTERMEDIATES, &chain).unwrap();
    assert!(decode_evidence(&w.finish()).is_err());
    assert!(decode_evidence(&bytes[..bytes.len() - 1]).is_err());
    let mut tail = bytes;
    tail.push(0);
    assert!(decode_evidence(&tail).is_err());
}

#[test]
fn a_credential_must_be_exactly_two_sized_fields() {
    let mut good = vec![0, 2, 9, 9, 0, 3, 1, 2, 3];
    assert!(check_credential(&good).is_ok());
    good.push(0);
    assert!(check_credential(&good).is_err());
    assert!(check_credential(&[0, 2, 9, 9, 0, 3, 1, 2]).is_err());
    assert!(check_credential(&[]).is_err());
}

#[test]
fn evidence_without_a_required_field_is_refused() {
    let mut w = TlvWriter::new();
    w.put(evidence_tag::EK_PUBLIC, &[1; 4]).unwrap();
    assert_eq!(
        decode_evidence(&w.finish()),
        Err(FormatError::MissingField { tag: evidence_tag::IDENTITY_PUBLIC })
    );
}
