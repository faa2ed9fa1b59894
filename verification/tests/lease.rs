//! Leases.

use oc_protocol::error::FormatError;
use oc_protocol::lease::{
    claim, decode, encode, policy_in, signing_transcript, tag, verify_signed,
    Attestation, Lease, LeaseFacts,
    Timestamp, TpmClock, SIGNATURE_LEN,
};
use oc_protocol::tlv::{TlvReader, TlvWriter};
use oc_protocol::transcript::{Label, Transcript};

fn sample() -> Lease {
    Lease {
        file_id: [0x11; 16],
        facts: LeaseFacts {
            device_fingerprint: [0x22; 32],
            policy_hash: [0x33; 32],
            seq: 7,
            epoch: 2,
            issued_at: Timestamp(1_700_000_000),
            expires_at: Timestamp(1_700_086_400),
            opens_remaining: Some(5),
            revoked: false,
            tpm_clock: Some(TpmClock { reset_count: 3, clock_ms: 123_456 }),
            server_policy: None,
            attested: None,
        },
    }
}

#[test]
fn a_lease_round_trips_through_encode_and_decode() {
    let body = encode(&sample()).unwrap();
    assert_eq!(decode(&body, None).unwrap(), sample());
}

#[test]
fn an_empty_open_limit_differs_from_a_missing_one() {
    let mut l = sample();
    l.facts.opens_remaining = None;
    let body = encode(&l).unwrap();
    assert_eq!(decode(&body, None).unwrap().facts.opens_remaining, None);

    let mut w = TlvWriter::new();
    for field in fields_of(&body) {
        if field.0 != tag::OPENS_REMAINING {
            w.put(field.0, &field.1).unwrap();
        }
    }
    assert!(
        matches!(
            decode(&w.finish(), None),
            Err(FormatError::MissingField { tag: tag::OPENS_REMAINING })
        ),
        "отсутствующее поле принято за пустое"
    );
}

#[test]
fn an_unknown_status_is_refused_rather_than_guessed() {
    let body = rebuild_with(&encode(&sample()).unwrap(), tag::STATUS, &[9]);
    assert!(decode(&body, None).is_err(), "состояние из будущей версии принято");
}

#[test]
fn a_revoked_lease_decodes_as_revoked() {
    let mut l = sample();
    l.facts.revoked = true;
    let body = encode(&l).unwrap();
    assert!(decode(&body, None).unwrap().facts.revoked);
}

#[test]
fn an_unknown_critical_tag_is_refused_and_an_optional_one_is_skipped() {
    let base = encode(&sample()).unwrap();

    let mut w = TlvWriter::new();
    for (t, v) in fields_of(&base) {
        w.put(t, &v).unwrap();
    }
    w.put(0x7FFF, &[1, 2, 3]).unwrap();
    assert!(
        matches!(decode(&w.finish(), None), Err(FormatError::UnknownCriticalField { .. })),
        "критичный тег из будущей версии пропущен молча"
    );

    let mut w = TlvWriter::new();
    for (t, v) in fields_of(&base) {
        w.put(t, &v).unwrap();
    }
    w.put(0x8000, &[1, 2, 3]).unwrap();
    assert_eq!(decode(&w.finish(), None).unwrap(), sample(), "необязательный тег не пропущен");
}

#[test]
fn a_lease_of_another_version_is_refused() {
    let body = rebuild_with(&encode(&sample()).unwrap(), tag::VERSION, &2u16.to_le_bytes());
    assert!(decode(&body, None).is_err(), "лизинг чужой версии принят");
}

fn fields_of(body: &[u8]) -> Vec<(u16, Vec<u8>)> {
    let mut reader = TlvReader::new(body);
    let mut out = Vec::new();
    while let Some(f) = reader.next_field().unwrap() {
        out.push((f.tag, f.value.to_vec()));
    }
    out
}

fn rebuild_with(body: &[u8], tag: u16, value: &[u8]) -> Vec<u8> {
    let mut w = TlvWriter::new();
    for (t, v) in fields_of(body) {
        if t == tag {
            w.put(t, value).unwrap();
        } else {
            w.put(t, &v).unwrap();
        }
    }
    w.finish().to_vec()
}

#[test]
fn the_bytes_of_a_lease_are_fixed() {
    let fields = fields_of(&encode(&sample()).unwrap());
    let tags: Vec<u16> = fields.iter().map(|f| f.0).collect();
    assert_eq!(tags, (1..=11).collect::<Vec<u16>>());
    assert_eq!(fields[0].1, vec![1, 0]);
    assert_eq!(fields[4].1, 7u64.to_le_bytes().to_vec());
    assert_eq!(fields[6].1, 1_700_000_000i64.to_le_bytes().to_vec());
    assert_eq!(fields[8].1, vec![1]);
    assert_eq!(fields[9].1, 5u32.to_le_bytes().to_vec());
    assert_eq!(fields[10].1, vec![3, 0, 0, 0, 0x40, 0xe2, 1, 0, 0, 0, 0, 0]);
}

#[test]
fn the_version_follows_what_the_lease_holds() {
    let mut l = sample();
    l.facts.server_policy = Some(vec![1, 2, 3]);
    let second = encode(&l).unwrap();
    assert_eq!(fields_of(&second)[0].1, vec![2, 0]);
    assert_eq!(decode(&second, None).unwrap(), l);
    l.facts.attested = Some(Attestation::EnrolledEk);
    let third = encode(&l).unwrap();
    assert_eq!(fields_of(&third)[0].1, vec![3, 0]);
    assert_eq!(decode(&third, None).unwrap(), l);
    l.facts.server_policy = None;
    l.facts.attested = Some(Attestation::VendorCertificate);
    assert_eq!(decode(&encode(&l).unwrap(), None).unwrap(), l);
}

#[test]
fn a_version_that_does_not_suit_the_fields_is_refused() {
    let mut l = sample();
    let version = |body: &[u8], v: u16| decode(
        &rebuild_with(body, tag::VERSION, &v.to_le_bytes()),
        None,
    );
    let plain = encode(&l).unwrap();
    assert_eq!(version(&plain, 2), Err(FormatError::MissingField { tag: tag::SERVER_POLICY }));
    assert_eq!(version(&plain, 3), Err(FormatError::MissingField { tag: tag::ATTESTED }));
    assert_eq!(version(&plain, 4), Err(FormatError::UnsupportedLeaseVersion { version: 4 }));
    l.facts.server_policy = Some(vec![9]);
    let tight = encode(&l).unwrap();
    assert_eq!(
        version(&tight, 1),
        Err(FormatError::UnknownCriticalField { tag: tag::SERVER_POLICY })
    );
    l.facts.attested = Some(Attestation::EnrolledEk);
    let attested = encode(&l).unwrap();
    assert_eq!(
        version(&attested, 2),
        Err(FormatError::UnknownCriticalField { tag: tag::ATTESTED }),
    );
    assert_eq!(
        decode(&rebuild_with(&attested, tag::ATTESTED, &[9]), None),
        Err(FormatError::BadFieldLength { tag: tag::ATTESTED, len: 1 })
    );
}

#[test]
fn a_policy_that_its_codec_refuses_refuses_the_lease() {
    let mut l = sample();
    l.facts.server_policy = Some(vec![9]);
    let body = encode(&l).unwrap();
    let why = FormatError::MissingField { tag: 77 };
    assert_eq!(decode(&body, Some(why)), Err(why));
    assert_eq!(decode(&encode(&sample()).unwrap(), Some(why)).unwrap(), sample());
}

#[test]
fn numbers_of_a_wrong_length_are_refused() {
    let base = encode(&sample()).unwrap();
    assert_eq!(
        decode(&rebuild_with(&base, tag::SEQ, &[1; 7]), None),
        Err(FormatError::BadFieldLength { tag: 0, len: 7 })
    );
    assert_eq!(
        decode(&rebuild_with(&base, tag::OPENS_REMAINING, &[1; 3]), None),
        Err(FormatError::BadFieldLength { tag: 0, len: 3 })
    );
    assert_eq!(
        decode(&rebuild_with(&base, tag::TPM_CLOCK, &[1; 13]), None),
        Err(FormatError::BadFieldLength { tag: tag::TPM_CLOCK, len: 13 })
    );
    assert_eq!(
        decode(&rebuild_with(&base, tag::STATUS, &[9]), None),
        Err(FormatError::BadFieldLength { tag: tag::STATUS, len: 1 })
    );
}

#[test]
fn nothing_is_read_of_an_unsigned_lease() {
    let mut bytes = vec![7u8; SIGNATURE_LEN];
    bytes.extend_from_slice(&encode(&sample()).unwrap());
    assert_eq!(verify_signed(&bytes, true, None).unwrap(), sample());
    assert_eq!(verify_signed(&bytes, false, None), Err(FormatError::BadHeaderSignature));
    assert_eq!(
        verify_signed(&bytes[..SIGNATURE_LEN - 1], true, None),
        Err(FormatError::BadHeaderSignature)
    );
    let broken = vec![7u8; SIGNATURE_LEN + 1];
    assert_eq!(verify_signed(&broken, false, None), Err(FormatError::BadHeaderSignature));
    assert_eq!(
        verify_signed(&broken, true, None),
        Err(FormatError::Truncated { need: 6, have: 1 })
    );
}

/// A keyed checksum in the place of a signature.
fn checksum(key: &[u8; 32], t: &Transcript) -> [u8; 64] {
    let label = format!("{:?}", t.label);
    let mut out = [0u8; 64];
    for lane in 0..8u64 {
        let mut sum = 0xcbf2_9ce4_8422_2325u64.wrapping_add(lane.wrapping_mul(0x9e37_79b9));
        for byte in key.iter().chain(label.as_bytes()).chain(&[0]).chain(&t.body) {
            sum = (sum ^ u64::from(*byte)).wrapping_mul(0x0100_0000_01b3);
            sum ^= sum >> 29;
        }
        let at = lane as usize * 8;
        out[at..at + 8].copy_from_slice(&sum.to_le_bytes());
    }
    out
}

fn verify(key: &[u8; 32], t: &Transcript, sig: &[u8; 64]) -> Result<(), ()> {
    if checksum(key, t) == *sig {
        Ok(())
    } else {
        Err(())
    }
}

#[test]
fn different_bodies_give_different_transcripts() {
    let a = signing_transcript(b"body");
    let b = signing_transcript(b"bodz");
    let key = [0x11u8; 32];
    let sig = [0u8; 64];
    assert!(verify(&key, &a, &sig).is_err());
    assert!(verify(&key, &b, &sig).is_err());
    assert_ne!(a, b);
    assert_eq!(a, Transcript { label: Label::Lease, body: b"body".to_vec() });
}

#[test]
fn a_lease_is_checked_over_its_whole_body() {
    let key = [0x11u8; 32];
    let body = encode(&sample()).unwrap();
    let mut bytes = checksum(&key, &signing_transcript(&body)).to_vec();
    bytes.extend_from_slice(&body);
    let made = claim(&bytes, &key).unwrap();
    assert_eq!(made.key, key);
    assert_eq!(made.transcript, signing_transcript(&body));
    assert!(verify(&made.key, &made.transcript, &made.signature).is_ok());
    assert_eq!(verify_signed(&bytes, true, None).unwrap(), sample());

    bytes[70] ^= 1;
    let made = claim(&bytes, &key).unwrap();
    assert!(verify(&made.key, &made.transcript, &made.signature).is_err());
    assert_eq!(verify_signed(&bytes, false, None), Err(FormatError::BadHeaderSignature));

    assert_eq!(claim(&bytes[..63], &key), Err(FormatError::BadHeaderSignature));
}

#[test]
fn the_policy_is_told_before_the_lease_is_read() {
    let mut l = sample();
    l.facts.server_policy = Some(vec![1, 2, 3]);
    let body = encode(&l).unwrap();
    assert_eq!(policy_in(&body), Some(vec![1, 2, 3]));
    assert_eq!(policy_in(&encode(&sample()).unwrap()), None);
    assert_eq!(decode(&body, None).unwrap(), l);
    let why = FormatError::MissingField { tag: 77 };
    assert_eq!(decode(&body, Some(why)), Err(why));
    assert_eq!(decode(&encode(&sample()).unwrap(), Some(why)).unwrap(), sample());
}
