//! The directory of keys.

use oc_protocol::directory::{
    decode_lookup_request, decode_page, encode_lookup_request, encode_page, page_parts, tag,
    KeyState, Lookup,
    LookupError, Record, MAX_PAGE,
};
use oc_protocol::error::FormatError;
use oc_protocol::kem::{device_fpr, KemAlg, XWING_PUBLIC_LEN};
use oc_protocol::transcript::Label;
use oc_protocol::witness::{Log, SignedHead, SIGNED_HEAD_LEN};

/// What is signed: a label that tells documents apart, and a body.
struct Transcript {
    label: &'static str,
    body: Vec<u8>,
}

fn transcript(label: &'static str, body: &[u8]) -> Transcript {
    Transcript { label, body: body.to_vec() }
}

/// A keyed checksum in the place of a signature: it shows which key and which bytes a
/// signature was made with.
#[derive(Clone, Copy)]
struct Signer {
    key: [u8; 32],
}

impl Signer {
    fn from_seed(seed: &[u8; 32]) -> Signer {
        let mut key = *seed;
        for byte in key.iter_mut() {
            *byte = byte.wrapping_mul(5).wrapping_add(3);
        }
        Signer { key }
    }

    fn public_key(&self) -> [u8; 32] {
        self.key
    }

    fn sign(&self, t: &Transcript) -> Result<[u8; 64], ()> {
        let mut out = [0u8; 64];
        for lane in 0..8u64 {
            let mut sum = 0xcbf2_9ce4_8422_2325u64.wrapping_add(lane.wrapping_mul(0x9e37_79b9));
            for byte in self.key.iter().chain(t.label.as_bytes()).chain(&[0]).chain(&t.body) {
                sum = (sum ^ u64::from(*byte)).wrapping_mul(0x0100_0000_01b3);
                sum ^= sum >> 29;
            }
            let at = lane as usize * 8;
            out[at..at + 8].copy_from_slice(&sum.to_le_bytes());
        }
        Ok(out)
    }
}

/// Whether a signature holds under a key.
fn holds(key: &[u8; 32], t: &Transcript, signature: &[u8]) -> bool {
    Signer { key: *key }.sign(t).unwrap().as_slice() == signature
}

fn label(log: Log) -> &'static str {
    match log {
        Log::Journal => "journal",
        Log::Directory => "directory",
    }
}

fn head_bytes(size: u64, root: &[u8; 32]) -> Vec<u8> {
    let mut out = size.to_le_bytes().to_vec();
    out.extend_from_slice(root);
    out
}

/// The first half of a checksum, in the place of a hash.
fn half(label: &'static str, bytes: &[u8]) -> [u8; 32] {
    let sum = Signer::from_seed(&[0; 32]).sign(&transcript(label, bytes)).unwrap();
    let mut out = [0u8; 32];
    out.copy_from_slice(&sum[..32]);
    out
}

fn leaf(record: &[u8]) -> [u8; 32] {
    let t = Record::leaf_transcript(record);
    assert_eq!(t.label, Label::DirectoryEntry);
    half("leaf", &t.body)
}

fn node(a: &[u8; 32], b: &[u8; 32]) -> [u8; 32] {
    half("node", &[a.as_slice(), b.as_slice()].concat())
}

/// Whether the path leads from the record to the root, in a log of three.
fn leads(lookup: &Lookup) -> bool {
    let at = leaf(&lookup.record);
    let path = &lookup.path;
    let root = match (lookup.index, path.len()) {
        (0, 2) => node(&node(&at, &path[0]), &path[1]),
        (1, 2) => node(&node(&path[0], &at), &path[1]),
        (2, 1) => node(&path[0], &at),
        _ => return false,
    };
    root == lookup.head.root
}

fn check(lookup: &Lookup, key: &[u8; 32], tenant: &str, name: &str) -> Result<Record, LookupError> {
    let head = &lookup.head;
    let signed = holds(
        key,
        &transcript(label(Log::Directory), &head_bytes(head.size, &head.root)),
        &head.sig,
    );
    lookup.verify(signed, leads(lookup), None, tenant, name)
}

fn record(name: &str, key: u8, version: u64) -> Record {
    Record::new(
        "acme",
        name,
        KemAlg::X25519HkdfSha256,
        &[key; 32],
        version,
        KeyState::Active,
        "отдел кадров",
        1_800_000_000,
        None,
    )
        .unwrap()
}

#[test]
fn a_record_round_trips_and_its_fingerprint_is_recomputed() {
    let r = record("Пётр", 7, 1);
    let bytes = r.encode(None).unwrap();
    assert_eq!(Record::decode(&bytes, None).unwrap(), r);
    assert_eq!(r.fpr, [7; 32], "у X25519 отпечаток и есть ключ");
    let mut forged = r.clone();
    forged.fpr = [8; 32];
    assert!(forged.encode(None).is_err());
    let mut raw = bytes.clone();
    let at = raw.windows(32).position(|w| w == [7; 32]).unwrap();
    let fpr_at = raw[at + 32..].windows(32).position(|w| w == [7; 32]).unwrap() + at + 32;
    raw[fpr_at] ^= 1;
    assert!(Record::decode(&raw, None).is_err(), "отпечаток, не равный отпечатку ключа, принят");
    assert!(Record::decode(&bytes[..bytes.len() - 1], None).is_err());
    let mut longer = bytes.clone();
    longer.extend_from_slice(&10u16.to_le_bytes());
    longer.extend_from_slice(&0u32.to_le_bytes());
    assert!(Record::decode(&longer, None).is_err());
    assert!(
        Record::new(
            "ACME",
            "Пётр",
            KemAlg::X25519HkdfSha256,
            &[1; 32],
            1,
            KeyState::Active,
            "о",
            0,
            None,
        ).is_err(),
    );
    assert!(
        Record::new(
            "acme",
            "Пётр\u{202e}",
            KemAlg::X25519HkdfSha256,
            &[1; 32],
            1,
            KeyState::Active,
            "о",
            0,
            None,
        ).is_err(),
    );
    assert!(
        Record::new(
            "acme",
            "Пётр",
            KemAlg::X25519HkdfSha256,
            &[1; 31],
            1,
            KeyState::Active,
            "о",
            0,
            None,
        ).is_err(),
    );
    assert!(
        Record::new(
            "acme",
            "Пётр",
            KemAlg::RsaOaepSha256,
            &[1; 32],
            1,
            KeyState::Active,
            "о",
            0,
            None,
        ).is_err(),
    );
    assert!(
        Record::new(
            "acme",
            "Пётр",
            KemAlg::X25519HkdfSha256,
            &[1; 32],
            0,
            KeyState::Active,
            "о",
            0,
            None,
        ).is_err(),
    );
    assert_ne!(leaf(&bytes), leaf(&record("Пётр", 7, 2).encode(None).unwrap()));
}

#[test]
fn a_lookup_proves_only_the_asked_entry_in_the_signed_head() {
    let server = Signer::from_seed(&[1; 32]);
    let records: Vec<Vec<u8>> = ["Анна", "Пётр", "Ольга"]
        .iter()
        .enumerate()
        .map(|(i, n)| record(n, i as u8 + 1, 1).encode(None).unwrap())
        .collect();
    let leaves: Vec<[u8; 32]> = records.iter().map(|r| leaf(r)).collect();
    let root = node(&node(&leaves[0], &leaves[1]), &leaves[2]);
    let sig = server.sign(&transcript(label(Log::Directory), &head_bytes(3, &root))).unwrap();
    let head = SignedHead { size: 3, root, sig };
    let path = vec![leaves[0], leaves[2]];
    let lookup = Lookup { head, index: 1, record: records[1].clone(), path };
    let back = Lookup::decode(&lookup.encode().unwrap()).unwrap();
    assert_eq!(back, lookup);
    let key = server.public_key();
    assert_eq!(check(&back, &key, "acme", "Пётр").unwrap().fpr, [2; 32]);
    assert_eq!(check(&back, &key, "acme", "Анна"), Err(LookupError::OtherEntry));
    assert_eq!(check(&back, &key, "beta", "Пётр"), Err(LookupError::OtherEntry));
    assert_eq!(check(&back, &[9; 32], "acme", "Пётр"), Err(LookupError::ServerSignature));
    let mut journal_head = back.clone();
    journal_head.head.sig = server.sign(
        &transcript(label(Log::Journal), &head_bytes(3, &root)),
    ).unwrap();
    assert_eq!(check(&journal_head, &key, "acme", "Пётр"), Err(LookupError::ServerSignature));
    let mut swapped = back.clone();
    swapped.record = record("Пётр", 9, 1).encode(None).unwrap();
    assert_eq!(check(&swapped, &key, "acme", "Пётр"), Err(LookupError::NotIncluded));
    let mut moved = back.clone();
    moved.index = 2;
    assert_eq!(check(&moved, &key, "acme", "Пётр"), Err(LookupError::NotIncluded));
    let bytes = lookup.encode().unwrap();
    assert!(Lookup::decode(&bytes[..bytes.len() - 1]).is_err());
    assert!(Lookup::decode(&[bytes.as_slice(), &[0]].concat()).is_err());
}

#[test]
fn requests_and_pages_are_strict() {
    let req = encode_lookup_request("acme", "Пётр", 5).unwrap();
    assert_eq!(decode_lookup_request(&req).unwrap(), ("acme".to_owned(), "Пётр".to_owned(), 5));
    assert!(decode_lookup_request(&req[..req.len() - 1]).is_err());
    assert!(decode_lookup_request(&[req.as_slice(), &[0]].concat()).is_err());
    assert!(encode_lookup_request("Acme", "Пётр", 0).is_err());
    let page = encode_page(
        &vec![record("Анна", 1, 1).encode(None).unwrap(), record("Анна", 2, 2).encode(None).unwrap()],
    ).unwrap();
    assert_eq!(decode_page(&page, &[]).unwrap().len(), 2);
    assert!(decode_page(&page[..page.len() - 1], &[]).is_err());
    assert_eq!(decode_page(&[], &[]).unwrap().len(), 0);
}

#[test]
fn a_long_key_is_known_by_its_hash() {
    let public = vec![6; XWING_PUBLIC_LEN];
    assert_eq!(device_fpr(KemAlg::XWing, &public, Some([4; 32])), Some([4; 32]));
    assert_eq!(device_fpr(KemAlg::XWing, &public, None), None);
    let make = |hashed: Option<[u8; 32]>| {
        Record::new("acme", "Пётр", KemAlg::XWing, &public, 1, KeyState::Active, "о", 0, hashed)
    };
    assert!(make(None).is_err());
    let r = make(Some([4; 32])).unwrap();
    assert_eq!(r.fpr, [4; 32]);
    let bytes = r.encode(Some([4; 32])).unwrap();
    assert_eq!(Record::key_in(&bytes), Some((4, public)));
    assert_eq!(Record::decode(&bytes, Some([4; 32])).unwrap(), r);
    assert!(Record::decode(&bytes, Some([5; 32])).is_err());
    assert!(r.encode(Some([5; 32])).is_err());
}

#[test]
fn an_unknown_state_or_mechanism_is_refused() {
    let bytes = record("Пётр", 7, 1).encode(None).unwrap();
    let set = |t: u16, v: u8| {
        let head = [t.to_le_bytes().as_slice(), 1u32.to_le_bytes().as_slice()].concat();
        let at = bytes.windows(6).position(|w| w == head.as_slice()).unwrap() + 6;
        let mut raw = bytes.clone();
        raw[at] = v;
        Record::decode(&raw, None)
    };
    assert_eq!(set(tag::STATE, 2), Err(FormatError::BadFieldLength { tag: tag::STATE, len: 1 }));
    assert_eq!(set(tag::KEM, 9), Err(FormatError::UnknownCriticalField { tag: tag::KEM }));
    assert_eq!(set(tag::STATE, 1).unwrap().state, KeyState::Withdrawn);
}

#[test]
fn a_page_has_a_limit() {
    let one = record("Анна", 1, 1).encode(None).unwrap();
    let full = vec![one.clone(); MAX_PAGE as usize];
    assert_eq!(decode_page(&encode_page(&full).unwrap(), &[]).unwrap().len(), MAX_PAGE as usize);
    let over = vec![one; MAX_PAGE as usize + 1];
    assert!(encode_page(&over).is_err());
}

#[test]
fn a_signed_head_round_trips() {
    let head = SignedHead { size: 3, root: [1; 32], sig: [2; 64] };
    let bytes = head.encode();
    assert_eq!(bytes.len(), SIGNED_HEAD_LEN);
    assert_eq!(bytes[..8], 3u64.to_le_bytes());
    assert_eq!(SignedHead::decode(&bytes), Ok(head));
    assert!(SignedHead::decode(&bytes[1..]).is_err());
}

#[test]
fn every_refused_lookup_names_a_reason() {
    for e in [
        LookupError::ServerSignature,
        LookupError::Malformed,
        LookupError::OtherEntry,
        LookupError::NotIncluded,
    ] {
        assert!(e.text().len() > 20);
    }
}

#[test]
fn a_page_is_parted_before_it_is_read() {
    let records: Vec<Vec<u8>> = (1..4)
        .map(|n| record(&format!("member {}", n), n, 1).encode(None).unwrap())
        .collect();
    let page = encode_page(&records).unwrap();
    assert_eq!(page_parts(&page), records);
    assert_eq!(decode_page(&page, &[]).unwrap(), records);
    assert_eq!(page_parts(&page[..page.len() - 1]), records[..2]);
    assert!(page_parts(&[1, 0, 0]).is_empty());
    assert!(page_parts(&[]).is_empty());
}
