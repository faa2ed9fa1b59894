//! Grants for agents, delegations, and chains of them.

use oc_protocol::access::Blob;
use oc_protocol::action;
use oc_protocol::action::{
    grant_body as action_grant_body, ActionGrant, ActionKind, ActionRefusal, ActionRule,
    Constraint, Method,
};
use oc_protocol::agent;
use oc_protocol::agent::{
    delegation_body, delegation_claim, delegation_tightening_in, delegation_transcript,
    encode_delegation, encode_grant, entry_tag, grant_body, grant_claim, grant_tightening_in,
    grant_transcript, link_tag, narrow_actions, tag,
    AgentGrant, ChainFacts, ChainRefusal, Checked, Delegation, Entry, MAX_GRANT_DEPTH,
    MAX_GRANT_FILES, SIGNATURE_LEN,
};
use oc_protocol::error::FormatError;
use oc_protocol::kem::{device_fpr, KemAlg};
use oc_protocol::tlv::{TlvReader, TlvWriter};
use oc_protocol::transcript::{Claim, Transcript};

/// A keyed checksum in the place of a signature: it shows which key and which bytes a
/// signature was made with.
#[derive(Clone, Copy)]
struct Signer {
    key: [u8; 32],
}

impl Signer {
    fn from_seed(seed: &[u8; 32]) -> Signer {
        let mut key = *seed;
        for byte in key.iter_mut() {
            *byte = byte.wrapping_mul(5).wrapping_add(3);
        }
        Signer { key }
    }

    fn public_key(&self) -> [u8; 32] {
        self.key
    }

    fn sign(&self, t: &Transcript) -> Result<[u8; 64], ()> {
        let label = format!("{:?}", t.label);
        let mut out = [0u8; 64];
        for lane in 0..8u64 {
            let mut sum = 0xcbf2_9ce4_8422_2325u64.wrapping_add(lane.wrapping_mul(0x9e37_79b9));
            for byte in self.key.iter().chain(label.as_bytes()).chain(&[0]).chain(&t.body) {
                sum = (sum ^ u64::from(*byte)).wrapping_mul(0x0100_0000_01b3);
                sum ^= sum >> 29;
            }
            let at = lane as usize * 8;
            out[at..at + 8].copy_from_slice(&sum.to_le_bytes());
        }
        Ok(out)
    }
}

/// Whether a claimed signature holds.
fn holds(claim: &Claim) -> bool {
    Signer { key: claim.key }.sign(&claim.transcript).unwrap() == claim.signature
}

/// Whether a document makes a claim, and it holds.
fn made_and_holds(claim: Result<Claim, FormatError>) -> bool {
    match claim {
        Ok(claim) => holds(&claim),
        Err(_) => false,
    }
}

fn decode_grant(bytes: &[u8], key: &[u8; 32]) -> Result<AgentGrant, FormatError> {
    agent::decode_grant(bytes, key, made_and_holds(grant_claim(bytes, key)), None)
}

fn decode_delegation(bytes: &[u8], key: &[u8; 32]) -> Result<Delegation, FormatError> {
    agent::decode_delegation(bytes, made_and_holds(delegation_claim(bytes, key)), None)
}

fn peek_grant(bytes: &[u8]) -> Result<AgentGrant, FormatError> {
    agent::peek_grant(bytes, None)
}

fn peek_delegation(bytes: &[u8]) -> Result<Delegation, FormatError> {
    agent::peek_delegation(bytes, None)
}

fn checked<'a>(bytes: &'a [u8], claim: Result<Claim, FormatError>) -> Checked<'a> {
    let signer = claim.ok().filter(holds).map(|claim| claim.key);
    Checked { bytes, signer, policy: None }
}

/// Check the signatures of a chain, each with the key that the document before it names,
/// and then the chain.
fn verify_grant_chain_with_actions(
    author_key: &[u8; 32],
    grant: &[u8],
    links: &[&[u8]],
    actions: Option<&[u8]>,
    now: i64,
) -> Result<ChainFacts, ChainRefusal> {
    let root = checked(grant, grant_claim(grant, author_key));
    let mut key = match peek_grant(grant) {
        Ok(g) => g.door_verify,
        Err(_) => [0; 32],
    };
    let mut chain = Vec::new();
    for link in links {
        chain.push(checked(link, delegation_claim(link, &key)));
        key = match peek_delegation(link) {
            Ok(d) => d.child_verify,
            Err(_) => [0; 32],
        };
    }
    let rooted = actions.map(|a| checked(a, action::grant_claim(a, author_key)));
    agent::verify_grant_chain_with_actions(author_key, &root, &chain, rooted.as_ref(), now)
}

fn verify_grant_chain(
    author_key: &[u8; 32],
    grant: &[u8],
    links: &[&[u8]],
    now: i64,
) -> Result<ChainFacts, ChainRefusal> {
    let with = verify_grant_chain_with_actions(author_key, grant, links, None, now);
    if links.is_empty() {
        let root = checked(grant, grant_claim(grant, author_key));
        assert_eq!(agent::verify_grant_chain(author_key, &root, &[], now), with);
    }
    with
}

fn encode_entries(entries: &[Entry]) -> Result<Vec<u8>, FormatError> {
    let mut list = TlvWriter::new();
    for (n, entry) in entries.iter().enumerate() {
        let mut w = TlvWriter::new();
        w.put(entry_tag::FILE_ID, &entry.file_id)?;
        w.put(entry_tag::ENC, &entry.share_b.enc)?;
        w.put(entry_tag::NONCE, &entry.share_b.nonce)?;
        w.put(entry_tag::CT, &entry.share_b.ct)?;
        list.put(n as u16, &w.finish())?;
    }
    Ok(list.finish())
}

fn author() -> Signer {
    Signer::from_seed(&[0xa1; 32])
}

fn stranger() -> Signer {
    Signer::from_seed(&[0x77; 32])
}

fn door() -> Signer {
    Signer::from_seed(&[0xd0; 32])
}

const DOOR_PUBLIC: [u8; 32] = [0xd1; 32];

fn blob(seed: u8) -> Blob {
    Blob { enc: vec![seed; 32], nonce: [seed; 24], ct: vec![seed; 48] }
}

fn file_id(n: u16) -> [u8; 16] {
    let mut id = [0u8; 16];
    id[0] = (n >> 8) as u8;
    id[1] = n as u8;
    id
}

fn grant() -> AgentGrant {
    let mut g = AgentGrant {
        grant_id: [0x67; 16],
        door_fpr: DOOR_PUBLIC,
        door_kem: 1,
        door_public: DOOR_PUBLIC.to_vec(),
        door_verify: door().public_key(),
        entries: vec![
            Entry { file_id: file_id(1), share_b: blob(0x11) },
            Entry { file_id: file_id(2), share_b: blob(0x22) },
        ],
        issued_at: 1_700_000_000,
        expires_at: 1_700_086_400,
        tightening: None,
        max_depth: 2,
        author_key: author().public_key(),
        signature: [0; SIGNATURE_LEN],
    };
    sign_grant(&mut g, &author());
    g
}

fn sign_grant(g: &mut AgentGrant, signer: &Signer) {
    let body = grant_body(g).expect("тело гранта собирается");
    g.signature = signer.sign(&grant_transcript(&body)).unwrap();
}

fn fields_of(body: &[u8]) -> Vec<(u16, Vec<u8>)> {
    let mut reader = TlvReader::new(body);
    let mut out = Vec::new();
    while let Some(f) = reader.next_field().unwrap() {
        out.push((f.tag, f.value.to_vec()));
    }
    out
}

fn rebuild_with(body: &[u8], tag: u16, value: &[u8]) -> Vec<u8> {
    let mut w = TlvWriter::new();
    for (t, v) in fields_of(body) {
        if t == tag {
            w.put(t, value).unwrap();
        } else {
            w.put(t, &v).unwrap();
        }
    }
    w.finish().to_vec()
}

fn rebuild_plus(body: &[u8], tag: u16, value: &[u8]) -> Vec<u8> {
    let mut w = TlvWriter::new();
    for (t, v) in fields_of(body) {
        w.put(t, &v).unwrap();
    }
    w.put(tag, value).unwrap();
    w.finish().to_vec()
}

fn signed(body: &[u8], signer: &Signer) -> Vec<u8> {
    let sig = signer.sign(&grant_transcript(body)).unwrap();
    let mut out = sig.to_vec();
    out.extend_from_slice(body);
    out
}

#[test]
fn grant_round_trips() {
    let g = grant();
    let bytes = encode_grant(&g).unwrap();
    assert_eq!(decode_grant(&bytes, &author().public_key()).unwrap(), g);
}

#[test]
fn a_tightening_policy_round_trips_through_the_same_codec() {
    let mut g = grant();
    let policy = vec![9, 0, 4, 0, 0, 0, 3, 0, 0, 0];
    g.tightening = Some(policy.clone());
    sign_grant(&mut g, &author());

    let bytes = encode_grant(&g).unwrap();
    let back = decode_grant(&bytes, &author().public_key()).unwrap();
    assert_eq!(back.tightening, Some(policy));
    assert_eq!(back, g);
}

#[test]
fn a_flipped_body_byte_fails_the_signature_before_parsing() {
    let good = grant_body(&grant()).unwrap();

    let broken_kem = rebuild_with(&good, tag::DOOR_KEM, &[0x63]);
    let unknown_critical = rebuild_plus(&good, 0x7FFF, &[0xab; 4]);

    for (what, body) in
        [("неисполнимый механизм", broken_kem), ("чужой критичный тег", unknown_critical)]
    {
        let own = signed(&body, &author());
        let parsed = decode_grant(&own, &author().public_key());
        assert!(
            matches!(
                parsed,
                Err(FormatError::BadFieldLength { .. } | FormatError::UnknownCriticalField { .. }),
            ),
            "{what}: предпосылка неверна, тело разбирается: {parsed:?}"
        );

        let forged = signed(&body, &stranger());
        let outcome = decode_grant(&forged, &author().public_key());
        assert!(
            matches!(outcome, Err(FormatError::BadHeaderSignature)),
            "{what}: разбор произошёл до проверки подписи, ответ {outcome:?}"
        );
    }
}

#[test]
fn agent_a_grant_signed_by_another_author_is_refused() {
    let mut g = grant();
    sign_grant(&mut g, &stranger());
    let bytes = encode_grant(&g).unwrap();
    assert!(matches!(
        decode_grant(&bytes, &author().public_key()),
        Err(FormatError::BadHeaderSignature)
    ));
}

#[test]
fn agent_the_author_key_inside_must_match_the_one_supplied() {
    let mut g = grant();
    g.author_key = [0x99; 32];
    sign_grant(&mut g, &author());
    let bytes = encode_grant(&g).unwrap();
    match decode_grant(&bytes, &author().public_key()) {
        Err(FormatError::BadFieldLength { tag, .. }) => assert_eq!(tag, tag::AUTHOR_KEY),
        other => panic!("грант с чужим именем автора принят: {other:?}"),
    }
}

#[test]
fn entries_out_of_order_or_repeated_are_refused() {
    let ordered = grant();

    for (what, entries) in [
        (
            "перестановка",
            vec![
                Entry { file_id: file_id(2), share_b: blob(0x22) },
                Entry { file_id: file_id(1), share_b: blob(0x11) },
            ],
        ),
        (
            "повтор",
            vec![
                Entry { file_id: file_id(1), share_b: blob(0x11) },
                Entry { file_id: file_id(1), share_b: blob(0x22) },
            ],
        ),
    ] {
        let mut g = ordered.clone();
        g.entries = entries.clone();
        assert!(grant_body(&g).is_err(), "{what}: писатель произвёл такой грант");

        let body = rebuild_with(
            &grant_body(&ordered).unwrap(),
            tag::ENTRIES,
            &encode_entries(&entries).unwrap(),
        );
        let outcome = decode_grant(&signed(&body, &author()), &author().public_key());
        assert!(
            matches!(outcome, Err(FormatError::FieldsOutOfOrder { .. })),
            "{what}: читатель принял, ответ {outcome:?}"
        );
    }
}

#[test]
fn more_than_max_files_is_refused() {
    let ordered = grant();
    let many: Vec<Entry> = (0..=MAX_GRANT_FILES)
        .map(|n| Entry {
            file_id: file_id(u16::try_from(n).unwrap()),
            share_b: blob(0x33),
        })
        .collect();
    assert_eq!(many.len(), MAX_GRANT_FILES + 1);

    let mut g = ordered.clone();
    g.entries = many.clone();
    assert!(grant_body(&g).is_err(), "писатель выпустил грант длиннее потолка");

    let body = rebuild_with(
        &grant_body(&ordered).unwrap(),
        tag::ENTRIES,
        &encode_entries(&many).unwrap(),
    );
    let outcome = decode_grant(&signed(&body, &author()), &author().public_key());
    assert!(
        matches!(outcome, Err(FormatError::BadFieldLength { tag: tag::ENTRIES, .. })),
        "список длиннее потолка принят: {outcome:?}"
    );
}

#[test]
fn depth_above_max_is_refused() {
    let ordered = grant();
    let mut g = ordered.clone();
    g.max_depth = MAX_GRANT_DEPTH + 1;
    assert!(grant_body(&g).is_err(), "писатель выпустил грант с глубиной выше потолка");

    let body = rebuild_with(
        &grant_body(&ordered).unwrap(),
        tag::MAX_DEPTH,
        &[MAX_GRANT_DEPTH + 1],
    );
    let outcome = decode_grant(&signed(&body, &author()), &author().public_key());
    assert!(
        matches!(outcome, Err(FormatError::BadFieldLength { tag: tag::MAX_DEPTH, .. })),
        "глубина выше потолка принята: {outcome:?}"
    );
}

#[test]
fn a_door_fingerprint_that_is_not_the_name_of_its_key_is_refused() {
    let ordered = grant();
    let mut g = ordered.clone();
    g.door_fpr = [0xee; 32];
    assert!(grant_body(&g).is_err(), "писатель выпустил грант с чужим именем двери");

    let body = rebuild_with(&grant_body(&ordered).unwrap(), tag::DOOR_FPR, &[0xee; 32]);
    let outcome = decode_grant(&signed(&body, &author()), &author().public_key());
    assert!(
        matches!(outcome, Err(FormatError::BadFieldLength { tag: tag::DOOR_FPR, .. })),
        "имя, не называющее ключ, принято: {outcome:?}"
    );
}

#[test]
fn an_unexecuted_kem_is_refused_on_parse() {
    let ordered = grant();
    let body = grant_body(&ordered).unwrap();

    let p256_public = {
        let mut key = vec![0x04u8; 65];
        key[1] = 0x11;
        key
    };
    let p256_fpr =
        device_fpr(KemAlg::P256HkdfSha256, &p256_public, Some([0x5f; 32])).unwrap();
    let honest_p256 = {
        let with_kem = rebuild_with(&body, tag::DOOR_KEM, &[2]);
        let with_key = rebuild_with(&with_kem, tag::DOOR_PUBLIC, &p256_public);
        rebuild_with(&with_key, tag::DOOR_FPR, &p256_fpr)
    };

    for (what, doc) in [
        ("честный P-256", honest_p256),
        ("номер вне реестра", rebuild_with(&body, tag::DOOR_KEM, &[0x63])),
    ] {
        let outcome = decode_grant(&signed(&doc, &author()), &author().public_key());
        assert!(
            matches!(outcome, Err(FormatError::BadFieldLength { tag: tag::DOOR_KEM, .. })),
            "{what}: механизм принят, ответ {outcome:?}"
        );
    }
}

#[test]
fn unknown_optional_tag_is_skipped() {
    let body = rebuild_plus(&grant_body(&grant()).unwrap(), 0x8000, &[1, 2, 3]);
    let bytes = signed(&body, &author());
    let back = decode_grant(&bytes, &author().public_key()).unwrap();
    let mut expected = grant();
    expected.signature = back.signature;
    assert_eq!(back, expected);
}

#[test]
fn unknown_critical_tag_is_refused() {
    let body = rebuild_plus(&grant_body(&grant()).unwrap(), 0x7FFF, &[1, 2, 3]);
    let outcome = decode_grant(&signed(&body, &author()), &author().public_key());
    assert!(
        matches!(outcome, Err(FormatError::UnknownCriticalField { tag: 0x7FFF })),
        "критичный тег из будущей версии пропущен молча: {outcome:?}"
    );
}

#[test]
fn expires_before_issued_is_refused() {
    let ordered = grant();
    let mut g = ordered.clone();
    g.expires_at = g.issued_at - 1;
    assert!(grant_body(&g).is_err(), "писатель выпустил грант с сроком раньше выдачи");

    let body = rebuild_with(
        &grant_body(&ordered).unwrap(),
        tag::EXPIRES_AT,
        &(ordered.issued_at - 1).to_le_bytes(),
    );
    let outcome = decode_grant(&signed(&body, &author()), &author().public_key());
    assert!(
        matches!(outcome, Err(FormatError::BadFieldLength { tag: tag::EXPIRES_AT, .. })),
        "срок раньше выдачи принят: {outcome:?}"
    );
}

fn child_a() -> Signer {
    Signer::from_seed(&[0xc0; 32])
}

const CHILD_A_PUBLIC: [u8; 32] = [0xc1; 32];

fn child_b() -> Signer {
    Signer::from_seed(&[0xb0; 32])
}

const CHILD_B_PUBLIC: [u8; 32] = [0xb1; 32];

fn child_c() -> Signer {
    Signer::from_seed(&[0xe0; 32])
}

const CHILD_C_PUBLIC: [u8; 32] = [0xe1; 32];

const NOW: i64 = 1_700_010_000;

fn sign_link(d: &mut Delegation, signer: &Signer) {
    let body = delegation_body(d).expect("тело звена собирается");
    d.signature = signer.sign(&delegation_transcript(&body)).unwrap();
}

fn link_one() -> Delegation {
    let mut d = Delegation {
        grant_id: [0x67; 16],
        parent_fpr: DOOR_PUBLIC,
        child_fpr: CHILD_A_PUBLIC,
        child_kem: 1,
        child_public: CHILD_A_PUBLIC.to_vec(),
        child_verify: child_a().public_key(),
        entries: vec![Entry { file_id: file_id(1), share_b: blob(0x44) }],
        expires_at: 1_700_050_000,
        tightening: None,
        depth: 1,
        actions: Vec::new(),
        signature: [0; SIGNATURE_LEN],
    };
    sign_link(&mut d, &door());
    d
}

fn link_two() -> Delegation {
    let mut d = Delegation {
        grant_id: [0x67; 16],
        parent_fpr: CHILD_A_PUBLIC,
        child_fpr: CHILD_B_PUBLIC,
        child_kem: 1,
        child_public: CHILD_B_PUBLIC.to_vec(),
        child_verify: child_b().public_key(),
        entries: vec![Entry { file_id: file_id(1), share_b: blob(0x55) }],
        expires_at: 1_700_040_000,
        tightening: None,
        depth: 0,
        actions: Vec::new(),
        signature: [0; SIGNATURE_LEN],
    };
    sign_link(&mut d, &child_a());
    d
}

fn chain(grant: &AgentGrant, links: &[Delegation], now: i64) -> Result<ChainFacts, ChainRefusal> {
    let grant_bytes = encode_grant(grant).unwrap();
    let raw: Vec<Vec<u8>> = links.iter().map(|l| encode_delegation(l).unwrap()).collect();
    let refs: Vec<&[u8]> = raw.iter().map(Vec::as_slice).collect();
    verify_grant_chain(&author().public_key(), &grant_bytes, &refs, now)
}

#[test]
fn delegation_round_trips() {
    let d = link_one();
    let bytes = encode_delegation(&d).unwrap();
    assert_eq!(decode_delegation(&bytes, &door().public_key()).unwrap(), d);
}

#[test]
fn the_delegation_signature_is_checked_before_the_body_is_parsed() {
    let good = delegation_body(&link_one()).unwrap();
    let mut w = TlvWriter::new();
    for (t, v) in fields_of(&good) {
        w.put(t, &v).unwrap();
    }
    w.put(0x7FFF, &[0xab; 4]).unwrap();
    let body = w.finish().to_vec();

    let own = {
        let sig = door().sign(&delegation_transcript(&body)).unwrap();
        let mut out = sig.to_vec();
        out.extend_from_slice(&body);
        out
    };
    assert!(
        matches!(
            decode_delegation(&own, &door().public_key()),
            Err(FormatError::UnknownCriticalField { .. })
        ),
        "предпосылка неверна: тело разбирается"
    );

    let forged = {
        let sig = stranger().sign(&delegation_transcript(&body)).unwrap();
        let mut out = sig.to_vec();
        out.extend_from_slice(&body);
        out
    };
    let outcome = decode_delegation(&forged, &door().public_key());
    assert!(
        matches!(outcome, Err(FormatError::BadHeaderSignature)),
        "разбор произошёл до проверки подписи: {outcome:?}"
    );
}

#[test]
fn a_child_fingerprint_that_is_not_the_name_of_its_key_is_refused() {
    let mut d = link_one();
    d.child_fpr = [0xee; 32];
    assert!(delegation_body(&d).is_err(), "писатель выпустил звено с чужим именем потомка");
}

#[test]
fn a_two_link_chain_verifies() {
    let facts = chain(&grant(), &[link_one(), link_two()], NOW).expect("честная цепочка");
    assert_eq!(facts.grant_id, [0x67; 16]);
}

#[test]
fn facts_name_the_last_holder() {
    let facts = chain(&grant(), &[link_one(), link_two()], NOW).unwrap();
    assert_eq!(facts.holder_fpr, CHILD_B_PUBLIC, "держателем назван не последний");
    assert_eq!(facts.holder_verify, child_b().public_key());
    assert_eq!(facts.files, vec![file_id(1)], "файлы взяты не у последнего звена");
    assert_eq!(facts.expires_at, 1_700_040_000, "срок взят не самый короткий");
    assert_eq!(facts.depth_left, 0);
    assert!(facts.tightening.is_empty());
}

#[test]
fn a_link_adding_a_file_is_refused() {
    let mut d = link_one();
    d.entries.push(Entry { file_id: file_id(9), share_b: blob(0x66) });
    sign_link(&mut d, &door());
    assert_eq!(chain(&grant(), &[d], NOW), Err(ChainRefusal::NotASubset { index: 0 }));
}

#[test]
fn a_link_outliving_its_parent_is_refused() {
    let g = grant();
    let mut d = link_one();
    d.expires_at = g.expires_at.saturating_add(1);
    sign_link(&mut d, &door());
    assert_eq!(chain(&g, &[d], NOW), Err(ChainRefusal::OutlivesParent { index: 0 }));
}

#[test]
fn a_link_below_zero_depth_is_refused() {
    let mut third = Delegation {
        grant_id: [0x67; 16],
        parent_fpr: CHILD_B_PUBLIC,
        child_fpr: CHILD_C_PUBLIC,
        child_kem: 1,
        child_public: CHILD_C_PUBLIC.to_vec(),
        child_verify: child_c().public_key(),
        entries: vec![Entry { file_id: file_id(1), share_b: blob(0x77) }],
        expires_at: 1_700_030_000,
        tightening: None,
        depth: 0,
        actions: Vec::new(),
        signature: [0; SIGNATURE_LEN],
    };
    sign_link(&mut third, &child_b());
    assert_eq!(
        chain(&grant(), &[link_one(), link_two(), third], NOW),
        Err(ChainRefusal::DepthExhausted { index: 2 })
    );
}

#[test]
fn max_depth_zero_forbids_any_link() {
    let mut g = grant();
    g.max_depth = 0;
    sign_grant(&mut g, &author());
    assert_eq!(chain(&g, &[link_one()], NOW), Err(ChainRefusal::DepthExhausted { index: 0 }));
}

#[test]
fn a_link_signed_by_a_stranger_is_refused() {
    let mut d = link_one();
    sign_link(&mut d, &stranger());
    assert_eq!(chain(&grant(), &[d], NOW), Err(ChainRefusal::BadLink { index: 0 }));
}

#[test]
fn a_link_naming_the_wrong_parent_is_refused() {
    let mut d = link_one();
    d.parent_fpr = [0xbb; 32];
    sign_link(&mut d, &door());
    assert_eq!(chain(&grant(), &[d], NOW), Err(ChainRefusal::WrongParent { index: 0 }));
}

#[test]
fn links_from_another_grant_are_refused() {
    let mut d = link_one();
    d.grant_id = [0x68; 16];
    sign_link(&mut d, &door());
    assert_eq!(chain(&grant(), &[d], NOW), Err(ChainRefusal::WrongParent { index: 0 }));
}

#[test]
fn an_expired_grant_is_refused_by_the_clock_given() {
    let g = grant();
    assert_eq!(chain(&g, &[], g.expires_at.saturating_add(1)), Err(ChainRefusal::Expired));
    assert_eq!(chain(&g, &[], g.issued_at.saturating_sub(1)), Err(ChainRefusal::NotYetValid));
    assert!(chain(&g, &[], g.issued_at).is_ok());
    assert!(chain(&g, &[], g.expires_at).is_ok());
}

#[test]
fn an_expired_link_is_refused_though_the_grant_lives() {
    let g = grant();
    let d = link_one();
    assert!(d.expires_at < g.expires_at, "предпосылка: звено короче гранта");
    assert_eq!(
        chain(&g, std::slice::from_ref(&d), d.expires_at.saturating_add(1)),
        Err(ChainRefusal::Expired),
    );
}

#[test]
fn agent_every_refusal_names_a_reason() {
    for refusal in [
        ChainRefusal::BadGrant,
        ChainRefusal::BadLink { index: 1 },
        ChainRefusal::NotASubset { index: 1 },
        ChainRefusal::OutlivesParent { index: 1 },
        ChainRefusal::DepthExhausted { index: 1 },
        ChainRefusal::WrongParent { index: 1 },
        ChainRefusal::Expired,
        ChainRefusal::NotYetValid,
    ] {
        let text = refusal.text();
        assert!(text.len() > 10, "отказ {refusal:?} не объяснён: {text:?}");
    }
}

#[test]
fn agent_peeking_reads_the_same_body_but_never_stands_in_for_the_signature() {
    let g = grant();
    let bytes = encode_grant(&g).unwrap();
    assert_eq!(peek_grant(&bytes).unwrap(), g);
    assert_eq!(peek_grant(&bytes).unwrap(), decode_grant(&bytes, &author().public_key()).unwrap());

    let body = grant_body(&g).unwrap();
    let forged = signed(&body, &stranger());
    assert!(peek_grant(&forged).is_ok(), "взгляд обязан проходить и без своей подписи");
    assert!(
        matches!(
            decode_grant(&forged, &author().public_key()),
            Err(FormatError::BadHeaderSignature),
        ),
        "чужая подпись принята"
    );

    let link = link_one();
    let raw = encode_delegation(&link).unwrap();
    assert_eq!(peek_delegation(&raw).unwrap(), link);
    let link_body = delegation_body(&link).unwrap();
    let sig = stranger().sign(&delegation_transcript(&link_body)).unwrap();
    let mut forged_link = sig.to_vec();
    forged_link.extend_from_slice(&link_body);
    assert!(peek_delegation(&forged_link).is_ok());
    assert!(
        matches!(
            decode_delegation(&forged_link, &door().public_key()),
            Err(FormatError::BadHeaderSignature)
        ),
        "звено с чужой подписью принято"
    );

    let broken = rebuild_with(&body, tag::DOOR_KEM, &[0x63]);
    let mut document = [0u8; SIGNATURE_LEN].to_vec();
    document.extend_from_slice(&broken);
    assert!(peek_grant(&document).is_err(), "взгляд выпустил грант не той формы");
}

fn push_rule(branch: &str, max_uses: u32, delegable: bool) -> ActionRule {
    ActionRule {
        kind: ActionKind::GitPush,
        constraint: Constraint::GitPush {
            remote: "origin".to_string(),
            branch: branch.to_string(),
        },
        max_uses,
        confirm: false,
        delegable,
    }
}

fn remove_rule(prefix: &str) -> ActionRule {
    ActionRule {
        kind: ActionKind::TreeRemove,
        constraint: Constraint::TreeRemove { prefix: prefix.to_string() },
        max_uses: 0,
        confirm: false,
        delegable: true,
    }
}

fn http_rule() -> ActionRule {
    ActionRule {
        kind: ActionKind::HttpRequest,
        constraint: Constraint::HttpRequest {
            host: "api.example.com".to_string(),
            methods: vec![Method::Get, Method::Post],
            path_prefix: "/v1".to_string(),
            secret_ref: None,
        },
        max_uses: 100,
        confirm: false,
        delegable: true,
    }
}

fn action_grant(rules: Vec<ActionRule>) -> Vec<u8> {
    let mut g = ActionGrant {
        grant_id: [0x67; 16],
        rules,
        issued_at: 1_700_000_000,
        expires_at: 1_700_086_400,
        author_key: author().public_key(),
        signature: [0; SIGNATURE_LEN],
    };
    let body = action_grant_body(&g).expect("тело гранта действий собирается");
    g.signature = author().sign(&action::grant_transcript(&body)).unwrap();
    action::encode_grant(&g).unwrap()
}

fn link_with(actions: Vec<ActionRule>) -> Delegation {
    let mut d = link_one();
    d.actions = actions;
    sign_link(&mut d, &door());
    d
}

fn chain_acting(
    links: &[Delegation],
    actions: Option<&[u8]>,
    now: i64,
) -> Result<ChainFacts, ChainRefusal> {
    let grant_bytes = encode_grant(&grant()).unwrap();
    let raw: Vec<Vec<u8>> = links.iter().map(|l| encode_delegation(l).unwrap()).collect();
    let refs: Vec<&[u8]> = raw.iter().map(Vec::as_slice).collect();
    verify_grant_chain_with_actions(
        &author().public_key(),
        &grant_bytes,
        &refs,
        actions,
        now,
    )
}

#[test]
fn a_delegation_with_actions_round_trips() {
    let d = link_with(vec![push_rule("agent/work", 5, false), remove_rule("src/agent")]);
    let bytes = encode_delegation(&d).unwrap();
    assert_eq!(decode_delegation(&bytes, &door().public_key()).unwrap(), d);
}

#[test]
fn an_empty_action_list_writes_no_tag_at_all() {
    let plain = delegation_body(&link_one()).unwrap();
    let mut empty = link_one();
    empty.actions = Vec::new();
    assert_eq!(delegation_body(&empty).unwrap(), plain);
    assert!(
        !fields_of(&plain).iter().any(|(t, _)| *t == link_tag::ACTIONS),
        "пустой список всё же записал тег"
    );
}

#[test]
fn the_stage_one_reader_sees_the_same_chain_through_the_action_tag() {
    let with_tag = link_with(vec![push_rule("agent/work", 5, false)]);
    let plain = link_one();

    let a = chain(&grant(), std::slice::from_ref(&with_tag), NOW).expect("цепочка с тегом");
    let b = chain(&grant(), std::slice::from_ref(&plain), NOW).expect("цепочка без тега");

    assert_eq!(a.files, b.files, "тег действий изменил список файлов");
    assert_eq!(a.expires_at, b.expires_at);
    assert_eq!(a.holder_fpr, b.holder_fpr);
    assert_eq!(a.depth_left, b.depth_left);
    assert!(a.actions.is_empty(), "старый вызов отдал действия, которых не проверял");
}

#[test]
fn a_narrowing_child_gets_the_actions_it_asked_for() {
    let raw = action_grant(vec![push_rule("agent/work", 10, true), http_rule()]);
    let child = push_rule("agent/work", 4, false);
    let link = link_with(vec![child.clone()]);

    let facts = chain_acting(std::slice::from_ref(&link), Some(&raw), NOW)
        .expect("честное сужение действий");
    assert_eq!(facts.actions, vec![child], "факты назвали не правила потомка");
}

#[test]
fn actions_unknown_to_the_verifier_never_take_effect() {
    let link = link_with(vec![push_rule("agent/work", 4, false)]);
    let facts = chain_acting(std::slice::from_ref(&link), None, NOW).unwrap();
    assert!(facts.actions.is_empty());
}

#[test]
fn with_no_links_the_door_itself_holds_the_granted_actions() {
    let rules = vec![push_rule("agent/work", 10, true), http_rule()];
    let raw = action_grant(rules.clone());
    let facts = chain_acting(&[], Some(&raw), NOW).unwrap();
    assert_eq!(facts.actions, rules);
}

#[test]
fn a_file_grant_with_no_files_still_anchors_its_actions() {
    let mut g = grant();
    g.entries.clear();
    sign_grant(&mut g, &author());
    let bytes = encode_grant(&g).unwrap();
    assert!(
        decode_grant(&bytes, &author().public_key()).is_ok(),
        "грант без файлов отвергнут — двери «только действия» не существовать"
    );

    let rules = vec![push_rule("agent/work", 10, true)];
    let raw = action_grant(rules.clone());
    let facts = verify_grant_chain_with_actions(
        &author().public_key(),
        &bytes,
        &[],
        Some(&raw),
        NOW,
    )
    .expect("цепочка без файлов не принята");
    assert!(facts.files.is_empty(), "предпосылка: файлов у гранта нет");
    assert_eq!(facts.actions, rules, "действия не достались двери без файлов");
}

#[test]
fn every_way_of_widening_an_action_has_its_own_refusal() {
    let raw = action_grant(vec![push_rule("agent/work", 10, true), remove_rule("src")]);

    let link = link_with(vec![http_rule()]);
    assert_eq!(
        chain_acting(std::slice::from_ref(&link), Some(&raw), NOW),
        Err(ChainRefusal::ActionNotGranted { index: 0 })
    );

    let link = link_with(vec![push_rule("main", 10, false)]);
    assert_eq!(
        chain_acting(std::slice::from_ref(&link), Some(&raw), NOW),
        Err(ChainRefusal::ActionWidens {
            index: 0,
            why: ActionRefusal::WiderLimiter { limiter: "branch" },
        })
    );

    let link = link_with(vec![push_rule("agent/work", 11, false)]);
    assert_eq!(
        chain_acting(std::slice::from_ref(&link), Some(&raw), NOW),
        Err(ChainRefusal::ActionWidens { index: 0, why: ActionRefusal::MoreUses })
    );

    let link = link_with(vec![remove_rule("src2")]);
    assert_eq!(
        chain_acting(std::slice::from_ref(&link), Some(&raw), NOW),
        Err(ChainRefusal::ActionWidens {
            index: 0,
            why: ActionRefusal::WiderLimiter { limiter: "prefix" },
        })
    );
}

#[test]
fn a_confirm_rule_does_not_travel_down_the_chain() {
    let mut parent = push_rule("agent/work", 10, true);
    parent.confirm = true;
    let raw = action_grant(vec![parent]);
    let link = link_with(vec![push_rule("agent/work", 1, false)]);
    assert_eq!(
        chain_acting(std::slice::from_ref(&link), Some(&raw), NOW),
        Err(ChainRefusal::ActionWidens {
            index: 0,
            why: ActionRefusal::ConfirmNotDelegable,
        })
    );
}

#[test]
fn a_rule_not_marked_delegable_stops_at_its_holder() {
    let raw = action_grant(vec![push_rule("agent/work", 10, false)]);
    let link = link_with(vec![push_rule("agent/work", 1, false)]);
    assert_eq!(
        chain_acting(std::slice::from_ref(&link), Some(&raw), NOW),
        Err(ChainRefusal::ActionWidens { index: 0, why: ActionRefusal::NotDelegable })
    );
}

#[test]
fn the_second_link_narrows_the_first_and_not_the_root() {
    let raw = action_grant(vec![push_rule("agent/work", 10, true)]);
    let first = link_with(vec![push_rule("agent/work", 4, true)]);

    let widen = {
        let mut d = link_two();
        d.actions = vec![push_rule("agent/work", 8, false)];
        sign_link(&mut d, &child_a());
        d
    };
    assert_eq!(
        chain_acting(&[first.clone(), widen], Some(&raw), NOW),
        Err(ChainRefusal::ActionWidens { index: 1, why: ActionRefusal::MoreUses })
    );

    let narrow = {
        let mut d = link_two();
        d.actions = vec![push_rule("agent/work", 2, false)];
        sign_link(&mut d, &child_a());
        d
    };
    let facts = chain_acting(&[first, narrow], Some(&raw), NOW).unwrap();
    assert_eq!(facts.actions, vec![push_rule("agent/work", 2, false)]);
}

#[test]
fn a_link_that_names_no_actions_passes_none_down() {
    let raw = action_grant(vec![push_rule("agent/work", 10, true)]);
    let facts = chain_acting(std::slice::from_ref(&link_one()), Some(&raw), NOW).unwrap();
    assert!(facts.actions.is_empty(), "действия просочились через звено, их не назвавшее");
}

#[test]
fn the_action_grant_is_anchored_to_this_file_grant_and_this_author() {
    let mut g = ActionGrant {
        grant_id: [0x68; 16],
        rules: vec![push_rule("agent/work", 10, true)],
        issued_at: 1_700_000_000,
        expires_at: 1_700_086_400,
        author_key: author().public_key(),
        signature: [0; SIGNATURE_LEN],
    };
    let body = action_grant_body(&g).unwrap();
    g.signature = author().sign(&action::grant_transcript(&body)).unwrap();
    let raw = action::encode_grant(&g).unwrap();
    assert_eq!(chain_acting(&[], Some(&raw), NOW), Err(ChainRefusal::ActionsWrongGrant));

    let mut g = ActionGrant {
        grant_id: [0x67; 16],
        rules: vec![push_rule("agent/work", 10, true)],
        issued_at: 1_700_000_000,
        expires_at: 1_700_086_400,
        author_key: stranger().public_key(),
        signature: [0; SIGNATURE_LEN],
    };
    let body = action_grant_body(&g).unwrap();
    g.signature = stranger().sign(&action::grant_transcript(&body)).unwrap();
    let raw = action::encode_grant(&g).unwrap();
    assert_eq!(chain_acting(&[], Some(&raw), NOW), Err(ChainRefusal::BadActionGrant));

    let mut g = ActionGrant {
        grant_id: [0x67; 16],
        rules: vec![push_rule("agent/work", 10, true)],
        issued_at: 1_700_000_000,
        expires_at: 1_700_086_401,
        author_key: author().public_key(),
        signature: [0; SIGNATURE_LEN],
    };
    let body = action_grant_body(&g).unwrap();
    g.signature = author().sign(&action::grant_transcript(&body)).unwrap();
    let raw = action::encode_grant(&g).unwrap();
    assert_eq!(chain_acting(&[], Some(&raw), NOW), Err(ChainRefusal::ActionsOutliveGrant));
}

#[test]
fn an_expired_action_grant_is_refused_by_the_clock_given() {
    let mut g = ActionGrant {
        grant_id: [0x67; 16],
        rules: vec![push_rule("agent/work", 10, true)],
        issued_at: 1_700_000_000,
        expires_at: 1_700_005_000,
        author_key: author().public_key(),
        signature: [0; SIGNATURE_LEN],
    };
    let body = action_grant_body(&g).unwrap();
    g.signature = author().sign(&action::grant_transcript(&body)).unwrap();
    let raw = action::encode_grant(&g).unwrap();

    assert_eq!(chain_acting(&[], Some(&raw), NOW), Err(ChainRefusal::Expired));
    assert!(chain_acting(&[], Some(&raw), 1_700_004_999).is_ok());
}

#[test]
fn junk_in_the_action_tag_is_refused_when_the_link_is_parsed() {
    let good = delegation_body(&link_one()).unwrap();
    let body = rebuild_plus(&good, link_tag::ACTIONS, &[0xab; 7]);
    let sig = door().sign(&delegation_transcript(&body)).unwrap();
    let mut document = sig.to_vec();
    document.extend_from_slice(&body);
    assert!(
        decode_delegation(&document, &door().public_key()).is_err(),
        "мусор в теге действий проехал мимо разбора"
    );
}

#[test]
fn every_action_refusal_of_the_chain_names_a_reason() {
    for refusal in [
        ChainRefusal::BadActionGrant,
        ChainRefusal::ActionsWrongGrant,
        ChainRefusal::ActionsOutliveGrant,
        ChainRefusal::ActionNotGranted { index: 1 },
        ChainRefusal::ActionWidens { index: 1, why: ActionRefusal::MoreUses },
    ] {
        let text = refusal.text();
        assert!(text.len() > 10, "отказ {refusal:?} не объяснён: {text:?}");
    }
}

#[test]
fn agent_decoding_arbitrary_bytes_never_panics() {
    let key = author().public_key();
    let bytes = encode_grant(&grant()).unwrap();
    for cut in 0..bytes.len() {
        let _ = decode_grant(&bytes[..cut], &key);
    }
    let mut seed = 0x5eed_u64;
    for _ in 0..10_000 {
        seed = seed.wrapping_mul(6_364_136_223_846_793_005).wrapping_add(1);
        let len = (seed >> 33) as usize % 128;
        let mut junk = vec![0u8; len];
        for (i, b) in junk.iter_mut().enumerate() {
            *b = (seed >> (i % 8 * 8)) as u8;
        }
        let _ = decode_grant(&junk, &key);
    }
}

#[test]
fn a_chain_carries_every_tightening() {
    let mut g = grant();
    g.tightening = Some(vec![1]);
    sign_grant(&mut g, &author());
    let mut first = link_one();
    first.tightening = Some(vec![2]);
    sign_link(&mut first, &door());
    let facts = chain(&g, &[first, link_two()], NOW).unwrap();
    assert_eq!(facts.tightening, vec![vec![1], vec![2]]);
}

#[test]
fn a_tightening_that_its_codec_refuses_refuses_the_document() {
    let mut g = grant();
    g.tightening = Some(vec![1]);
    sign_grant(&mut g, &author());
    let key = author().public_key();
    let bytes = encode_grant(&g).unwrap();
    let why = FormatError::MissingField { tag: 77 };
    assert_eq!(agent::decode_grant(&bytes, &key, true, Some(why)), Err(why));
    let root = Checked { bytes: &bytes, signer: Some(key), policy: Some(why) };
    assert_eq!(
        agent::verify_grant_chain(&key, &root, &[], NOW),
        Err(ChainRefusal::BadGrant)
    );
}

#[test]
fn a_chain_needs_the_keys_that_its_documents_name() {
    let key = author().public_key();
    let bytes = encode_grant(&grant()).unwrap();
    let link = encode_delegation(&link_one()).unwrap();
    let open = |signer: Option<[u8; 32]>, link_signer: Option<[u8; 32]>| {
        agent::verify_grant_chain(
            &key,
            &Checked { bytes: &bytes, signer, policy: None },
            &[Checked { bytes: &link, signer: link_signer, policy: None }],
            NOW,
        )
    };
    assert!(open(Some(key), Some(door().public_key())).is_ok());
    assert_eq!(open(None, Some(door().public_key())), Err(ChainRefusal::BadGrant));
    assert_eq!(
        open(Some(stranger().public_key()), Some(door().public_key())),
        Err(ChainRefusal::BadGrant)
    );
    assert_eq!(open(Some(key), Some(key)), Err(ChainRefusal::BadLink { index: 0 }));
    assert_eq!(open(Some(key), None), Err(ChainRefusal::BadLink { index: 0 }));
}

#[test]
fn a_rule_may_come_from_any_rule_of_its_kind() {
    let raw = action_grant(vec![remove_rule("docs"), remove_rule("src")]);
    let link = link_with(vec![remove_rule("src/agent")]);
    let facts = chain_acting(std::slice::from_ref(&link), Some(&raw), NOW).unwrap();
    assert_eq!(facts.actions, vec![remove_rule("src/agent")]);
}

#[test]
fn a_refusal_names_the_link_and_the_reason() {
    assert_eq!(
        ChainRefusal::ActionWidens { index: 12, why: ActionRefusal::MoreUses }.text(),
        "звено 12 расширяет правило действия: потомку выписано больше исполнений, чем разрешено родителю"
    );
    assert_eq!(
        ChainRefusal::BadLink { index: 0 }.text(),
        "звено 0 не принято: подпись родителя не сошлась или документ не той формы"
    );
}

#[test]
fn the_tightening_is_told_before_the_document_is_read() {
    let why = FormatError::MissingField { tag: 77 };
    let mut g = grant();
    assert_eq!(grant_tightening_in(&grant_body(&g).unwrap()), None);
    g.tightening = Some(vec![4, 5, 6]);
    sign_grant(&mut g, &author());
    assert_eq!(grant_tightening_in(&grant_body(&g).unwrap()), Some(vec![4, 5, 6]));
    let bytes = encode_grant(&g).unwrap();
    let key = author().public_key();
    assert_eq!(agent::decode_grant(&bytes, &key, true, Some(why)), Err(why));
    assert_eq!(agent::decode_grant(&bytes, &key, true, None).unwrap(), g);
    assert_eq!(
        agent::decode_grant(&bytes, &key, false, Some(why)),
        Err(FormatError::BadHeaderSignature)
    );

    let mut d = link_one();
    assert_eq!(delegation_tightening_in(&delegation_body(&d).unwrap()), None);
    d.tightening = Some(vec![7]);
    sign_link(&mut d, &door());
    assert_eq!(delegation_tightening_in(&delegation_body(&d).unwrap()), Some(vec![7]));
    let bytes = encode_delegation(&d).unwrap();
    assert_eq!(agent::decode_delegation(&bytes, true, Some(why)), Err(why));
    assert_eq!(agent::decode_delegation(&bytes, true, None).unwrap(), d);
}

#[test]
fn an_unknown_optional_field_changes_nothing_in_a_delegation() {
    let d = link_one();
    let body = rebuild_plus(&delegation_body(&d).unwrap(), 0x9000, b"later");
    let sig = door().sign(&delegation_transcript(&body)).unwrap();
    let mut bytes = sig.to_vec();
    bytes.extend_from_slice(&body);
    let read = decode_delegation(&bytes, &door().public_key()).unwrap();
    assert_eq!(Delegation { signature: d.signature, ..read }, d);
}

#[test]
fn the_order_of_the_parents_rules_decides_nothing() {
    let rules = [remove_rule("docs"), remove_rule("src"), push_rule("agent/work", 10, true)];
    let orders = [[0, 1, 2], [0, 2, 1], [1, 0, 2], [1, 2, 0], [2, 0, 1], [2, 1, 0]];
    let within = link_with(vec![push_rule("agent/work", 3, false), remove_rule("src/lib")]);
    let outside = link_with(vec![remove_rule("src/lib"), remove_rule("etc")]);
    for order in orders {
        let raw = action_grant(order.iter().map(|&i| rules[i].clone()).collect());
        let facts = chain_acting(std::slice::from_ref(&within), Some(&raw), NOW).unwrap();
        assert_eq!(facts.actions, within.actions);
        assert!(chain_acting(std::slice::from_ref(&outside), Some(&raw), NOW).is_err());
    }
}

#[test]
fn rules_pass_exactly_where_each_is_within_one_of_the_parent() {
    let parents = vec![remove_rule("docs"), remove_rule("src"), push_rule("agent/work", 10, true)];
    let turned: Vec<ActionRule> = parents.iter().rev().cloned().collect();
    let within =
        vec![push_rule("agent/work", 3, false), remove_rule("src/lib"), remove_rule("docs")];
    for parents in [&parents, &turned] {
        assert_eq!(narrow_actions(parents, within.clone(), 0), Ok(within.clone()));
        assert_eq!(narrow_actions(parents, Vec::new(), 0), Ok(Vec::new()));
        assert_eq!(
            narrow_actions(parents, vec![remove_rule("src"), http_rule()], 4),
            Err(ChainRefusal::ActionNotGranted { index: 4 })
        );
        assert_eq!(
            narrow_actions(parents, vec![remove_rule("etc")], 4),
            Err(ChainRefusal::ActionWidens {
                index: 4,
                why: ActionRefusal::WiderLimiter { limiter: "prefix" },
            })
        );
    }
}
