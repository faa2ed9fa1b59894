//! Bindings, orders, receipts and transfers.

use oc_protocol::control;
use oc_protocol::control::{
    assemble, continuity, request_claims, split_request, transfer_claims, verify_chain, Binding,
    ChainError, Continuity, ControlRequest, Durability, Effective, OldLeases, Outcome, Payload,
    Receipt, Recovery, SignedRequest, SignedTransfer, Status, Transfer, MAX_DOCUMENT_LEN,
    MAX_REQUEST_LIFETIME, MAX_SIGNERS,
};
use oc_protocol::error::FormatError;
use oc_protocol::tlv::TlvWriter;
use oc_protocol::transcript::{Claim, Label, Transcript};

/// A keyed checksum in the place of a signature: it shows which key and which bytes a
/// signature was made with.
#[derive(Clone, Copy)]
struct Signer {
    key: [u8; 32],
}

impl Signer {
    fn from_seed(seed: &[u8; 32]) -> Signer {
        let mut key = *seed;
        for byte in key.iter_mut() {
            *byte = byte.wrapping_mul(5).wrapping_add(3);
        }
        Signer { key }
    }

    fn public_key(&self) -> [u8; 32] {
        self.key
    }

    fn sign(&self, t: &Transcript) -> Result<[u8; 64], ()> {
        let label = format!("{:?}", t.label);
        let mut out = [0u8; 64];
        for lane in 0..8u64 {
            let mut sum = 0xcbf2_9ce4_8422_2325u64.wrapping_add(lane.wrapping_mul(0x9e37_79b9));
            for byte in self.key.iter().chain(label.as_bytes()).chain(&[0]).chain(&t.body) {
                sum = (sum ^ u64::from(*byte)).wrapping_mul(0x0100_0000_01b3);
                sum ^= sum >> 29;
            }
            let at = lane as usize * 8;
            out[at..at + 8].copy_from_slice(&sum.to_le_bytes());
        }
        Ok(out)
    }
}

/// Whether a claimed signature holds.
fn holds(claim: &Claim) -> bool {
    Signer { key: claim.key }.sign(&claim.transcript).unwrap() == claim.signature
}

/// Whether a document makes a claim, and it holds.
fn made_and_holds(claim: Result<Claim, FormatError>) -> bool {
    match claim {
        Ok(claim) => holds(&claim),
        Err(_) => false,
    }
}

fn digest(bytes: &[u8]) -> [u8; 32] {
    let sum = Signer::from_seed(&[0; 32]).sign(
        &Transcript::new(Label::DirectoryEntry, bytes),
    ).unwrap();
    let mut out = [0u8; 32];
    out.copy_from_slice(&sum[..32]);
    out
}

fn sign_binding(b: &Binding, s: &Signer) -> Result<Vec<u8>, FormatError> {
    let signature = s.sign(&b.transcript()?).unwrap();
    b.sign(&s.public_key(), Some(signature))
}

fn open_binding(bytes: &[u8], anchor: &[u8; 32]) -> Result<Binding, FormatError> {
    Binding::open(bytes, anchor, made_and_holds(Binding::claim(bytes, anchor)))
}

fn sign_receipt(r: &Receipt, s: &Signer) -> Result<Vec<u8>, FormatError> {
    r.sign(Some(s.sign(&r.transcript()?).unwrap()))
}

fn open_receipt(bytes: &[u8], key: &[u8; 32]) -> Result<Receipt, FormatError> {
    Receipt::open(bytes, made_and_holds(Receipt::claim(bytes, key)))
}

fn sign_request(r: &ControlRequest, s: &Signer) -> Result<Vec<u8>, FormatError> {
    r.sign(s.public_key(), Some(s.sign(&r.transcript()?).unwrap()))
}

fn sign_transfer(t: &Transfer, s: &Signer) -> Result<Vec<u8>, FormatError> {
    t.sign(s.public_key(), Some(s.sign(&t.transcript()?).unwrap()))
}

/// Of each claimed signature, whether it holds.
fn held(claims: Result<Vec<Claim>, FormatError>) -> Vec<bool> {
    match claims {
        Ok(claims) => claims.iter().map(holds).collect(),
        Err(_) => Vec::new(),
    }
}

/// The signature of one more under what the others signed.
fn join_in(claims: Result<Vec<Claim>, FormatError>, s: &Signer) -> Option<[u8; 64]> {
    claims.ok().map(|claims| s.sign(&claims[0].transcript).unwrap())
}

fn open_request(bytes: &[u8]) -> Result<SignedRequest, FormatError> {
    let hash = match split_request(bytes) {
        Ok((_, body)) => digest(body),
        Err(_) => [0; 32],
    };
    control::open_request(bytes, &held(request_claims(bytes)), hash)
}

fn cosign(bytes: &[u8], s: &Signer) -> Result<Vec<u8>, FormatError> {
    let signature = join_in(request_claims(bytes), s);
    control::cosign(bytes, &held(request_claims(bytes)), s.public_key(), signature)
}

fn open_transfer(bytes: &[u8]) -> Result<(Transfer, Vec<[u8; 32]>), FormatError> {
    control::open_transfer(bytes, &held(transfer_claims(bytes)))
}

fn cosign_transfer(bytes: &[u8], s: &Signer) -> Result<Vec<u8>, FormatError> {
    let signature = join_in(transfer_claims(bytes), s);
    control::cosign_transfer(bytes, &held(transfer_claims(bytes)), s.public_key(), signature)
}

fn server() -> Signer {
    Signer::from_seed(&[0x41; 32])
}

fn binding(signer: &Signer) -> Binding {
    Binding {
        tenant: "acme".into(),
        authority_id: [0x0a; 16],
        epoch: 0,
        revision: 0,
        lease_public: signer.public_key(),
        sealing_public: [0x0b; 32],
        urls: vec!["127.0.0.1:4455".into()],
        pins: vec![],
        durability: Durability::Local,
        recovery: Recovery::Package,
        status: Status::Serving,
        roster: vec![],
        threshold: 0,
        operation_id: [0; 16],
        previous: [0; 32],
        issued_at: 1_800_000_000,
        expires_at: 1_800_086_400,
    }
}

#[test]
fn a_binding_opens_only_under_the_key_trusted_in_advance() {
    let s = server();
    let b = binding(&s);
    let bytes = sign_binding(&b, &s).unwrap();
    assert_eq!(open_binding(&bytes, &s.public_key()).unwrap(), b);
    let other = Signer::from_seed(&[0x42; 32]);
    let mut forged = b.clone();
    forged.lease_public = other.public_key();
    let forged = sign_binding(&forged, &other).unwrap();
    assert!(open_binding(&forged, &s.public_key()).is_err(), "привязка со своим ключом принята");
    for i in 0..bytes.len() {
        let mut spoiled = bytes.clone();
        spoiled[i] ^= 1;
        assert!(open_binding(&spoiled, &s.public_key()).is_err(), "порча байта {i} не замечена");
    }
    assert!(sign_binding(&b, &other).is_err());
}

#[test]
fn continuity_names_rollback_fork_and_gaps() {
    let s = server();
    let first = binding(&s);
    let first_bytes = sign_binding(&first, &s).unwrap();
    let mut second = first.clone();
    second.revision = 1;
    second.operation_id = [1; 16];
    second.previous = digest(&first_bytes);
    let second_bytes = sign_binding(&second, &s).unwrap();
    assert_eq!(
        continuity(&first, &digest(&first_bytes), &second, &digest(&second_bytes)),
        Continuity::Newer { adjacent: true },
    );
    assert_eq!(
        continuity(&second, &digest(&second_bytes), &first, &digest(&first_bytes)),
        Continuity::Rollback,
    );
    assert_eq!(
        continuity(&first, &digest(&first_bytes), &first, &digest(&first_bytes)),
        Continuity::Same,
    );
    let mut sibling = second.clone();
    sibling.urls = vec!["10.0.0.1:1".into()];
    let sibling_bytes = sign_binding(&sibling, &s).unwrap();
    assert_eq!(
        continuity(&second, &digest(&second_bytes), &sibling, &digest(&sibling_bytes)),
        Continuity::Fork,
    );
    let mut detached = second.clone();
    detached.previous = [9; 32];
    let detached_bytes = sign_binding(&detached, &s).unwrap();
    assert_eq!(
        continuity(&first, &digest(&first_bytes), &detached, &digest(&detached_bytes)),
        Continuity::Fork,
    );
    let mut far = second.clone();
    far.revision = 5;
    let far_bytes = sign_binding(&far, &s).unwrap();
    assert_eq!(
        continuity(&first, &digest(&first_bytes), &far, &digest(&far_bytes)),
        Continuity::Newer { adjacent: false },
    );
    let mut other_tenant = second;
    other_tenant.tenant = "globex".into();
    let other_bytes = sign_binding(&other_tenant, &s).unwrap();
    assert_eq!(
        continuity(&first, &digest(&first_bytes), &other_tenant, &digest(&other_bytes)),
        Continuity::Unrelated,
    );
}

fn request() -> ControlRequest {
    ControlRequest {
        tenant: "acme".into(),
        authority_id: [0x0a; 16],
        epoch: 0,
        operation_id: [0x77; 16],
        expected_revision: 3,
        issued_at: 1_800_000_000,
        expires_at: 1_800_000_600,
        payload: Payload::SetEndpoints {
            urls: vec!["a:1".into(), "b:2".into()],
            pins: vec![[5; 32]],
        },
    }
}

#[test]
fn a_request_carries_several_signatures_over_one_body() {
    let a = Signer::from_seed(&[0x51; 32]);
    let b = Signer::from_seed(&[0x52; 32]);
    let one = sign_request(&request(), &a).unwrap();
    let two = cosign(&one, &b).unwrap();
    let opened = open_request(&two).unwrap();
    assert_eq!(opened.request, request());
    assert_eq!(opened.signers.len(), 2);
    assert_eq!(
        opened.body_hash,
        open_request(&one).unwrap().body_hash,
        "отпечаток намерения зависит от подписей",
    );
    assert!(cosign(&two, &b).is_err(), "второй подписью того же ключа кворум набирается");
    for i in 0..two.len() {
        let mut spoiled = two.clone();
        spoiled[i] ^= 1;
        assert!(open_request(&spoiled).is_err(), "порча байта {i} намерения не замечена");
    }
}

#[test]
fn every_payload_round_trips_and_a_long_lived_request_is_refused() {
    let a = Signer::from_seed(&[0x53; 32]);
    let payloads = [
        Payload::SetEndpoints { urls: vec!["x:1".into()], pins: vec![] },
        Payload::SetDurability(Durability::Witnessed),
        Payload::SetRoster { keys: vec![[1; 32], [2; 32]], threshold: 2 },
        Payload::SetRecovery(Recovery::NotRecoverable),
        Payload::Decommission { status: Status::ArchiveOnly, reason: "договор окончен".into() },
        Payload::AddAuthor([3; 32]),
        Payload::RemoveAuthor([4; 32]),
    ];
    for payload in payloads {
        let r = ControlRequest { payload, ..request() };
        let bytes = sign_request(&r, &a).unwrap();
        assert_eq!(open_request(&bytes).unwrap().request, r);
    }
    let long = ControlRequest { expires_at: 1_800_000_000 + MAX_REQUEST_LIFETIME + 1, ..request() };
    assert!(sign_request(&long, &a).is_err(), "намерение дольше суток принято");
    let backwards = ControlRequest { expires_at: 1_800_000_000, ..request() };
    assert!(sign_request(&backwards, &a).is_err());
    let unsorted = ControlRequest {
        payload: Payload::SetRoster { keys: vec![[2; 32], [1; 32]], threshold: 1 },
        ..request()
    };
    assert!(sign_request(&unsorted, &a).is_err(), "неупорядоченный состав принят");
    let transfer = ControlRequest {
        payload: Payload::Decommission { status: Status::Transferred, reason: String::new() },
        ..request()
    };
    assert!(sign_request(&transfer, &a).is_err(), "передача под видом прекращения принята");
}

#[test]
fn a_receipt_is_bound_to_the_server_key() {
    let s = server();
    let receipt = Receipt {
        request_hash: [1; 32],
        operation_id: [2; 16],
        outcome: Outcome::PendingDurability,
        revision: 4,
        commit: [3; 32],
        epoch: 0,
        durability: Durability::Local,
        reason: "реплика не ответила".into(),
        at: 1_800_000_000,
    };
    let bytes = sign_receipt(&receipt, &s).unwrap();
    assert_eq!(open_receipt(&bytes, &s.public_key()).unwrap(), receipt);
    let other = Signer::from_seed(&[0x43; 32]);
    assert!(open_receipt(&bytes, &other.public_key()).is_err());
}

#[test]
fn a_transfer_opens_only_while_every_signature_holds() {
    let s = server();
    let a = Signer::from_seed(&[0x61; 32]);
    let b = Signer::from_seed(&[0x62; 32]);
    let transfer = Transfer {
        authority_id: [0x60; 16],
        from_epoch: 0,
        to_epoch: 1,
        from_lease: a.public_key(),
        transition_at: 1_800_000_500,
        old_leases: OldLeases::RejectAfterTransition,
        issued_at: 1_800_000_000,
        expires_at: 1_800_086_400,
        binding: sign_binding(&binding(&s), &s).unwrap(),
    };

    let one = sign_transfer(&transfer, &a).unwrap();
    let two = cosign_transfer(&one, &b).unwrap();
    let (opened, signers) = open_transfer(&two).unwrap();
    assert_eq!(opened, transfer, "честный сертификат не разобрался");
    assert_eq!(signers.len(), 2, "подписанты потерялись");
    assert!(signers.contains(&a.public_key()) && signers.contains(&b.public_key()));

    for i in 0..two.len() {
        let mut spoiled = two.clone();
        spoiled[i] ^= 1;
        assert!(
            open_transfer(&spoiled).is_err(),
            "порча байта {i} сертификата передачи не замечена"
        );
    }
}

#[test]
fn an_unparsable_body_is_refused_by_the_signature_first() {
    let a = Signer::from_seed(&[0x71; 32]);
    let mut w = TlvWriter::new();
    w.put(0x7ABC, b"no reader knows this tag").unwrap();
    let body = w.finish().to_vec();

    let request_door = |bytes: &[u8]| open_request(bytes).map(|_| ());
    let transfer_door = |bytes: &[u8]| open_transfer(bytes).map(|_| ());
    let doors: [(&str, Label, &dyn Fn(&[u8]) -> Result<(), FormatError>); 2] = [
        ("open_request", Label::ControlRequest, &request_door),
        ("open_transfer", Label::AuthorityTransfer, &transfer_door),
    ];

    for (name, who, open) in doors {
        let sig = a.sign(&Transcript::new(who, &body)).unwrap();
        let honest = assemble(&body, &vec![(a.public_key(), sig)]).unwrap();
        assert_eq!(
            open(&honest),
            Err(FormatError::UnknownCriticalField { tag: 0x7ABC }),
            "{name}: при верной подписи обязан отказать РАЗБОР, иначе проба не различает порядок"
        );
        let mut spoiled = sig;
        spoiled[0] ^= 1;
        let forged = assemble(&body, &vec![(a.public_key(), spoiled)]).unwrap();
        assert_eq!(
            open(&forged),
            Err(FormatError::BadHeaderSignature),
            "{name}: незаверенное тело разобрано до проверки подписи — код отказа сообщён о том, чего никто не подписывал"
        );
    }
}

#[test]
fn documents_beyond_the_size_limits_are_refused_before_parsing() {
    let a = Signer::from_seed(&[0x51; 32]);
    let good = sign_request(&request(), &a).unwrap();
    assert!(open_request(&good).is_ok(), "годное намерение не разобралось");

    let mut huge = good.clone();
    huge.resize(MAX_DOCUMENT_LEN + 1, 0);
    assert!(open_request(&huge).is_err(), "документ длиннее предела разобран");

    let mut many = good.clone();
    many[0] = u8::try_from(MAX_SIGNERS).unwrap() + 1;
    assert!(open_request(&many).is_err(), "подписей больше предела принято");

    let mut none = good.clone();
    none[0] = 0;
    assert!(open_request(&none).is_err(), "документ без подписей принят");

    let transfer = Transfer {
        authority_id: [0x60; 16],
        from_epoch: 0,
        to_epoch: 1,
        from_lease: a.public_key(),
        transition_at: 1_800_000_500,
        old_leases: OldLeases::RejectAfterTransition,
        issued_at: 1_800_000_000,
        expires_at: 1_800_086_400,
        binding: vec![0u8; MAX_DOCUMENT_LEN + 1],
    };
    assert!(sign_transfer(&transfer, &a).is_err(), "передача с огромной привязкой подписана");
}

fn key_of(bytes: &[u8]) -> Option<[u8; 32]> {
    let key = Binding::peek(bytes).ok()?.lease_public;
    if made_and_holds(Binding::claim(bytes, &key)) {
        Some(key)
    } else {
        None
    }
}

fn controller(n: u8) -> Signer {
    Signer::from_seed(&[n; 32])
}

/// A binding with two controllers, of whom both have to sign.
fn governed(signer: &Signer, epoch: u64) -> Binding {
    let mut roster = vec![controller(0x61).public_key(), controller(0x62).public_key()];
    roster.sort();
    Binding { epoch, roster, threshold: 2, ..binding(signer) }
}

fn passing(from: &Signer, to: &Signer, epoch: u64) -> Transfer {
    Transfer {
        authority_id: [0x0a; 16],
        from_epoch: epoch,
        to_epoch: epoch + 1,
        from_lease: from.public_key(),
        transition_at: 1_800_000_500,
        old_leases: OldLeases::Honour,
        issued_at: 1_800_000_000,
        expires_at: 1_800_086_400,
        binding: sign_binding(&governed(to, epoch + 1), to).unwrap(),
    }
}

fn both(t: &Transfer) -> Vec<u8> {
    cosign_transfer(&sign_transfer(t, &controller(0x61)).unwrap(), &controller(0x62)).unwrap()
}

/// Check a chain with the signatures in it.
fn follow(
    first: &[u8],
    transfers: &[Vec<u8>],
    anchor: &[u8; 32],
    now: i64,
) -> Result<Effective, ChainError> {
    let marks: Vec<Vec<bool>> = transfers.iter().map(|t| held(transfer_claims(t))).collect();
    let keys: Vec<Option<[u8; 32]>> = transfers
        .iter()
        .map(|t| open_transfer(t).ok().and_then(|(t, _)| key_of(&t.binding)))
        .collect();
    let mut signed = Vec::new();
    for i in 0..transfers.len() {
        signed.push(SignedTransfer { bytes: &transfers[i], held: &marks[i], signer: keys[i] });
    }
    let signer = if made_and_holds(Binding::claim(first, anchor)) { Some(*anchor) } else { None };
    verify_chain(first, signer, &signed, anchor, now)
}

const THEN: i64 = 1_800_000_100;

#[test]
fn authority_passes_on_along_a_chain() {
    let (a, b, c) = (server(), controller(0x45), controller(0x46));
    let first = sign_binding(&governed(&a, 0), &a).unwrap();
    let none = follow(&first, &[], &a.public_key(), THEN).unwrap();
    assert_eq!(none.binding, governed(&a, 0));
    assert_eq!(none.bytes, first);
    assert_eq!(none.transition_at, None);
    let transfers = vec![both(&passing(&a, &b, 0)), both(&passing(&b, &c, 1))];
    let last = follow(&first, &transfers, &a.public_key(), THEN).unwrap();
    assert_eq!(last.binding, governed(&c, 2));
    assert_eq!(last.previous_keys, vec![a.public_key(), b.public_key()]);
    assert_eq!(last.transition_at, Some(1_800_000_500));
    assert_eq!(last.old_leases, Some(OldLeases::Honour));
}

#[test]
fn a_chain_is_refused_for_each_of_its_reasons() {
    let (a, b) = (server(), controller(0x45));
    let key = a.public_key();
    let first = sign_binding(&governed(&a, 0), &a).unwrap();
    let ok = passing(&a, &b, 0);
    let try_one = |t: &Transfer| follow(&first, &[both(t)], &key, THEN);
    assert!(try_one(&ok).is_ok());

    assert_eq!(follow(&first, &[], &b.public_key(), THEN), Err(ChainError::NotAnchored));
    assert!(matches!(follow(&[1; 9], &[], &key, THEN), Err(ChainError::Malformed(_))));

    let lone = sign_transfer(&ok, &controller(0x61)).unwrap();
    assert_eq!(
        follow(&first, &[lone], &key, THEN),
        Err(ChainError::NotAuthorized { have: 1, need: 2 })
    );
    let alien = cosign_transfer(
        &sign_transfer(&ok, &controller(0x63)).unwrap(),
        &controller(0x64),
    )
    .unwrap();
    assert_eq!(
        follow(&first, &[alien], &key, THEN),
        Err(ChainError::NotAuthorized { have: 0, need: 2 })
    );

    let other = Transfer { authority_id: [0x0c; 16], ..ok.clone() };
    assert_eq!(try_one(&other), Err(ChainError::Broken("тождество сервера сменилось")));
    let late = Transfer { from_epoch: 1, to_epoch: 2, ..ok.clone() };
    assert_eq!(
        try_one(&late),
        Err(ChainError::Broken("сертификат выписан не от действующей эпохи"))
    );
    let keyed = Transfer { from_lease: b.public_key(), ..ok.clone() };
    assert_eq!(
        try_one(&keyed),
        Err(ChainError::Broken("сертификат называет другой прежний ключ"))
    );
    assert_eq!(
        follow(&first, &[both(&ok)], &key, ok.expires_at + 1),
        Err(ChainError::Expired { expires_at: ok.expires_at, now: ok.expires_at + 1 })
    );
    assert!(follow(&first, &[both(&ok)], &key, ok.expires_at).is_ok());
    let foreign = governed(&b, 1).sign(&b.public_key(), Some([0; 64])).unwrap();
    let unsigned = Transfer { binding: foreign, ..ok.clone() };
    assert_eq!(
        try_one(&unsigned),
        Err(ChainError::Broken("привязка новой эпохи не подписана своим ключом"))
    );
    let jump = Transfer { binding: sign_binding(&governed(&b, 7), &b).unwrap(), ..ok.clone() };
    assert_eq!(
        try_one(&jump),
        Err(ChainError::Broken("привязка новой эпохи не та, что названа сертификатом"))
    );
    let junk = Transfer { binding: vec![1; 70], ..ok.clone() };
    assert!(matches!(try_one(&junk), Err(ChainError::Malformed(_))));
    let skip = Transfer { to_epoch: 2, ..ok };
    assert!(skip.body().is_err());
}

#[test]
fn a_refused_chain_is_put_in_words() {
    assert_eq!(
        ChainError::NotAuthorized { have: 1, need: 2 }.text(),
        "передачу подписали 1 управляющих прежней эпохи из нужных 2: произвольный новый сервер доверенным не становится"
    );
    assert_eq!(
        ChainError::Expired { expires_at: -5, now: i64::MIN }.text(),
        "сертификат передачи просрочен (-5 при текущем -9223372036854775808)"
    );
    assert_eq!(ChainError::Broken("x").text(), "цепочка не сходится: x");
    assert!(matches!(
        follow(&[1; 9], &[], &[2; 32], THEN),
        Err(ChainError::Malformed(why)) if why == "поле 0: длина или значение 9 не допускается"
    ));
}

#[test]
fn a_binding_outside_its_rules_is_refused() {
    let s = server();
    let ok = binding(&s);
    let refused = |b: Binding| b.body().unwrap_err();
    let bad = |tag: u16, len: usize| FormatError::BadFieldLength { tag, len };
    assert_eq!(refused(Binding { tenant: "Acme".into(), ..ok.clone() }), bad(2, 4));
    assert_eq!(refused(Binding { urls: vec![], ..ok.clone() }), bad(8, 0));
    assert_eq!(refused(Binding { urls: vec!["a b".into()], ..ok.clone() }), bad(8, 3));
    assert_eq!(refused(Binding { urls: vec!["a".into(); 9], ..ok.clone() }), bad(8, 9));
    assert_eq!(refused(Binding { pins: vec![[1; 32]; 9], ..ok.clone() }), bad(9, 9));
    assert_eq!(refused(Binding { pins: vec![[2; 32], [1; 32]], ..ok.clone() }), bad(9, 2));
    assert_eq!(refused(Binding { threshold: 1, ..ok.clone() }), bad(14, 1));
    assert_eq!(
        refused(Binding { roster: vec![[1; 32]], threshold: 2, ..ok.clone() }),
        bad(14, 2)
    );
    assert_eq!(refused(Binding { expires_at: ok.issued_at, ..ok.clone() }), bad(18, 8));
    assert_eq!(refused(Binding { operation_id: [1; 16], ..ok.clone() }), bad(16, 32));
    assert_eq!(refused(Binding { revision: 1, ..ok.clone() }), bad(16, 32));
    assert!(Binding { revision: 1, previous: [1; 32], ..ok }.body().is_ok());
}

#[test]
fn an_address_named_twice_is_written_and_not_read() {
    let s = server();
    let twice = Binding { urls: vec!["a:1".into(), "a:1".into()], ..binding(&s) };
    let bytes = sign_binding(&twice, &s).unwrap();
    assert_eq!(Binding::peek(&bytes), Err(FormatError::BadFieldLength { tag: 8, len: 3 }));
    let once = Binding { urls: vec!["a:1".into(), "b:1".into()], ..binding(&s) };
    let back = Binding::peek(&sign_binding(&once, &s).unwrap()).unwrap();
    assert!(back.names_url("b:1"));
    assert!(!back.names_url("b:11"));
}

#[test]
fn an_optional_record_does_not_spoil_the_form_of_a_binding() {
    let s = server();
    let mut bytes = sign_binding(&binding(&s), &s).unwrap();
    let mut w = TlvWriter::new();
    w.put(0x8003, b"later").unwrap();
    bytes.extend_from_slice(&w.finish());
    assert_eq!(Binding::peek(&bytes).unwrap(), binding(&s));
}

#[test]
fn a_signer_that_fails_leaves_no_document() {
    let s = server();
    let refused = Err(FormatError::BadHeaderSignature);
    assert_eq!(binding(&s).sign(&s.public_key(), None), refused);
    assert_eq!(request().sign(s.public_key(), None), refused);
    let one = sign_request(&request(), &s).unwrap();
    assert_eq!(control::cosign(&one, &[true], [9; 32], None), refused);
    assert_eq!(control::cosign(&one, &[false], [9; 32], Some([0; 64])), refused);
    assert_eq!(
        control::open_request(&one, &[], [0; 32]).unwrap_err(),
        FormatError::BadHeaderSignature,
    );
}

#[test]
fn an_envelope_orders_its_signatures() {
    let signatures = vec![([9u8; 32], [1u8; 64]), ([3; 32], [2; 64]), ([5; 32], [3; 64])];
    let bytes = assemble(b"body", &signatures).unwrap();
    assert_eq!(bytes[0], 3);
    assert_eq!(bytes.len(), 1 + 3 * 96 + 4);
    let (back, body) = split_request(&bytes).unwrap();
    assert_eq!(back, vec![([3; 32], [2; 64]), ([5; 32], [3; 64]), ([9; 32], [1; 64])]);
    assert_eq!(body, b"body");
    let twins = vec![([9u8; 32], [1u8; 64]), ([9; 32], [2; 64])];
    assert_eq!(assemble(b"body", &twins), Err(FormatError::BadFieldLength { tag: 0, len: 2 }));
    assert_eq!(assemble(b"body", &vec![]), Err(FormatError::BadFieldLength { tag: 0, len: 0 }));
}

#[test]
fn the_numbers_of_control_are_fixed() {
    for n in 0..=255u8 {
        assert_eq!(Durability::from_u8(n).map(|d| d.as_u8()), if n < 3 { Some(n) } else { None });
        assert_eq!(Recovery::from_u8(n).map(|d| d.as_u8()), if n < 3 { Some(n) } else { None });
        assert_eq!(Status::from_u8(n).map(|d| d.as_u8()), if n < 4 { Some(n) } else { None });
        assert_eq!(OldLeases::from_u8(n).map(|d| d.as_u8()), if n < 2 { Some(n) } else { None });
        let outcome = Outcome::from_u8(n).map(|d| d.as_u8());
        assert_eq!(outcome, if (1..6).contains(&n) { Some(n) } else { None });
    }
    assert!(Durability::Local < Durability::Witnessed);
}

#[test]
fn every_signature_covers_the_same_body() {
    let (a, b) = (controller(0x61), controller(0x62));
    let envelope = both(&passing(&server(), &controller(0x45), 0));
    let claims = transfer_claims(&envelope).unwrap();
    assert_eq!(claims.len(), 2);
    let (_, body) = split_request(&envelope).unwrap();
    for claim in &claims {
        assert_eq!(claim.transcript, Transcript::new(Label::AuthorityTransfer, body));
        assert!(holds(claim));
    }
    let mut keys = vec![a.public_key(), b.public_key()];
    keys.sort();
    assert_eq!(claims.iter().map(|c| c.key).collect::<Vec<_>>(), keys);

    // The same envelope makes other claims where an order is expected.
    let others = request_claims(&envelope).unwrap();
    assert!(others.iter().all(|c| c.transcript.label == Label::ControlRequest && !holds(c)));
    assert_eq!(
        control::open_transfer(&envelope, &[true, false]),
        Err(FormatError::BadHeaderSignature),
    );
    assert_eq!(control::open_transfer(&envelope, &[true]), Err(FormatError::BadHeaderSignature));
    assert!(request_claims(&[]).is_err());
}
