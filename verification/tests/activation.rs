//! The messages of devices, authors and agents.

use oc_protocol::access::AskAccess;
use oc_protocol::action::MAX_REFUSAL;
use oc_protocol::activation;
use oc_protocol::activation::{
    chain_tag, decode_deny, decode_grant, decode_hello, decode_req, decode_request, deny_tag,
    encode_deny, encode_grant, encode_req, encode_request, encode_response, grant_tag, hello_tag,
    is_session_sealed, join_chain, journal_event, log_view_in, req_tag, split_chain, split_request_mac,
    ActivateReq, Challenge, ClockReport, CollectReq, Deny, Grant, Hello, Notice, Proof, Request,
    Response, SlotBlob,
    KIND_ACCEPTED, KIND_ACTION_GRANTED, KIND_ACTION_PENDING, KIND_ACTION_REFUSED,
    KIND_ACTION_REQUESTS, KIND_ACTIVATE, KIND_ASKED, KIND_ATTESTED, KIND_ATTEST_CREDENTIAL,
    KIND_ATTEST_NONCE, KIND_ATTEST_OPEN, KIND_ATTEST_SECRET, KIND_CHAIN, KIND_CHAIN_STORED,
    KIND_COLLECT, KIND_CONTROL, KIND_DECIDE, KIND_DECIDED, KIND_DECIDE_ACTION, KIND_FETCH_CHAIN,
    KIND_HELLO, KIND_LOG_VIEW, KIND_NO_CHAIN, KIND_PROVE, KIND_PUT_ACTION_GRANT, KIND_PUT_DELEGATION,
    KIND_PUT_GRANT, KIND_REGISTER, KIND_RENEW, KIND_REPORT_ACTION, KIND_REQUEST_ACTION, KIND_REVOKE,
    KIND_WAITING, KIND_WATCH_AUTHOR, MAX_CHAIN_DOCUMENTS, MAX_DOCUMENT, MAX_WATCH_FILES,
};
use oc_protocol::attestation::{basis, Evidence};
use oc_protocol::directory::{KeyState, Record};
use oc_protocol::error::FormatError;
use oc_protocol::kem::KemAlg;
use oc_protocol::tlv::{TlvReader, TlvWriter};

fn decode_response(bytes: &[u8]) -> Result<Response, FormatError> {
    activation::decode_response(bytes, &[], None)
}

fn req() -> ActivateReq {
    ActivateReq {
        file_id: [0x11; 16],
        policy_hash: [0x22; 32],
        device_fpr: [0x33; 32],
        device_kem: 1,
        device_public: vec![0x44; 32],
        server_slot: SlotBlob { enc: vec![0x55; 32], nonce: [0x66; 24], ct: vec![0x77; 48] },
        lease_seconds: 8 * 3600,
        device_clock: Some(ClockReport { reset_count: 7, clock_ms: 900_000, read_at: 1_700 }),
        operation_id: None,
    }
}

#[test]
fn the_operation_id_survives_the_wire_and_documents_without_it_are_unchanged() {
    let mut r = req();
    let bare = encode_req(&r).unwrap();
    r.operation_id = Some([0xab; 32]);
    let with_id = encode_req(&r).unwrap();
    assert_eq!(decode_req(&with_id).unwrap(), r);
    assert_eq!(&with_id[..bare.len()], bare.as_slice(), "поле тождества сдвинуло прежние байты");
    assert_eq!(&with_id[bare.len()..bare.len() + 2], &req_tag::OPERATION_ID.to_le_bytes());
    let mut without = r.clone();
    without.operation_id = None;
    assert_eq!(decode_req(&bare).unwrap(), without, "документ без тождества перестал разбираться");

    for grant in [
        Grant { share: vec![1; 40], lease: vec![2; 120], operation_id: None },
        Grant { share: vec![1; 40], lease: vec![2; 120], operation_id: Some([0x11; 32]) },
    ] {
        let bytes = encode_response(&Response::Granted(grant.clone())).unwrap();
        assert_eq!(decode_response(&bytes).unwrap(), Response::Granted(grant));
    }
    for deny in [Deny::text("нет"), Deny { text: "нет".to_string(), operation_id: Some([0x22; 32]) }] {
        let bytes = encode_response(&Response::Denied(deny.clone())).unwrap();
        assert_eq!(decode_response(&bytes).unwrap(), Response::Denied(deny));
    }
}

#[test]
fn the_operation_id_and_its_echo_check_their_length_exactly() {
    let mut r = req();
    r.operation_id = Some([0x5c; 32]);
    for wrong in [31usize, 33, 0] {
        let bytes = encode_req(&r).unwrap();
        let mut reader = TlvReader::new(&bytes);
        let mut w = TlvWriter::new();
        while let Some(field) = reader.next_field().unwrap() {
            if field.tag == req_tag::OPERATION_ID {
                w.put(field.tag, &vec![0x5c; wrong]).unwrap();
            } else {
                w.put(field.tag, field.value).unwrap();
            }
        }
        match decode_req(&w.finish()) {
            Err(FormatError::BadFieldLength { tag, len }) => {
                assert_eq!((tag, len), (req_tag::OPERATION_ID, wrong));
            }
            other => panic!("тождество длиной {wrong} дало {other:?}"),
        }

        let mut g = TlvWriter::new();
        g.put(grant_tag::SHARE, &[1; 8]).unwrap();
        g.put(grant_tag::LEASE, &[2; 8]).unwrap();
        g.put(grant_tag::OPERATION_ID, &vec![3; wrong]).unwrap();
        assert!(
            matches!(
                decode_grant(&g.finish()),
                Err(FormatError::BadFieldLength { tag: grant_tag::OPERATION_ID, .. }),
            ),
            "эхо выдачи длиной {wrong} принято"
        );
        let mut d = TlvWriter::new();
        d.put(deny_tag::TEXT, "нет".as_bytes()).unwrap();
        d.put(deny_tag::OPERATION_ID, &vec![4; wrong]).unwrap();
        assert!(
            matches!(
                decode_deny(&d.finish()),
                Err(FormatError::BadFieldLength { tag: deny_tag::OPERATION_ID, .. }),
            ),
            "эхо отказа длиной {wrong} принято"
        );
    }
    let mut bytes = encode_req(&r).unwrap();
    bytes.extend_from_slice(&10u16.to_le_bytes());
    bytes.extend_from_slice(&1u32.to_le_bytes());
    bytes.push(0);
    assert!(matches!(decode_req(&bytes), Err(FormatError::UnknownCriticalField { tag: 10 })));
}

#[test]
fn author_orders_survive_a_round_trip_and_damage_is_refused() {
    let register = Request::Register { header: vec![0x88; 300], order: vec![0x99; 120] };
    let bytes = encode_request(&register).unwrap();
    assert_eq!(bytes[0], KIND_REGISTER);
    assert_eq!(decode_request(&bytes).unwrap(), register);
    assert!(decode_request(&bytes[..200]).is_err(), "обрубок заголовка принят");
    assert!(decode_request(&bytes[..305]).is_err(), "пустое распоряжение принято");
    assert!(encode_request(&Request::Register { header: vec![], order: vec![1] }).is_err());
    assert!(encode_request(&Request::Register { header: vec![1], order: vec![] }).is_err());

    let revoke = Request::Revoke { order: vec![0x77; 96] };
    let bytes = encode_request(&revoke).unwrap();
    assert_eq!(bytes[0], KIND_REVOKE);
    assert_eq!(decode_request(&bytes).unwrap(), revoke);
    assert!(encode_request(&Request::Revoke { order: vec![] }).is_err());
}

#[test]
fn attestation_messages_survive_the_wire_and_damage_is_refused() {
    let evidence = Evidence {
        ek_public: vec![1; 316],
        ek_certificate: None,
        intermediates: vec![],
        identity_public: vec![2; 90],
        attest: vec![3; 173],
        signature: vec![4; 72],
        device_public: vec![5; 90],
    };
    for request in [
        Request::AttestOpen,
        Request::AttestEvidence(Box::new(evidence)),
        Request::AttestSecret([7; 32]),
    ] {
        let bytes = encode_request(&request).unwrap();
        assert_eq!(decode_request(&bytes).unwrap(), request);
        let mut tail = bytes.clone();
        tail.push(0);
        assert!(decode_request(&tail).is_err(), "хвост принят: {request:?}");
    }
    assert_eq!(encode_request(&Request::AttestOpen).unwrap(), vec![KIND_ATTEST_OPEN]);
    assert!(decode_request(&[KIND_ATTEST_SECRET, 1, 2]).is_err());

    let credential = vec![0, 2, 9, 9, 0, 3, 1, 2, 3];
    for response in [
        Response::AttestNonce([8; 32]),
        Response::AttestCredential(credential),
        Response::Attested { basis: basis::ENROLLED_EK },
    ] {
        let bytes = encode_response(&response).unwrap();
        assert_eq!(decode_response(&bytes).unwrap(), response);
    }
    assert!(decode_response(&[KIND_ATTESTED, 0]).is_err(), "основание вне реестра");
    assert!(decode_response(&[KIND_ATTESTED, 1, 1]).is_err());
    assert!(decode_response(&[KIND_ATTEST_CREDENTIAL, 0, 5, 1]).is_err());
    assert!(decode_response(&[KIND_ATTEST_NONCE; 32]).is_err());
}

#[test]
fn an_author_scope_subscription_survives_the_wire_and_damage_is_refused() {
    let watch = Request::WatchAuthor { since: 42, evidence: vec![0x5c; 140] };
    let bytes = encode_request(&watch).unwrap();
    assert_eq!(bytes[0], KIND_WATCH_AUTHOR);
    assert_eq!(decode_request(&bytes).unwrap(), watch);
    assert!(decode_request(&bytes[..5]).is_err(), "обрубок курсора принят");
    assert!(decode_request(&bytes[..9 + 64]).is_err(), "доказательство из одной подписи принято");
    assert!(encode_request(&Request::WatchAuthor { since: 0, evidence: vec![1; 64] }).is_err());
    assert!(encode_request(&Request::WatchAuthor { since: 0, evidence: Vec::new() }).is_err());
}

#[test]
fn a_renewal_is_an_activation_body_under_its_own_kind() {
    let renew = Request::Renew(Box::new(req()));
    let bytes = encode_request(&renew).unwrap();
    assert_eq!(bytes[0], KIND_RENEW);
    assert_eq!(decode_request(&bytes).unwrap(), renew);
    let activate = encode_request(&Request::Activate(Box::new(req()))).unwrap();
    assert_eq!(&bytes[1..], &activate[1..], "тела обязаны совпадать байт в байт");
    assert_ne!(decode_request(&activate).unwrap(), renew);
}

#[test]
fn watch_and_notices_survive_a_round_trip_and_damage_is_refused() {
    let watch = Request::Watch { files: vec![[0x5a; 16], [0x5b; 16]], since: 77 };
    assert_eq!(decode_request(&encode_request(&watch).unwrap()).unwrap(), watch);
    for notice in [
        Notice::Heartbeat,
        Notice::Event {
            seq: 9,
            event: journal_event::ACCESS_DECIDED,
            file_id: [1; 16],
            device_fpr: Some([0x33; 32]),
        },
        Notice::Event {
            seq: 10,
            event: journal_event::REVOKED,
            file_id: [1; 16],
            device_fpr: None,
        },
    ] {
        let bytes = encode_response(&Response::Notice(notice.clone())).unwrap();
        assert_eq!(decode_response(&bytes).unwrap(), Response::Notice(notice));
    }
    let mut short = encode_response(&Response::Notice(Notice::Event {
        seq: 1, event: 1, file_id: [1; 16], device_fpr: None,
    }))
    .unwrap();
    short.pop();
    assert!(decode_response(&short).is_err());
    let mut tail = encode_response(&Response::Notice(Notice::Heartbeat)).unwrap();
    tail.push(0);
    assert!(decode_response(&tail).is_err());
    let mut cut = encode_request(&watch).unwrap();
    cut.pop();
    assert!(decode_request(&cut).is_err());
    assert!(encode_request(&Request::Watch { files: vec![], since: 0 }).is_err());
    assert!(
        encode_request(
            &Request::Watch { files: vec![[0; 16]; MAX_WATCH_FILES + 1], since: 0 },
        ).is_err(),
    );

    let ask = Request::Revocation { file_id: [7; 16] };
    assert_eq!(decode_request(&encode_request(&ask).unwrap()).unwrap(), ask);
    let doc = Response::Revocation(vec![9; 100]);
    assert_eq!(decode_response(&encode_response(&doc).unwrap()).unwrap(), doc);
    assert_eq!(
        decode_response(&encode_response(&Response::NotRevoked).unwrap()).unwrap(),
        Response::NotRevoked,
    );
    assert!(encode_response(&Response::Revocation(vec![])).is_err());
}

#[test]
fn the_documents_survive_a_round_trip() {
    for clock in [None, Some(ClockReport { reset_count: 0, clock_ms: 0, read_at: 0 })] {
        let mut r = req();
        r.device_clock = clock;
        assert_eq!(decode_req(&encode_req(&r).unwrap()).unwrap(), r);
    }

    let g = Grant { share: vec![1, 2, 3], lease: vec![4; 200], operation_id: None };
    assert_eq!(decode_grant(&encode_grant(&g).unwrap()).unwrap(), g);

    let d = Deny::text("исчерпан лимит устройств (2)");
    assert_eq!(decode_deny(&encode_deny(&d).unwrap()).unwrap(), d);
}

#[test]
fn a_damaged_document_is_refused_rather_than_guessed() {
    let bytes = encode_req(&req()).unwrap();

    let mut without_clock = req();
    without_clock.device_clock = None;
    let legal = encode_req(&without_clock).unwrap().len();
    assert!(legal < bytes.len());

    for cut in 0..bytes.len() {
        if cut == legal {
            assert!(decode_req(&bytes[..cut]).is_ok(), "документ без часов отвергнут");
            continue;
        }
        assert!(decode_req(&bytes[..cut]).is_err(), "обрезка на {cut} принята");
    }

    let mut full = bytes.clone();
    full.extend_from_slice(&999u16.to_le_bytes());
    full.extend_from_slice(&7u32.to_le_bytes());
    full.extend_from_slice(b"lishnee");
    assert!(decode_req(&full).is_err(), "неизвестный тег принят на полном документе");

    let mut w = TlvWriter::new();
    w.put(req_tag::FILE_ID, &[0x11; 16]).unwrap();
    assert!(decode_req(&w.finish()).is_err(), "документ без обязательных полей принят");
}

fn req_with_field(tag: u16, value: &[u8]) -> Vec<u8> {
    let bytes = encode_req(&req()).unwrap();
    let mut reader = TlvReader::new(&bytes);
    let mut w = TlvWriter::new();
    let mut replaced = false;
    while let Some(field) = reader.next_field().unwrap() {
        if field.tag == tag {
            w.put(field.tag, value).unwrap();
            replaced = true;
        } else {
            w.put(field.tag, field.value).unwrap();
        }
    }
    assert!(replaced, "тег {tag} отсутствует в образцовом запросе: подменять нечего");
    w.finish().to_vec()
}

#[test]
fn every_fixed_field_checks_its_length_exactly() {
    for (tag, wrong) in [
        (req_tag::FILE_ID, vec![0u8; 15]),
        (req_tag::FILE_ID, vec![0u8; 17]),
        (req_tag::POLICY_HASH, vec![0u8; 31]),
        (req_tag::POLICY_HASH, vec![0u8; 33]),
        (req_tag::DEVICE_FPR, vec![0u8; 33]),
        (req_tag::DEVICE_KEM, vec![0u8; 2]),
        (req_tag::DEVICE_KEM, vec![0u8; 0]),
        (req_tag::LEASE_SECONDS, vec![0u8; 7]),
        (req_tag::LEASE_SECONDS, vec![0u8; 9]),
        (req_tag::DEVICE_CLOCK, vec![0u8; 19]),
        (req_tag::DEVICE_CLOCK, vec![0u8; 21]),
        (req_tag::DEVICE_PUBLIC, vec![0u8; 0]),
    ] {
        let doc = req_with_field(tag, &wrong);
        match decode_req(&doc) {
            Err(FormatError::BadFieldLength { tag: got, len }) => {
                assert_eq!(got, tag, "отказ пришёл от чужого поля");
                assert_eq!(len, wrong.len(), "отвергнута не та длина");
            }
            other => {
                panic!("тег {tag}: длина {} дала {other:?}", wrong.len())
            }
        }
    }

    assert!(
        decode_req(&req_with_field(req_tag::FILE_ID, &[0u8; 16])).is_ok(),
        "пересобранный запрос с законной длиной отвергнут"
    );
}

#[test]
fn trailing_bytes_inside_the_slot_are_refused() {
    let mut r = req();
    let good = encode_req(&r).unwrap();
    assert!(decode_req(&good).is_ok());

    let mut slot = Vec::new();
    slot.extend_from_slice(&32u32.to_le_bytes());
    slot.extend_from_slice(&[0x55; 32]);
    slot.extend_from_slice(&[0x66; 24]);
    slot.extend_from_slice(&4u32.to_le_bytes());
    slot.extend_from_slice(&[0x77; 4]);
    slot.push(0);

    r.server_slot = SlotBlob { enc: vec![], nonce: [0; 24], ct: vec![] };
    let mut w = TlvWriter::new();
    w.put(req_tag::FILE_ID, &r.file_id).unwrap();
    w.put(req_tag::POLICY_HASH, &r.policy_hash).unwrap();
    w.put(req_tag::DEVICE_FPR, &r.device_fpr).unwrap();
    w.put(req_tag::DEVICE_KEM, &[r.device_kem]).unwrap();
    w.put(req_tag::DEVICE_PUBLIC, &r.device_public).unwrap();
    w.put(req_tag::SERVER_SLOT, &slot).unwrap();
    w.put(req_tag::LEASE_SECONDS, &r.lease_seconds.to_le_bytes()).unwrap();
    assert!(decode_req(&w.finish()).is_err(), "хвост внутри слота принят");
}

#[test]
fn the_envelope_round_trips_and_refuses_unknown_kinds() {
    let hello = Hello {
        device_fpr: [0x11; 32],
        device_public: [0x22; 32],
        device_hybrid: None,
        device_tpm: Some(vec![0x04; 65]),
    };
    let r = Request::Hello(hello.clone());
    assert_eq!(decode_request(&encode_request(&r).unwrap()).unwrap(), r);

    let mut bare = hello.clone();
    bare.device_tpm = None;
    let r = Request::Hello(bare);
    assert_eq!(decode_request(&encode_request(&r).unwrap()).unwrap(), r);

    let p = Request::Prove(Proof { echo: vec![7; 32] });
    assert_eq!(decode_request(&encode_request(&p).unwrap()).unwrap(), p);

    let ch = Response::Challenge(Challenge {
        software: SlotBlob { enc: vec![1; 32], nonce: [2; 24], ct: vec![3; 48] },
        hardware: Some(SlotBlob { enc: vec![4; 65], nonce: [5; 24], ct: vec![6; 48] }),
        hybrid: Some(SlotBlob { enc: vec![7; 1120], nonce: [8; 24], ct: vec![9; 48] }),
    });
    assert_eq!(decode_response(&encode_response(&ch).unwrap()).unwrap(), ch);

    assert_eq!(
        decode_response(&encode_response(&Response::Proven).unwrap()).unwrap(),
        Response::Proven
    );

    assert!(decode_request(&[99, 0, 0]).is_err(), "неизвестный вид запроса принят");
    assert!(decode_response(&[99, 0, 0]).is_err(), "неизвестный вид ответа принят");
    assert!(decode_request(&[]).is_err());
    assert!(decode_response(&[]).is_err());
    assert!(decode_response(&[5, 1]).is_err(), "хвост при подтверждении принят");
}

#[test]
fn the_envelope_carries_the_access_request_and_tells_waiting_from_refusal() {
    let ask = Request::Ask(Box::new(AskAccess {
        file_id: [0x11; 16],
        device_fpr: [0x22; 32],
        device_public: vec![0x33; 32],
        device_kem: 1,
        note: "Petr from accounting".to_string(),
    }));
    assert_eq!(decode_request(&encode_request(&ask).unwrap()).unwrap(), ask);

    let collect =
        Request::Collect(CollectReq { file_id: [0x11; 16], device_fpr: [0x22; 32] });
    assert_eq!(decode_request(&encode_request(&collect).unwrap()).unwrap(), collect);

    let decide = Request::Decide(vec![0x44; 200]);
    assert_eq!(decode_request(&encode_request(&decide).unwrap()).unwrap(), decide);

    for r in [
        Response::Asked { seq: u64::MAX },
        Response::Decided(vec![0x55; 200]),
        Response::Waiting,
        Response::Accepted,
    ] {
        assert_eq!(decode_response(&encode_response(&r).unwrap()).unwrap(), r);
    }

    let waiting = encode_response(&Response::Waiting).unwrap();
    let denied =
        encode_response(&Response::Denied(Deny::text("нет"))).unwrap();
    assert_ne!(waiting.first(), denied.first(), "ожидание неотличимо от отказа");

    assert!(decode_response(&[KIND_WAITING, 0]).is_err(), "хвост при ожидании принят");
    assert!(decode_response(&[KIND_ACCEPTED, 0]).is_err(), "хвост при принятии принят");
    for len in [0usize, 7, 9] {
        let mut bytes = vec![KIND_ASKED];
        bytes.extend_from_slice(&vec![0u8; len]);
        assert!(decode_response(&bytes).is_err(), "номер длиной {len} принят");
    }
    assert!(decode_request(&[KIND_DECIDE]).is_err(), "пустое решение принято");
    assert!(decode_response(&[KIND_DECIDED]).is_err(), "пустое решение принято");
    for len in [0usize, 47, 49] {
        let mut bytes = vec![KIND_COLLECT];
        bytes.extend_from_slice(&vec![0u8; len]);
        assert!(decode_request(&bytes).is_err(), "тело длиной {len} принято");
    }
}

#[test]
fn the_hardware_key_length_is_checked_exactly() {
    for wrong in [1usize, 32, 64, 66] {
        let mut w = TlvWriter::new();
        w.put(hello_tag::DEVICE_FPR, &[0x11; 32]).unwrap();
        w.put(hello_tag::DEVICE_PUBLIC, &[0x22; 32]).unwrap();
        w.put(hello_tag::DEVICE_TPM, &vec![0x04; wrong]).unwrap();
        assert!(decode_hello(&w.finish()).is_err(), "длина {wrong} принята");
    }
}

#[test]
fn the_agent_protocol_messages_survive_the_wire_and_damage_is_refused() {
    for request in [
        Request::PutGrant(vec![0x5a; 300]),
        Request::PutDelegation(vec![0x5b; 200]),
        Request::FetchChain { holder_fpr: [0x5c; 32] },
    ] {
        let bytes = encode_request(&request).unwrap();
        assert_eq!(decode_request(&bytes).unwrap(), request);
        let mut tail = bytes.clone();
        tail.push(0);
        if matches!(request, Request::FetchChain { .. }) {
            assert!(decode_request(&tail).is_err(), "хвост при отпечатке принят");
        }
    }
    assert!(decode_request(&[KIND_PUT_GRANT]).is_err(), "пустой грант принят");
    assert!(decode_request(&[KIND_PUT_DELEGATION]).is_err(), "пустое звено принято");
    assert!(encode_request(&Request::PutGrant(Vec::new())).is_err());
    assert!(encode_request(&Request::PutDelegation(Vec::new())).is_err());
    for len in [0usize, 31, 33] {
        let mut bytes = vec![KIND_FETCH_CHAIN];
        bytes.extend_from_slice(&vec![0u8; len]);
        assert!(decode_request(&bytes).is_err(), "отпечаток длиной {len} принят");
    }

    let chain = join_chain(&[&[0x11; 120], &[0x22; 90]]).unwrap();
    for response in [
        Response::ChainStored,
        Response::Chain {
            documents: chain.clone(),
            lease_verify_key: None,
            action_grant: None,
        },
        Response::Chain {
            documents: chain.clone(),
            lease_verify_key: Some([0x4d; 32]),
            action_grant: None,
        },
        Response::Chain {
            documents: chain,
            lease_verify_key: Some([0x4d; 32]),
            action_grant: Some(vec![0x33; 77]),
        },
        Response::NoChain,
    ] {
        let bytes = encode_response(&response).unwrap();
        assert_eq!(decode_response(&bytes).unwrap(), response);
    }
    assert!(decode_response(&[KIND_CHAIN_STORED, 0]).is_err(), "хвост при записи принят");
    assert!(decode_response(&[KIND_NO_CHAIN, 0]).is_err(), "хвост при «цепочки нет» принят");
}

#[test]
fn a_chain_body_is_refused_above_the_ceiling_and_when_it_does_not_add_up() {
    let full: Vec<Vec<u8>> = (0..MAX_CHAIN_DOCUMENTS).map(|n| vec![n as u8; 40]).collect();
    let refs: Vec<&[u8]> = full.iter().map(Vec::as_slice).collect();
    let body = join_chain(&refs).unwrap();
    assert_eq!(split_chain(&body).unwrap().len(), MAX_CHAIN_DOCUMENTS);
    let full_reply = Response::Chain {
        documents: body.clone(),
        lease_verify_key: Some([0x4d; 32]),
        action_grant: None,
    };
    assert!(decode_response(&encode_response(&full_reply).unwrap()).is_ok());

    let over: Vec<Vec<u8>> =
        (0..=MAX_CHAIN_DOCUMENTS).map(|n| vec![n as u8; 40]).collect();
    let over_refs: Vec<&[u8]> = over.iter().map(Vec::as_slice).collect();
    assert!(join_chain(&over_refs).is_err(), "сборка выпустила цепочку выше потолка");
    let mut too_many = body.clone();
    too_many.extend_from_slice(&40u32.to_le_bytes());
    too_many.extend_from_slice(&[0x99; 40]);
    assert!(split_chain(&too_many).is_err(), "цепочка выше потолка принята");
    assert!(
        decode_response(&[&[KIND_CHAIN], wrap_chain(&too_many).as_slice()].concat()).is_err()
    );

    assert!(join_chain(&[]).is_err());
    assert!(split_chain(&[]).is_err());
    assert!(decode_response(&[KIND_CHAIN]).is_err(), "тело без потока документов принято");
    assert!(
        decode_response(&[&[KIND_CHAIN], wrap_chain(&[]).as_slice()].concat()).is_err(),
        "пустая цепочка принята"
    );

    for cut in [1usize, 3, 5, body.len().saturating_sub(1)] {
        assert!(split_chain(&body[..cut]).is_err(), "обрубок длиной {cut} принят");
    }
    let mut tail = body.clone();
    tail.push(0);
    assert!(split_chain(&tail).is_err(), "хвост после цепочки принят");
    let mut lying = (MAX_DOCUMENT as u32).saturating_add(1).to_le_bytes().to_vec();
    lying.extend_from_slice(&[0x11; 8]);
    assert!(split_chain(&lying).is_err(), "обещанная длина выше предела принята");
    assert!(split_chain(&0u32.to_le_bytes()).is_err(), "пустой документ в потоке принят");
}

fn wrap_chain(documents: &[u8]) -> Vec<u8> {
    let mut w = TlvWriter::new();
    w.put(chain_tag::DOCUMENTS, documents).unwrap();
    w.finish().to_vec()
}

#[test]
fn the_action_door_kinds_survive_the_wire_and_check_their_shapes() {
    for request in [
        Request::PutActionGrant(vec![0x11; 90]),
        Request::RequestAction(vec![0x22; 70]),
        Request::ReportAction { seq: 0x0102_0304_0506_0708, ok: true, digest: [0x33; 32] },
        Request::ReportAction { seq: 0, ok: false, digest: [0; 32] },
        Request::ActionRequests { grant_id: [0x44; 16] },
        Request::DecideAction(vec![0x55; 80]),
    ] {
        let bytes = encode_request(&request).unwrap();
        assert_eq!(decode_request(&bytes).unwrap(), request, "вид не пережил провод");
        let mut tail = bytes.clone();
        tail.push(0);
        if matches!(request, Request::ReportAction { .. } | Request::ActionRequests { .. }) {
            assert!(decode_request(&tail).is_err(), "хвост у вида с точной длиной принят");
        }
    }
    for kind in [KIND_PUT_ACTION_GRANT, KIND_REQUEST_ACTION, KIND_DECIDE_ACTION] {
        assert!(decode_request(&[kind]).is_err(), "пустое тело вида {kind} принято");
    }
    assert!(encode_request(&Request::PutActionGrant(Vec::new())).is_err());
    assert!(encode_request(&Request::RequestAction(Vec::new())).is_err());
    assert!(encode_request(&Request::DecideAction(Vec::new())).is_err());
    for len in [0usize, 15, 17] {
        let mut bytes = vec![KIND_ACTION_REQUESTS];
        bytes.extend_from_slice(&vec![0u8; len]);
        assert!(decode_request(&bytes).is_err(), "имя гранта длиной {len} принято");
    }
    for byte in [2u8, 0xff] {
        let mut bytes = vec![KIND_REPORT_ACTION];
        bytes.extend_from_slice(&0u64.to_le_bytes());
        bytes.push(byte);
        bytes.extend_from_slice(&[0x33; 32]);
        assert!(decode_request(&bytes).is_err(), "исход {byte} принят");
    }

    let queue = {
        let mut body = Vec::new();
        body.extend_from_slice(&4u32.to_le_bytes());
        body.extend_from_slice(&[0x11; 4]);
        body
    };
    for response in [
        Response::ActionGranted(vec![0x66; 100]),
        Response::ActionPending { seq: 42 },
        Response::ActionRefused { why: "ветка не та, что названа в гранте".to_string() },
        Response::ActionQueue(queue),
        Response::ActionQueue(Vec::new()),
    ] {
        let bytes = encode_response(&response).unwrap();
        assert_eq!(decode_response(&bytes).unwrap(), response, "ответ не пережил провод");
    }
    for len in [0usize, 7, 9] {
        let mut bytes = vec![KIND_ACTION_PENDING];
        bytes.extend_from_slice(&vec![0u8; len]);
        assert!(decode_response(&bytes).is_err(), "номер длиной {len} принят");
    }
    assert!(decode_response(&[KIND_ACTION_GRANTED]).is_err(), "пустая лиза принята");
}

#[test]
fn a_refusal_without_a_reason_is_neither_written_nor_read() {
    assert!(
        encode_response(&Response::ActionRefused { why: String::new() }).is_err(),
        "пустая причина закодирована"
    );
    assert!(decode_response(&[KIND_ACTION_REFUSED]).is_err(), "пустая причина принята");
    assert!(
        encode_response(&Response::ActionRefused { why: "ветка\nне та".to_string() }).is_err(),
        "перевод строки в причине закодирован"
    );
    let long = "я".repeat(MAX_REFUSAL);
    assert!(long.len() > MAX_REFUSAL);
    assert!(encode_response(&Response::ActionRefused { why: long.clone() }).is_err());
    assert!(decode_response(&[&[KIND_ACTION_REFUSED], long.as_bytes()].concat()).is_err());
    let ok = Response::ActionRefused { why: "владелец отказал: не сегодня".to_string() };
    assert_eq!(decode_response(&encode_response(&ok).unwrap()).unwrap(), ok);
}

#[test]
fn the_lease_verify_key_is_an_optional_tag_and_the_reply_without_it_is_unchanged() {
    let documents = join_chain(&[&[0x11; 64]]).unwrap();
    let bare = encode_response(&Response::Chain {
        documents: documents.clone(),
        lease_verify_key: None,
        action_grant: None,
    })
    .unwrap();
    let with_key = encode_response(&Response::Chain {
        documents: documents.clone(),
        lease_verify_key: Some([0x4d; 32]),
        action_grant: None,
    })
    .unwrap();
    assert_eq!(&with_key[..bare.len()], bare.as_slice(), "ключ сдвинул прежние байты");
    assert_eq!(
        decode_response(&bare).unwrap(),
        Response::Chain { documents, lease_verify_key: None, action_grant: None },
        "ответ без ключа перестал разбираться"
    );

    for len in [31usize, 33, 0] {
        let mut w = TlvWriter::new();
        w.put(chain_tag::DOCUMENTS, &join_chain(&[&[0x11; 64]]).unwrap()).unwrap();
        w.put(chain_tag::LEASE_VERIFY_KEY, &vec![0x4d; len]).unwrap();
        let bytes = [&[KIND_CHAIN], w.finish().as_slice()].concat();
        assert!(decode_response(&bytes).is_err(), "ключ длиной {len} принят");
    }
}

#[test]
fn the_action_grant_is_an_optional_tag_and_the_reply_without_it_is_unchanged() {
    let documents = join_chain(&[&[0x11; 64]]).unwrap();
    let bare = encode_response(&Response::Chain {
        documents: documents.clone(),
        lease_verify_key: Some([0x4d; 32]),
        action_grant: None,
    })
    .unwrap();
    let with_actions = encode_response(&Response::Chain {
        documents: documents.clone(),
        lease_verify_key: Some([0x4d; 32]),
        action_grant: Some(vec![0x77; 100]),
    })
    .unwrap();
    assert_eq!(
        &with_actions[..bare.len()],
        bare.as_slice(),
        "грант действий сдвинул прежние байты"
    );
    assert_eq!(
        decode_response(&bare).unwrap(),
        Response::Chain {
            documents: documents.clone(),
            lease_verify_key: Some([0x4d; 32]),
            action_grant: None,
        },
        "ответ без гранта действий перестал разбираться"
    );

    let mut w = TlvWriter::new();
    w.put(chain_tag::DOCUMENTS, &documents).unwrap();
    w.put(chain_tag::ACTION_GRANT, &[]).unwrap();
    let bytes = [&[KIND_CHAIN], w.finish().as_slice()].concat();
    assert!(decode_response(&bytes).is_err(), "пустой грант действий принят");
}

#[test]
fn the_rest_of_the_requests_survive_the_wire() {
    for request in [
        Request::Activate(Box::new(req())),
        Request::Requests { file_id: [1; 16] },
        Request::Order(vec![1; 70]),
        Request::Endorse { signer: [2; 32], order: vec![3; 70] },
        Request::Standing { file_id: [4; 16] },
        Request::RegisterEdition(vec![5; 70]),
        Request::JournalView { since: 1, upto: 9 },
        Request::DirectoryView { since: 1, upto: 9 },
        Request::DirectoryLookup { tenant: "acme".into(), name: "Пётр".into(), size: 3 },
        Request::DirectoryRecords { from: 7, count: 2 },
        Request::Control(vec![6; 70]),
        Request::Binding,
        Request::ReplicaPush(vec![7; 70]),
    ] {
        let bytes = encode_request(&request).unwrap();
        assert_eq!(decode_request(&bytes).unwrap(), request);
    }
    assert_eq!(encode_request(&Request::Control(vec![6; 2])).unwrap(), vec![KIND_CONTROL, 6, 6]);
}

#[test]
fn the_rest_of_the_responses_survive_the_wire() {
    let record = Record::new(
        "acme",
        "Пётр",
        KemAlg::X25519HkdfSha256,
        &[7; 32],
        1,
        KeyState::Active,
        "о",
        0,
        None,
    )
    .unwrap();
    for response in [
        Response::Queue(vec![]),
        Response::Standing(vec![1; 90]),
        Response::Endorsed { have: 1, need: 2 },
        Response::DirectoryRecords(vec![record.encode(None).unwrap()]),
        Response::Receipt(vec![2; 90]),
        Response::Binding(vec![3; 90]),
        Response::ReplicaAck(vec![4; 90]),
        Response::LogView(vec![5; 90]),
    ] {
        let bytes = encode_response(&response).unwrap();
        assert_eq!(decode_response(&bytes).unwrap(), response);
    }
}

#[test]
fn some_requests_are_sealed_to_their_session() {
    assert!(is_session_sealed(KIND_ACTIVATE));
    assert!(is_session_sealed(KIND_RENEW));
    assert!(!is_session_sealed(KIND_HELLO));
    assert!(!is_session_sealed(KIND_PROVE));
    let framed: Vec<u8> = (0..40).collect();
    let (request, mac) = split_request_mac(&framed).unwrap();
    assert_eq!(request, &framed[..8]);
    assert_eq!(mac.as_slice(), &framed[8..]);
    assert!(split_request_mac(&framed[..31]).is_err());
}

#[test]
fn a_chain_is_split_as_it_was_joined() {
    let documents: [&[u8]; 3] = [&[1; 5], &[2; 6], &[3; 7]];
    let body = join_chain(&documents).unwrap();
    assert_eq!(body.len(), 3 * 4 + 18);
    assert_eq!(split_chain(&body).unwrap(), documents.to_vec());
}

#[test]
fn a_view_of_a_log_is_parsed_on_receipt() {
    let bytes = encode_response(&Response::LogView(vec![5; 90])).unwrap();
    assert_eq!(log_view_in(&bytes), Some(vec![5; 90]));
    let why = FormatError::BadFieldLength { tag: 0, len: 90 };
    assert_eq!(activation::decode_response(&bytes, &[], Some(why)), Err(why));
    assert_eq!(
        activation::decode_response(&bytes, &[], None).unwrap(),
        Response::LogView(vec![5; 90])
    );
    assert_eq!(
        activation::decode_response(&[KIND_LOG_VIEW], &[], Some(why)),
        Err(why),
        "пустой вид журнала принят"
    );

    // The codec of views is not asked about anything else.
    let proven = encode_response(&Response::Proven).unwrap();
    assert_eq!(log_view_in(&proven), None);
    assert_eq!(log_view_in(&[]), None);
    assert_eq!(activation::decode_response(&proven, &[], Some(why)).unwrap(), Response::Proven);
}

#[test]
fn what_the_reader_refuses_is_still_told_apart() {
    let empty = encode_request(&Request::DirectoryRecords { from: 7, count: 0 }).unwrap();
    let large = encode_request(&Request::DirectoryRecords { from: 7, count: u32::MAX }).unwrap();
    assert!(decode_request(&empty).is_err());
    assert!(decode_request(&large).is_err());
    assert_ne!(empty, large);
}
