//! Requests for access, and decisions on them.

use oc_protocol::access::{
    decision_body, decode_ask, decode_decision, decode_pending, encode_ask, encode_decision,
    encode_pending, split_queue, AskAccess, Blob, Decision, Pending, QueueError, MAX_NOTE,
    MAX_PENDING_PER_FILE, TAG_APPROVE, TAG_AUTHOR_KEY, TAG_CT, TAG_NOTE,
};
use oc_protocol::error::FormatError;
use oc_protocol::tlv::TlvWriter;

fn ask() -> AskAccess {
    AskAccess {
        file_id: [0x11; 16],
        device_fpr: [0x22; 32],
        device_public: vec![0x33; 32],
        device_kem: 1,
        note: "Petr from accounting".to_string(),
    }
}

#[test]
fn an_ask_round_trips() {
    let a = ask();
    assert_eq!(decode_ask(&encode_ask(&a).unwrap()).unwrap(), a);
}

#[test]
fn a_note_that_could_repaint_the_screen_is_refused() {
    for bad in [
        "ok\u{1b}[2K\u{1b}[Aevil",
        "\u{202e}gnp.exe",
        "carriage\rreturn",
        "nul\u{0}byte",
        "alm\u{61c}mark",
        "lrm\u{200e}mark",
        "rlm\u{200f}mark",
        "buh\u{200b}galteria",
        "soft\u{ad}hyphen",
        "word\u{2060}joiner",
        "bom\u{feff}inside",
        "line\u{2028}separator",
        "para\u{2029}separator",
        "tag\u{e0041}smuggle",
        "Petr\n\n  N 2\n     ustroystvo: 00",
    ] {
        let mut a = ask();
        a.note = bad.to_string();
        assert!(encode_ask(&a).is_err(), "записка принята: {bad:?}");
    }

    let mut a = ask();
    a.note = "Petr from accounting, phone 123".to_string();
    assert!(encode_ask(&a).is_ok());
}

#[test]
fn a_refused_note_names_the_field_and_the_code() {
    let mut a = ask();
    a.note = "moc.dab\u{202e}".to_string();
    match encode_ask(&a) {
        Err(FormatError::BadNoteChar { tag, code }) => {
            assert_eq!(tag, TAG_NOTE);
            assert_eq!(code, 0x202e);
            let text = FormatError::BadNoteChar { tag, code }.text();
            assert!(text.contains("U+202E"), "нет кода: {text}");
            assert!(!text.contains('\u{202e}'), "символ просочился: {text}");
        }
        other => panic!("ожидался BadNoteChar, получено {other:?}"),
    }
}

#[test]
fn a_note_that_is_not_utf8_says_so() {
    let mut a = ask();
    a.note = "okay".to_string();
    let mut bytes = encode_ask(&a).unwrap();
    let at = bytes.windows(4).position(|w| w == b"okay").expect("записка на месте");
    *bytes.get_mut(at).expect("смещение внутри документа") = 0xff;
    match decode_ask(&bytes) {
        Err(FormatError::NotUtf8 { tag }) => assert_eq!(tag, TAG_NOTE),
        other => panic!("ожидался NotUtf8, получено {other:?}"),
    }
}

#[test]
fn a_note_in_any_script_is_accepted() {
    for good in [
        "это Пётр из бухгалтерии",
        "проба с ноутбука HUAWEI",
        "会计部的彼得",
        "Pëtr, buhgalterija",
        "פטר מהנהלת חשבונות",
    ] {
        let mut a = ask();
        a.note = good.to_string();
        let bytes = encode_ask(&a).expect("законная записка отвергнута");
        assert_eq!(decode_ask(&bytes).unwrap().note, good);
    }
}

#[test]
fn a_note_longer_than_allowed_is_refused() {
    let mut a = ask();
    a.note = "x".repeat(MAX_NOTE.saturating_add(1));
    assert!(encode_ask(&a).is_err());
}

fn decision(approve: bool) -> Decision {
    Decision {
        seq: 7,
        file_id: [0x11; 16],
        device_fpr: [0x22; 32],
        approve,
        share_b: if approve {
            Some(Blob { enc: vec![0x44; 32], nonce: [0x55; 24], ct: vec![0x66; 48] })
        } else {
            None
        },
        author_key: [0x77; 32],
        signature: [0x88; 64],
    }
}

#[test]
fn a_decision_round_trips_both_ways() {
    for approve in [true, false] {
        let d = decision(approve);
        assert_eq!(decode_decision(&encode_decision(&d).unwrap()).unwrap(), d);
    }
}

#[test]
fn approval_without_a_share_and_refusal_with_one_are_both_refused() {
    let mut d = decision(true);
    d.share_b = None;
    assert!(decode_decision(&encode_decision(&d).unwrap()).is_err(), "одобрение без доли");

    let mut d = decision(false);
    d.share_b = Some(Blob { enc: vec![1; 32], nonce: [2; 24], ct: vec![3; 48] });
    assert!(decode_decision(&encode_decision(&d).unwrap()).is_err(), "отказ с долей");
}

#[test]
fn the_approval_flag_is_exactly_zero_or_one() {
    let head = {
        let mut h = Vec::with_capacity(6);
        h.extend_from_slice(&TAG_APPROVE.to_le_bytes());
        h.extend_from_slice(&1u32.to_le_bytes());
        h
    };
    let bytes = encode_decision(&decision(true)).unwrap();
    let at = bytes
        .windows(head.len())
        .position(|w| w == head.as_slice())
        .and_then(|p| p.checked_add(head.len()))
        .expect("поле одобрения на месте");

    for good in [0u8, 1] {
        let mut forged = bytes.clone();
        *forged.get_mut(at).expect("смещение внутри документа") = good;
        let parsed = decode_decision(&forged);
        match (good, parsed) {
            (1, Ok(d)) => assert!(d.approve, "единица прочитана не как одобрение"),
            (0, Err(FormatError::BadFieldLength { tag: TAG_CT, .. })) => {}
            (_, other) => panic!("законный байт {good} дал {other:?}"),
        }
    }

    for bad in [2u8, 5, 255] {
        let mut forged = bytes.clone();
        *forged.get_mut(at).expect("смещение внутри документа") = bad;
        match decode_decision(&forged) {
            Err(FormatError::BadFieldLength { tag, len }) => {
                assert_eq!(tag, TAG_APPROVE, "отказ назвал не то поле");
                assert_eq!(len, 1);
            }
            other => panic!("байт одобрения {bad} принят: {other:?}"),
        }
    }
}

#[test]
fn the_signed_body_changes_when_the_share_changes() {
    let a = decision(true);
    let mut b = a.clone();
    b.share_b = Some(Blob { enc: vec![0x99; 32], nonce: [0x55; 24], ct: vec![0x66; 48] });
    assert_ne!(decision_body(&a).unwrap(), decision_body(&b).unwrap());

    let mut c = a.clone();
    c.device_fpr = [0x23; 32];
    assert_ne!(decision_body(&a).unwrap(), decision_body(&c).unwrap());
}

fn pending(seq: u64) -> Pending {
    Pending {
        seq,
        at: 1_800_000_000,
        file_id: [0x11; 16],
        device_fpr: [0x22; 32],
        device_public: vec![0x33; 32],
        device_kem: 1,
        note: "Petr from accounting".to_string(),
    }
}

fn queue(n: u64) -> Vec<u8> {
    let mut out = Vec::new();
    for seq in 0..n {
        let record = encode_pending(&pending(seq)).unwrap();
        out.extend_from_slice(&(record.len() as u32).to_le_bytes());
        out.extend_from_slice(&record);
    }
    out
}

#[test]
fn a_pending_request_round_trips() {
    let p = pending(3);
    assert_eq!(decode_pending(&encode_pending(&p).unwrap()).unwrap(), p);
}

#[test]
fn a_queue_is_split_up_to_its_window() {
    assert_eq!(split_queue(&[]).unwrap(), Vec::new());
    let full = split_queue(&queue(MAX_PENDING_PER_FILE as u64)).unwrap();
    assert_eq!(full.len(), MAX_PENDING_PER_FILE);
    assert_eq!(full[2], pending(2));
    assert_eq!(split_queue(&queue(MAX_PENDING_PER_FILE as u64 + 1)), Err(QueueError::TooMany));
}

#[test]
fn a_torn_queue_says_where_it_is_torn() {
    let whole = queue(1);
    assert_eq!(
        split_queue(&whole[..3]),
        Err(QueueError::Torn("очередь оборвана на длине записи"))
    );
    assert_eq!(
        split_queue(&whole[..whole.len() - 1]),
        Err(QueueError::Torn("запись очереди короче объявленной длины"))
    );
    let mut broken = 1u32.to_le_bytes().to_vec();
    broken.push(7);
    let refused = split_queue(&broken).unwrap_err();
    assert_eq!(refused, QueueError::Record(FormatError::Truncated { need: 6, have: 1 }));
    assert_eq!(
        refused.text(),
        "запись очереди не разбирается: документ обрывается: нужно 6, осталось 1"
    );
    assert_eq!(
        QueueError::TooMany.text(),
        "сервер прислал больше запросов, чем помещается в очередь"
    );
}

#[test]
fn a_decision_with_any_unknown_field_is_refused() {
    let mut w = TlvWriter::new();
    w.put(0x8001, b"even an optional one").unwrap();
    let mut bytes = encode_decision(&decision(true)).unwrap();
    bytes.extend_from_slice(&w.finish());
    assert_eq!(
        decode_decision(&bytes),
        Err(FormatError::UnknownCriticalField { tag: 0x8001 })
    );
}

#[test]
fn the_author_key_is_under_the_signature() {
    let a = decision(true);
    let mut b = a.clone();
    b.author_key = [0x78; 32];
    assert_ne!(decision_body(&a).unwrap(), decision_body(&b).unwrap());
    let mut short = decision_body(&a).unwrap();
    short.truncate(short.len() - 38);
    let mut w = TlvWriter::new();
    w.put(13, &[0u8; 64]).unwrap();
    short.extend_from_slice(&w.finish());
    assert_eq!(decode_decision(&short), Err(FormatError::MissingField { tag: TAG_AUTHOR_KEY }));
}
