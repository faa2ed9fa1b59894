//! Grants of actions, requests, leases and decisions.

use oc_protocol::access;
use oc_protocol::access::QueueError;
use oc_protocol::action;
use oc_protocol::action::{
    args_within, check_rule_shape, decision_body, decision_claim, decision_transcript, decode_args,
    decode_pending, decode_request, grant_claim, grant_transcript, lease_claim, lease_transcript,
    decode_rule, encode_args, encode_decision, encode_grant, encode_lease, encode_pending,
    encode_request, encode_rule, field_tag, grant_body, grant_tag, lease_body, lease_tag,
    limiter_key, narrower, peek_decision, peek_grant, request_tag, rule_tag, split_action_queue,
    ActionDecision, ActionGrant, ActionKind, ActionLease, ActionRefusal, ActionRequest, ActionRule,
    Args, Constraint, Method, PendingAction, ACTION_LEASE_SECONDS, MAX_ACTION_RULES, MAX_BODY_LEN,
    MAX_PENDING_ACTION_WINDOW, SIGNATURE_LEN,
};
use oc_protocol::error::FormatError;
use oc_protocol::tlv::{TlvReader, TlvWriter};
use oc_protocol::transcript::{Claim, Transcript};

/// A keyed checksum in the place of a signature: it shows which key and which bytes a
/// signature was made with.
#[derive(Clone, Copy)]
struct Signer {
    key: [u8; 32],
}

impl Signer {
    fn from_seed(seed: &[u8; 32]) -> Signer {
        let mut key = *seed;
        for byte in key.iter_mut() {
            *byte = byte.wrapping_mul(5).wrapping_add(3);
        }
        Signer { key }
    }

    fn public_key(&self) -> [u8; 32] {
        self.key
    }

    fn sign(&self, t: &Transcript) -> Result<[u8; 64], ()> {
        let label = format!("{:?}", t.label);
        let mut out = [0u8; 64];
        for lane in 0..8u64 {
            let mut sum = 0xcbf2_9ce4_8422_2325u64.wrapping_add(lane.wrapping_mul(0x9e37_79b9));
            for byte in self.key.iter().chain(label.as_bytes()).chain(&[0]).chain(&t.body) {
                sum = (sum ^ u64::from(*byte)).wrapping_mul(0x0100_0000_01b3);
                sum ^= sum >> 29;
            }
            let at = lane as usize * 8;
            out[at..at + 8].copy_from_slice(&sum.to_le_bytes());
        }
        Ok(out)
    }
}

/// Whether a claimed signature holds.
fn holds(claim: &Claim) -> bool {
    Signer { key: claim.key }.sign(&claim.transcript).unwrap() == claim.signature
}

/// Whether a document makes a claim, and it holds.
fn made_and_holds(claim: Result<Claim, FormatError>) -> bool {
    match claim {
        Ok(claim) => holds(&claim),
        Err(_) => false,
    }
}

fn decode_grant(bytes: &[u8], key: &[u8; 32]) -> Result<ActionGrant, FormatError> {
    action::decode_grant(bytes, key, made_and_holds(grant_claim(bytes, key)))
}

fn decode_lease(bytes: &[u8], key: &[u8; 32]) -> Result<ActionLease, FormatError> {
    action::decode_lease(bytes, made_and_holds(lease_claim(bytes, key)))
}

fn decode_decision(bytes: &[u8], key: &[u8; 32]) -> Result<ActionDecision, FormatError> {
    action::decode_decision(bytes, key, made_and_holds(decision_claim(bytes, key)))
}

fn author() -> Signer {
    Signer::from_seed(&[0xa1; 32])
}

fn stranger() -> Signer {
    Signer::from_seed(&[0x77; 32])
}

fn server() -> Signer {
    Signer::from_seed(&[0x5e; 32])
}

fn push_rule() -> ActionRule {
    ActionRule {
        kind: ActionKind::GitPush,
        constraint: Constraint::GitPush {
            remote: "origin".to_string(),
            branch: "agent/work".to_string(),
        },
        max_uses: 10,
        confirm: false,
        delegable: true,
    }
}

fn remove_rule() -> ActionRule {
    ActionRule {
        kind: ActionKind::TreeRemove,
        constraint: Constraint::TreeRemove { prefix: "src".to_string() },
        max_uses: 0,
        confirm: false,
        delegable: true,
    }
}

fn rename_rule() -> ActionRule {
    ActionRule {
        kind: ActionKind::TreeRename,
        constraint: Constraint::TreeRename {
            from_prefix: "src".to_string(),
            to_prefix: "attic".to_string(),
        },
        max_uses: 3,
        confirm: false,
        delegable: false,
    }
}

fn http_rule() -> ActionRule {
    ActionRule {
        kind: ActionKind::HttpRequest,
        constraint: Constraint::HttpRequest {
            host: "api.example.com".to_string(),
            methods: vec![Method::Get, Method::Post],
            path_prefix: "/v1/issues".to_string(),
            secret_ref: Some("FORGE_TOKEN".to_string()),
        },
        max_uses: 100,
        confirm: false,
        delegable: true,
    }
}

fn grant() -> ActionGrant {
    let mut g = ActionGrant {
        grant_id: [0x67; 16],
        rules: vec![push_rule(), remove_rule(), rename_rule(), http_rule()],
        issued_at: 1_700_000_000,
        expires_at: 1_700_086_400,
        author_key: author().public_key(),
        signature: [0; SIGNATURE_LEN],
    };
    sign_grant(&mut g, &author());
    g
}

fn sign_grant(g: &mut ActionGrant, signer: &Signer) {
    let body = grant_body(g).expect("тело гранта собирается");
    g.signature = signer.sign(&grant_transcript(&body)).unwrap();
}

fn push_args() -> Args {
    Args::GitPush { remote: "origin".to_string(), branch: "agent/work".to_string() }
}

fn http_args() -> Args {
    Args::HttpRequest {
        host: "api.example.com".to_string(),
        method: Method::Post,
        path: "/v1/issues/42".to_string(),
        body_digest: [0x33; 32],
        body_len: 512,
    }
}

fn lease() -> ActionLease {
    let mut l = ActionLease {
        grant_id: [0x67; 16],
        door_fpr: [0xd1; 32],
        kind: ActionKind::GitPush,
        args: push_args(),
        nonce: [0x5a; 16],
        issued_at: 1_700_010_000,
        expires_at: 1_700_010_030,
        seq: 7,
        signature: [0; SIGNATURE_LEN],
    };
    sign_lease(&mut l, &server());
    l
}

fn sign_lease(l: &mut ActionLease, signer: &Signer) {
    let body = lease_body(l).expect("тело лизы собирается");
    l.signature = signer.sign(&lease_transcript(&body)).unwrap();
}

fn request() -> ActionRequest {
    ActionRequest {
        grant_id: [0x67; 16],
        door_fpr: [0xd1; 32],
        kind: ActionKind::GitPush,
        args: push_args(),
        nonce: [0x5a; 16],
        note: "выкладываю ветку агента".to_string(),
    }
}

fn fields_of(body: &[u8]) -> Vec<(u16, Vec<u8>)> {
    let mut reader = TlvReader::new(body);
    let mut out = Vec::new();
    while let Some(f) = reader.next_field().unwrap() {
        out.push((f.tag, f.value.to_vec()));
    }
    out
}

fn rebuild_with(body: &[u8], tag: u16, value: &[u8]) -> Vec<u8> {
    let mut w = TlvWriter::new();
    for (t, v) in fields_of(body) {
        if t == tag {
            w.put(t, value).unwrap();
        } else {
            w.put(t, &v).unwrap();
        }
    }
    w.finish().to_vec()
}

fn rebuild_plus(body: &[u8], tag: u16, value: &[u8]) -> Vec<u8> {
    let mut w = TlvWriter::new();
    for (t, v) in fields_of(body) {
        w.put(t, &v).unwrap();
    }
    w.put(tag, value).unwrap();
    w.finish().to_vec()
}

fn signed(body: &[u8], signer: &Signer) -> Vec<u8> {
    let sig = signer.sign(&grant_transcript(body)).unwrap();
    let mut out = sig.to_vec();
    out.extend_from_slice(body);
    out
}

#[test]
fn the_grant_round_trips_with_every_kind_of_rule() {
    let g = grant();
    let bytes = encode_grant(&g).unwrap();
    assert_eq!(decode_grant(&bytes, &author().public_key()).unwrap(), g);
}

#[test]
fn the_request_round_trips() {
    let r = request();
    let bytes = encode_request(&r).unwrap();
    assert_eq!(decode_request(&bytes).unwrap(), r);
}

#[test]
fn the_lease_round_trips() {
    let l = lease();
    let bytes = encode_lease(&l).unwrap();
    assert_eq!(decode_lease(&bytes, &server().public_key()).unwrap(), l);
}

#[test]
fn a_broken_grant_body_fails_the_signature_before_parsing() {
    let good = grant_body(&grant()).unwrap();
    let unknown_critical = rebuild_plus(&good, 0x7FFF, &[0xab; 4]);
    let bad_clock =
        rebuild_with(&good, grant_tag::EXPIRES_AT, &(-1_i64).to_le_bytes());

    for (what, body) in
        [("чужой критичный тег", unknown_critical), ("срок раньше выдачи", bad_clock)]
    {
        let own = signed(&body, &author());
        let parsed = decode_grant(&own, &author().public_key());
        assert!(
            matches!(
                parsed,
                Err(FormatError::BadFieldLength { .. }
                    | FormatError::UnknownCriticalField { .. })
            ),
            "{what}: предпосылка неверна, тело разбирается: {parsed:?}"
        );

        let forged = signed(&body, &stranger());
        let outcome = decode_grant(&forged, &author().public_key());
        assert!(
            matches!(outcome, Err(FormatError::BadHeaderSignature)),
            "{what}: разбор произошёл до проверки подписи, ответ {outcome:?}"
        );
    }
}

#[test]
fn a_broken_lease_body_fails_the_signature_before_parsing() {
    let good = lease_body(&lease()).unwrap();
    let body = rebuild_plus(&good, 0x7FFF, &[0xab; 4]);

    let own = {
        let sig = server().sign(&lease_transcript(&body)).unwrap();
        let mut out = sig.to_vec();
        out.extend_from_slice(&body);
        out
    };
    assert!(
        matches!(
            decode_lease(&own, &server().public_key()),
            Err(FormatError::UnknownCriticalField { .. })
        ),
        "предпосылка неверна: тело разбирается"
    );

    let forged = {
        let sig = stranger().sign(&lease_transcript(&body)).unwrap();
        let mut out = sig.to_vec();
        out.extend_from_slice(&body);
        out
    };
    let outcome = decode_lease(&forged, &server().public_key());
    assert!(
        matches!(outcome, Err(FormatError::BadHeaderSignature)),
        "разбор произошёл до проверки подписи: {outcome:?}"
    );
}

#[test]
fn the_two_documents_do_not_share_a_signing_domain() {
    let body = lease_body(&lease()).unwrap();
    let wrong_domain = server().sign(&grant_transcript(&body)).unwrap();
    let mut document = wrong_domain.to_vec();
    document.extend_from_slice(&body);
    assert!(
        matches!(
            decode_lease(&document, &server().public_key()),
            Err(FormatError::BadHeaderSignature)
        ),
        "подпись в домене гранта принята лизой"
    );
}

#[test]
fn action_a_grant_signed_by_another_author_is_refused() {
    let mut g = grant();
    sign_grant(&mut g, &stranger());
    let bytes = encode_grant(&g).unwrap();
    assert!(matches!(
        decode_grant(&bytes, &author().public_key()),
        Err(FormatError::BadHeaderSignature)
    ));
}

#[test]
fn action_the_author_key_inside_must_match_the_one_supplied() {
    let mut g = grant();
    g.author_key = [0x99; 32];
    sign_grant(&mut g, &author());
    let bytes = encode_grant(&g).unwrap();
    match decode_grant(&bytes, &author().public_key()) {
        Err(FormatError::BadFieldLength { tag, .. }) => {
            assert_eq!(tag, grant_tag::AUTHOR_KEY);
        }
        other => panic!("грант с чужим именем автора принят: {other:?}"),
    }
}

#[test]
fn action_peeking_reads_the_same_body_but_never_stands_in_for_the_signature() {
    let g = grant();
    let bytes = encode_grant(&g).unwrap();
    assert_eq!(peek_grant(&bytes).unwrap(), g);

    let body = grant_body(&g).unwrap();
    let forged = signed(&body, &stranger());
    assert!(peek_grant(&forged).is_ok(), "взгляд обязан проходить и без своей подписи");
    assert!(
        matches!(
            decode_grant(&forged, &author().public_key()),
            Err(FormatError::BadHeaderSignature)
        ),
        "чужая подпись принята"
    );
}

#[test]
fn an_unknown_optional_tag_is_skipped_and_a_critical_one_is_refused() {
    let good = grant_body(&grant()).unwrap();

    let skipped = rebuild_plus(&good, 0x8000, &[1, 2, 3]);
    let back = decode_grant(&signed(&skipped, &author()), &author().public_key()).unwrap();
    let mut expected = grant();
    expected.signature = back.signature;
    assert_eq!(back, expected, "необязательный тег не проехал мимо");

    let refused = rebuild_plus(&good, 0x7FFF, &[1, 2, 3]);
    assert!(
        matches!(
            decode_grant(&signed(&refused, &author()), &author().public_key()),
            Err(FormatError::UnknownCriticalField { tag: 0x7FFF })
        ),
        "критичный тег из будущей версии пропущен молча"
    );
}

#[test]
fn an_unknown_action_kind_is_refused_on_parse() {
    let bytes = encode_request(&request()).unwrap();
    let broken = rebuild_with(&bytes, request_tag::KIND, &99_u16.to_le_bytes());
    assert!(
        matches!(
            decode_request(&broken),
            Err(FormatError::BadFieldLength { tag: request_tag::KIND, .. })
        ),
        "вид вне реестра принят"
    );
}

#[test]
fn an_extra_critical_tag_in_the_arguments_is_refused() {
    let ask = request();
    let args = encode_args(&ask.args).unwrap();
    let with_force = rebuild_plus(&args, 12, &[1]);
    assert!(
        matches!(
            decode_args(&with_force, ActionKind::GitPush),
            Err(FormatError::UnknownCriticalField { tag: 12 })
        ),
        "лишний критичный тег в аргументах принят"
    );

    let with_host = rebuild_plus(&args, field_tag::HOST, b"example.com");
    assert!(
        matches!(
            decode_args(&with_host, ActionKind::GitPush),
            Err(FormatError::UnknownCriticalField { tag: field_tag::HOST })
        ),
        "тег чужого вида принят в аргументах git.push"
    );
}

#[test]
fn the_kind_must_agree_with_the_arguments() {
    let mut ask = request();
    ask.kind = ActionKind::TreeRemove;
    assert!(encode_request(&ask).is_err(), "писатель выпустил просьбу с чужим видом");
}

#[test]
fn the_flags_are_exactly_zero_or_one() {
    let g = grant();
    let body = grant_body(&g).unwrap();
    let rules = fields_of(&body)
        .into_iter()
        .find(|(t, _)| *t == grant_tag::RULES)
        .map(|(_, v)| v)
        .unwrap();
    let first = fields_of(&rules).into_iter().find(|(t, _)| *t == 0).map(|(_, v)| v).unwrap();
    let broken = rebuild_with(&first, rule_tag::CONFIRM, &[2]);
    assert!(
        matches!(
            decode_rule(&broken),
            Err(FormatError::BadFieldLength { tag: rule_tag::CONFIRM, .. })
        ),
        "признак принял значение, которого у истины нет"
    );
}

#[test]
fn a_lease_longer_than_its_window_is_refused() {
    let mut l = lease();
    l.expires_at = l.issued_at + ACTION_LEASE_SECONDS + 1;
    assert!(lease_body(&l).is_err(), "писатель выпустил лизу шире окна");

    let good = lease_body(&lease()).unwrap();
    let body = rebuild_with(
        &good,
        lease_tag::EXPIRES_AT,
        &(1_700_010_000_i64 + ACTION_LEASE_SECONDS + 1).to_le_bytes(),
    );
    let sig = server().sign(&lease_transcript(&body)).unwrap();
    let mut document = sig.to_vec();
    document.extend_from_slice(&body);
    assert!(
        matches!(
            decode_lease(&document, &server().public_key()),
            Err(FormatError::BadFieldLength { tag: lease_tag::EXPIRES_AT, .. })
        ),
        "лиза шире обещанного окна принята"
    );
}

#[test]
fn more_rules_than_the_ceiling_is_refused() {
    let mut g = grant();
    g.rules = (0..=MAX_ACTION_RULES).map(|_| push_rule()).collect();
    assert!(grant_body(&g).is_err(), "писатель выпустил грант длиннее потолка");
}

#[test]
fn methods_out_of_order_or_repeated_are_refused() {
    for (what, methods) in [
        ("перестановка", vec![Method::Post, Method::Get]),
        ("повтор", vec![Method::Get, Method::Get]),
        ("пустой список", vec![]),
    ] {
        let mut rule = http_rule();
        rule.constraint = Constraint::HttpRequest {
            host: "api.example.com".to_string(),
            methods,
            path_prefix: "/v1".to_string(),
            secret_ref: None,
        };
        assert!(encode_rule(&rule).is_err(), "{what}: писатель принял список методов");
    }
}

#[test]
fn a_path_that_escapes_the_tree_is_refused_by_the_codec() {
    for bad in ["../etc/passwd", "/etc/passwd", "src/../../x", "C:/windows", "src\\x", "src//x", "src/./x", ""]
    {
        let mut rule = remove_rule();
        rule.constraint = Constraint::TreeRemove { prefix: bad.to_string() };
        assert!(encode_rule(&rule).is_err(), "путь {bad:?} принят писателем");
    }
    let mut rule = remove_rule();
    rule.constraint = Constraint::TreeRemove { prefix: "src/deep/leaf.rs".to_string() };
    assert!(encode_rule(&rule).is_ok(), "честный путь отвергнут — правило слишком строго");
}

#[test]
fn a_host_mask_is_inexpressible() {
    for bad in ["*.example.com", "API.example.com", "", ".example.com", "ex..com", "-ex.com"] {
        let mut rule = http_rule();
        rule.constraint = Constraint::HttpRequest {
            host: bad.to_string(),
            methods: vec![Method::Get],
            path_prefix: "/".to_string(),
            secret_ref: None,
        };
        assert!(encode_rule(&rule).is_err(), "хост {bad:?} принят писателем");
    }
    let mut rule = http_rule();
    rule.constraint = Constraint::HttpRequest {
        host: "api.example.com".to_string(),
        methods: vec![Method::Get],
        path_prefix: "/".to_string(),
        secret_ref: None,
    };
    assert!(encode_rule(&rule).is_ok(), "честный хост отвергнут");
}

#[test]
fn an_http_path_with_a_query_is_refused() {
    for bad in ["/v1?x=1", "v1/issues", "/v1/../admin", "/v1/", "#frag"] {
        let mut rule = http_rule();
        rule.constraint = Constraint::HttpRequest {
            host: "api.example.com".to_string(),
            methods: vec![Method::Get],
            path_prefix: bad.to_string(),
            secret_ref: None,
        };
        assert!(encode_rule(&rule).is_err(), "префикс пути {bad:?} принят");
    }
    let mut rule = http_rule();
    rule.constraint = Constraint::HttpRequest {
        host: "api.example.com".to_string(),
        methods: vec![Method::Get],
        path_prefix: "/".to_string(),
        secret_ref: None,
    };
    assert!(encode_rule(&rule).is_ok(), "корень отвергнут как префикс");
}

#[test]
fn a_body_longer_than_a_megabyte_is_refused_on_parse() {
    let args = Args::HttpRequest {
        host: "api.example.com".to_string(),
        method: Method::Post,
        path: "/v1/issues".to_string(),
        body_digest: [0; 32],
        body_len: MAX_BODY_LEN + 1,
    };
    assert!(encode_args(&args).is_err(), "писатель принял тело больше мегабайта");
}

#[test]
fn honest_arguments_pass_every_kind() {
    args_within(&push_rule(), &push_args()).expect("push в разрешённую ветку");
    args_within(&remove_rule(), &Args::TreeRemove { path: "src/main.rs".to_string() })
        .expect("удаление под префиксом");
    args_within(
        &rename_rule(),
        &Args::TreeRename { from: "src/old.rs".to_string(), to: "attic/old.rs".to_string() },
    )
    .expect("переименование под обоими префиксами");
    args_within(&http_rule(), &http_args()).expect("запрос под префиксом пути");
}

#[test]
fn arguments_of_another_kind_are_refused() {
    assert_eq!(
        args_within(&push_rule(), &Args::TreeRemove { path: "src/x".to_string() }),
        Err(ActionRefusal::WrongKind)
    );
}

#[test]
fn a_rule_whose_kind_contradicts_its_limiter_is_refused() {
    let mut liar = remove_rule();
    liar.kind = ActionKind::GitPush;
    assert!(check_rule_shape(&liar).is_err(), "предпосылка: такой документ не выпускается");

    assert_eq!(
        args_within(&liar, &Args::TreeRemove { path: "src/main.rs".to_string() }),
        Err(ActionRefusal::WrongKind),
        "действие исполнено по ограничителю, хотя правило называет другой вид"
    );
    assert_eq!(args_within(&liar, &push_args()), Err(ActionRefusal::WrongKind));
}

#[test]
fn another_remote_or_branch_is_refused_by_name() {
    assert_eq!(
        args_within(
            &push_rule(),
            &Args::GitPush { remote: "upstream".to_string(), branch: "agent/work".to_string() }
        ),
        Err(ActionRefusal::NotEqual { limiter: "remote" })
    );
    assert_eq!(
        args_within(
            &push_rule(),
            &Args::GitPush { remote: "origin".to_string(), branch: "main".to_string() }
        ),
        Err(ActionRefusal::NotEqual { limiter: "branch" })
    );
}

#[test]
fn a_sibling_directory_is_not_under_the_prefix() {
    assert_eq!(
        args_within(&remove_rule(), &Args::TreeRemove { path: "src2/main.rs".to_string() }),
        Err(ActionRefusal::OutsidePrefix { limiter: "prefix" })
    );
    assert!(
        args_within(&remove_rule(), &Args::TreeRemove { path: "src/main.rs".to_string() })
            .is_ok()
    );
    assert!(
        args_within(&remove_rule(), &Args::TreeRemove { path: "src".to_string() }).is_ok()
    );
}

#[test]
fn a_path_leaving_the_tree_is_refused_before_the_prefix_is_even_checked() {
    assert_eq!(
        args_within(&remove_rule(), &Args::TreeRemove { path: "src/../../etc".to_string() }),
        Err(ActionRefusal::BadPath { limiter: "prefix" })
    );
    assert_eq!(
        args_within(&remove_rule(), &Args::TreeRemove { path: "/etc/passwd".to_string() }),
        Err(ActionRefusal::BadPath { limiter: "prefix" })
    );
}

#[test]
fn both_halves_of_a_rename_are_checked() {
    let rule = rename_rule();
    assert_eq!(
        args_within(
            &rule,
            &Args::TreeRename { from: "docs/x".to_string(), to: "attic/x".to_string() }
        ),
        Err(ActionRefusal::OutsidePrefix { limiter: "from_prefix" })
    );
    assert_eq!(
        args_within(
            &rule,
            &Args::TreeRename { from: "src/x".to_string(), to: "docs/x".to_string() }
        ),
        Err(ActionRefusal::OutsidePrefix { limiter: "to_prefix" })
    );
}

#[test]
fn the_http_limiters_are_all_checked() {
    let rule = http_rule();

    let mut args = http_args();
    if let Args::HttpRequest { host, .. } = &mut args {
        *host = "evil.example.com".to_string();
    }
    assert_eq!(args_within(&rule, &args), Err(ActionRefusal::NotEqual { limiter: "host" }));

    let mut args = http_args();
    if let Args::HttpRequest { method, .. } = &mut args {
        *method = Method::Delete;
    }
    assert_eq!(args_within(&rule, &args), Err(ActionRefusal::MethodNotAllowed));

    let mut args = http_args();
    if let Args::HttpRequest { path, .. } = &mut args {
        *path = "/v1/issues2/42".to_string();
    }
    assert_eq!(
        args_within(&rule, &args),
        Err(ActionRefusal::OutsidePrefix { limiter: "path_prefix" })
    );

    let mut args = http_args();
    if let Args::HttpRequest { body_len, .. } = &mut args {
        *body_len = MAX_BODY_LEN + 1;
    }
    assert_eq!(
        args_within(&rule, &args),
        Err(ActionRefusal::BodyTooLarge { len: MAX_BODY_LEN + 1 })
    );

    let mut args = http_args();
    if let Args::HttpRequest { body_len, .. } = &mut args {
        *body_len = MAX_BODY_LEN;
    }
    assert!(args_within(&rule, &args).is_ok());
}

#[test]
fn a_narrowing_child_rule_passes() {
    let parent = remove_rule();
    let mut child = remove_rule();
    child.constraint = Constraint::TreeRemove { prefix: "src/agent".to_string() };
    child.max_uses = 5;
    child.delegable = false;
    narrower(&child, &parent).expect("сужение обязано проходить");
}

#[test]
fn a_child_of_another_kind_is_refused() {
    assert_eq!(narrower(&remove_rule(), &push_rule()), Err(ActionRefusal::WrongKind));
}

#[test]
fn a_confirm_rule_is_never_delegated() {
    let mut parent = push_rule();
    parent.confirm = true;
    let child = push_rule();
    assert_eq!(narrower(&child, &parent), Err(ActionRefusal::ConfirmNotDelegable));
}

#[test]
fn a_rule_not_marked_delegable_is_not_delegated() {
    let parent = rename_rule();
    assert!(!parent.delegable, "предпосылка: правило не делегируемо");
    assert_eq!(narrower(&rename_rule(), &parent), Err(ActionRefusal::NotDelegable));
}

#[test]
fn delegable_can_only_be_dropped() {
    let mut parent = remove_rule();
    parent.delegable = false;
    let mut child = remove_rule();
    child.delegable = true;
    assert_eq!(narrower(&child, &parent), Err(ActionRefusal::NotDelegable));

    let parent = remove_rule();
    let mut child = remove_rule();
    child.delegable = false;
    assert!(narrower(&child, &parent).is_ok());
}

#[test]
fn a_child_cannot_widen_the_use_count() {
    let parent = push_rule();
    assert_eq!(parent.max_uses, 10, "предпосылка");

    let mut child = push_rule();
    child.max_uses = 11;
    assert_eq!(narrower(&child, &parent), Err(ActionRefusal::MoreUses));

    let mut child = push_rule();
    child.max_uses = 0;
    assert_eq!(narrower(&child, &parent), Err(ActionRefusal::MoreUses));

    let mut boundless = push_rule();
    boundless.max_uses = 0;
    let mut child = push_rule();
    child.max_uses = 1_000;
    assert!(narrower(&child, &boundless).is_ok());
}

#[test]
fn a_child_cannot_widen_a_limiter() {
    let mut child = push_rule();
    child.constraint = Constraint::GitPush {
        remote: "upstream".to_string(),
        branch: "agent/work".to_string(),
    };
    assert_eq!(
        narrower(&child, &push_rule()),
        Err(ActionRefusal::WiderLimiter { limiter: "remote" })
    );

    let mut child = remove_rule();
    child.constraint = Constraint::TreeRemove { prefix: "src2".to_string() };
    assert_eq!(
        narrower(&child, &remove_rule()),
        Err(ActionRefusal::WiderLimiter { limiter: "prefix" })
    );

    let mut parent = rename_rule();
    parent.delegable = true;
    let mut child = parent.clone();
    child.constraint = Constraint::TreeRename {
        from_prefix: "docs".to_string(),
        to_prefix: "attic".to_string(),
    };
    assert_eq!(
        narrower(&child, &parent),
        Err(ActionRefusal::WiderLimiter { limiter: "from_prefix" })
    );
    let mut child = parent.clone();
    child.constraint = Constraint::TreeRename {
        from_prefix: "src".to_string(),
        to_prefix: "docs".to_string(),
    };
    assert_eq!(
        narrower(&child, &parent),
        Err(ActionRefusal::WiderLimiter { limiter: "to_prefix" })
    );
}

#[test]
fn the_http_child_narrows_host_methods_path_and_secret() {
    let parent = http_rule();

    let widen = |limit: Constraint| {
        let mut child = http_rule();
        child.constraint = limit;
        narrower(&child, &parent)
    };

    assert_eq!(
        widen(Constraint::HttpRequest {
            host: "other.example.com".to_string(),
            methods: vec![Method::Get],
            path_prefix: "/v1/issues".to_string(),
            secret_ref: Some("FORGE_TOKEN".to_string()),
        }),
        Err(ActionRefusal::WiderLimiter { limiter: "host" })
    );

    assert_eq!(
        widen(Constraint::HttpRequest {
            host: "api.example.com".to_string(),
            methods: vec![Method::Get, Method::Post, Method::Delete],
            path_prefix: "/v1/issues".to_string(),
            secret_ref: Some("FORGE_TOKEN".to_string()),
        }),
        Err(ActionRefusal::WiderLimiter { limiter: "methods" })
    );

    assert_eq!(
        widen(Constraint::HttpRequest {
            host: "api.example.com".to_string(),
            methods: vec![Method::Get],
            path_prefix: "/v1".to_string(),
            secret_ref: Some("FORGE_TOKEN".to_string()),
        }),
        Err(ActionRefusal::WiderLimiter { limiter: "path_prefix" })
    );

    assert_eq!(
        widen(Constraint::HttpRequest {
            host: "api.example.com".to_string(),
            methods: vec![Method::Get],
            path_prefix: "/v1/issues".to_string(),
            secret_ref: Some("ADMIN_TOKEN".to_string()),
        }),
        Err(ActionRefusal::SecretRefChanged)
    );

    assert!(
        widen(Constraint::HttpRequest {
            host: "api.example.com".to_string(),
            methods: vec![Method::Get],
            path_prefix: "/v1/issues/42".to_string(),
            secret_ref: None,
        })
        .is_ok()
    );
}

#[test]
fn a_child_cannot_invent_a_secret_reference() {
    let mut parent = http_rule();
    parent.constraint = Constraint::HttpRequest {
        host: "api.example.com".to_string(),
        methods: vec![Method::Get],
        path_prefix: "/v1".to_string(),
        secret_ref: None,
    };
    let mut child = parent.clone();
    child.constraint = Constraint::HttpRequest {
        host: "api.example.com".to_string(),
        methods: vec![Method::Get],
        path_prefix: "/v1".to_string(),
        secret_ref: Some("FORGE_TOKEN".to_string()),
    };
    assert_eq!(narrower(&child, &parent), Err(ActionRefusal::SecretRefChanged));
}

#[test]
fn action_every_refusal_names_a_reason() {
    for refusal in [
        ActionRefusal::WrongKind,
        ActionRefusal::NotEqual { limiter: "remote" },
        ActionRefusal::OutsidePrefix { limiter: "prefix" },
        ActionRefusal::BadPath { limiter: "prefix" },
        ActionRefusal::MethodNotAllowed,
        ActionRefusal::BodyTooLarge { len: 5 },
        ActionRefusal::ConfirmNotDelegable,
        ActionRefusal::NotDelegable,
        ActionRefusal::MoreUses,
        ActionRefusal::WiderLimiter { limiter: "host" },
        ActionRefusal::SecretRefChanged,
    ] {
        let text = refusal.text();
        assert!(text.len() > 10, "отказ {refusal:?} не объяснён: {text:?}");
    }
}

#[test]
fn action_decoding_arbitrary_bytes_never_panics() {
    let key = author().public_key();
    let documents =
        [encode_grant(&grant()).unwrap(), encode_lease(&lease()).unwrap(), encode_request(&request()).unwrap()];
    for bytes in &documents {
        for cut in 0..bytes.len() {
            let _ = decode_grant(&bytes[..cut], &key);
            let _ = decode_lease(&bytes[..cut], &key);
            let _ = decode_request(&bytes[..cut]);
        }
    }
    let mut seed = 0x5eed_u64;
    for _ in 0..10_000 {
        seed = seed.wrapping_mul(6_364_136_223_846_793_005).wrapping_add(1);
        let len = (seed >> 33) as usize % 128;
        let mut junk = vec![0u8; len];
        for (i, b) in junk.iter_mut().enumerate() {
            *b = (seed >> (i % 8 * 8)) as u8;
        }
        let _ = decode_grant(&junk, &key);
        let _ = decode_lease(&junk, &key);
        let _ = decode_request(&junk);
        let _ = decode_decision(&junk, &key);
        let _ = peek_decision(&junk);
        let _ = decode_pending(&junk);
        let _ = split_action_queue(&junk);
    }
}

fn decision() -> ActionDecision {
    let mut d = ActionDecision {
        seq: 11,
        grant_id: [0x67; 16],
        door_fpr: [0xd1; 32],
        approve: true,
        note: "да, эту ветку можно".to_string(),
        author_key: author().public_key(),
        signature: [0; SIGNATURE_LEN],
    };
    let body = decision_body(&d).expect("тело решения собирается");
    d.signature = author().sign(&decision_transcript(&body)).unwrap();
    d
}

fn pending() -> PendingAction {
    PendingAction {
        seq: 11,
        grant_id: [0x67; 16],
        door_fpr: [0xd1; 32],
        kind: ActionKind::GitPush,
        args: push_args(),
        nonce: [0x5a; 16],
        note: "выкладываю ветку агента".to_string(),
        at: 1_700_010_000,
    }
}

#[test]
fn an_owner_decision_verifies_with_the_author_key_and_nothing_else_passes() {
    let d = decision();
    let bytes = encode_decision(&d).unwrap();
    assert_eq!(decode_decision(&bytes, &author().public_key()).unwrap(), d);
    assert!(
        decode_decision(&bytes, &stranger().public_key()).is_err(),
        "решение принято чужим ключом"
    );
    assert_eq!(peek_decision(&bytes).unwrap(), d);

    for index in 0..bytes.len() {
        let mut broken = bytes.clone();
        broken[index] ^= 0x01;
        assert!(
            decode_decision(&broken, &author().public_key()).is_err(),
            "правка байта {index} прошла проверку"
        );
    }
}

#[test]
fn the_author_key_inside_the_decision_is_checked_against_the_one_passed_in() {
    let mut d = decision();
    d.author_key = stranger().public_key();
    let body = decision_body(&d).unwrap();
    d.signature = author().sign(&decision_transcript(&body)).unwrap();
    let bytes = encode_decision(&d).unwrap();
    assert!(
        decode_decision(&bytes, &author().public_key()).is_err(),
        "решение с чужим ключом в теле принято"
    );
}

#[test]
fn a_decision_signature_from_the_access_domain_does_not_pass_here() {
    let d = decision();
    let body = decision_body(&d).unwrap();
    let foreign = author().sign(&access::decision_transcript(&body)).unwrap();
    let mut bytes = foreign.to_vec();
    bytes.extend_from_slice(&body);
    assert!(
        decode_decision(&bytes, &author().public_key()).is_err(),
        "подпись из домена доступа принята за решение по действию"
    );
}

#[test]
fn the_confirm_queue_round_trips_and_refuses_more_than_its_window() {
    let p = pending();
    assert_eq!(decode_pending(&encode_pending(&p).unwrap()).unwrap(), p);

    let one = encode_pending(&p).unwrap();
    let mut body = Vec::new();
    for _ in 0..MAX_PENDING_ACTION_WINDOW {
        body.extend_from_slice(&(one.len() as u32).to_le_bytes());
        body.extend_from_slice(&one);
    }
    assert_eq!(split_action_queue(&body).unwrap().len(), MAX_PENDING_ACTION_WINDOW);

    let mut over = body.clone();
    over.extend_from_slice(&(one.len() as u32).to_le_bytes());
    over.extend_from_slice(&one);
    assert!(split_action_queue(&over).is_err(), "очередь выше окна принята");

    for cut in [1usize, 3, body.len() - 1] {
        assert!(split_action_queue(&body[..cut]).is_err(), "обрубок длиной {cut} принят");
    }
    assert!(split_action_queue(&[]).unwrap().is_empty());
}

#[test]
fn a_rule_key_tells_two_rules_of_one_kind_apart() {
    let mut a = remove_rule();
    let mut b = remove_rule();
    assert_eq!(limiter_key(&a).unwrap(), limiter_key(&b).unwrap());

    b.constraint = Constraint::TreeRemove { prefix: "docs".to_string() };
    assert_ne!(
        limiter_key(&a).unwrap(),
        limiter_key(&b).unwrap(),
        "два поддерева получили один ключ"
    );
    assert_ne!(limiter_key(&remove_rule()).unwrap(), limiter_key(&push_rule()).unwrap());

    let key = limiter_key(&a).unwrap();
    a.max_uses = 0;
    a.confirm = !a.confirm;
    a.delegable = !a.delegable;
    assert_eq!(limiter_key(&a).unwrap(), key, "смена предела сменила ключ правила");
}

#[test]
fn a_torn_confirm_queue_says_where_it_is_torn() {
    let one = encode_pending(&pending()).unwrap();
    let mut body = (one.len() as u32).to_le_bytes().to_vec();
    body.extend_from_slice(&one);
    assert!(matches!(split_action_queue(&body[..3]), Err(QueueError::Torn(_))));
    assert!(matches!(split_action_queue(&body[..body.len() - 1]), Err(QueueError::Torn(_))));
    let mut broken = body.clone();
    broken[4] = 0;
    assert!(matches!(split_action_queue(&broken), Err(QueueError::Record(_))));
}

#[test]
fn the_kinds_and_methods_have_numbers() {
    for (n, kind) in [
        (1u16, ActionKind::GitPush),
        (2, ActionKind::TreeRemove),
        (3, ActionKind::TreeRename),
        (4, ActionKind::HttpRequest),
    ] {
        assert_eq!(kind.as_u16(), n);
        assert_eq!(ActionKind::from_u16(n, 9), Ok(kind));
    }
    assert_eq!(ActionKind::from_u16(5, 9), Err(FormatError::BadFieldLength { tag: 9, len: 2 }));
    for (n, method) in [
        (1u8, Method::Get),
        (2, Method::Head),
        (3, Method::Post),
        (4, Method::Put),
        (5, Method::Patch),
        (6, Method::Delete),
    ] {
        assert_eq!(method.as_u8(), n);
        assert_eq!(Method::from_u8(n, 9), Ok(method));
    }
    assert_eq!(Method::from_u8(7, 9), Err(FormatError::BadFieldLength { tag: 9, len: 1 }));
}

#[test]
fn the_bytes_of_arguments_are_fixed() {
    let bytes = encode_args(&Args::TreeRemove { path: "src".to_string() }).unwrap();
    let fields = fields_of(&bytes);
    assert_eq!(fields, vec![(field_tag::PATH, b"src".to_vec())]);
    assert_eq!(
        decode_args(&bytes, ActionKind::TreeRemove),
        Ok(Args::TreeRemove { path: "src".to_string() })
    );
}

#[test]
fn what_a_narrower_rule_permits_the_wider_one_permits() {
    let parent = remove_rule();
    let mut child = remove_rule();
    child.constraint = Constraint::TreeRemove { prefix: "src/agent".to_string() };
    narrower(&child, &parent).unwrap();
    let args = Args::TreeRemove { path: "src/agent/x.rs".to_string() };
    args_within(&child, &args).unwrap();
    args_within(&parent, &args).unwrap();
    let outside = Args::TreeRemove { path: "src/x.rs".to_string() };
    assert!(args_within(&child, &outside).is_err());
    args_within(&parent, &outside).unwrap();
}

#[test]
fn a_refusal_names_its_limiter() {
    assert_eq!(
        ActionRefusal::WiderLimiter { limiter: "host" }.text(),
        "ограничитель «host» у потомка шире родительского"
    );
    assert_eq!(
        ActionRefusal::BodyTooLarge { len: 1_048_577 }.text(),
        "тело длиной 1048577 байт больше разрешённого мегабайта"
    );
}

#[test]
fn an_action_too_many_is_named_as_such() {
    let one = encode_pending(&pending()).unwrap();
    let mut body = Vec::new();
    for _ in 0..=MAX_PENDING_ACTION_WINDOW {
        body.extend_from_slice(&(one.len() as u32).to_le_bytes());
        body.extend_from_slice(&one);
    }
    assert_eq!(split_action_queue(&body), Err(QueueError::TooMany));
    body.extend_from_slice(b"whatever follows");
    assert_eq!(split_action_queue(&body), Err(QueueError::TooMany));
}
