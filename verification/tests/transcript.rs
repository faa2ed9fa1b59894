//! What is signed of the documents.

use oc_protocol::access;
use oc_protocol::action;
use oc_protocol::agent;
use oc_protocol::directory::Record;
use oc_protocol::error::FormatError;
use oc_protocol::lease;
use oc_protocol::transcript::{claim, Label, Transcript, SIGNATURE_LEN};

/// One body under every label.
fn all(body: &[u8]) -> Vec<Transcript> {
    vec![
        access::decision_transcript(body),
        action::grant_transcript(body),
        action::lease_transcript(body),
        action::decision_transcript(body),
        agent::grant_transcript(body),
        agent::delegation_transcript(body),
        lease::signing_transcript(body),
        Transcript::new(Label::AuthorityBinding, body),
        Transcript::new(Label::AuthorityTransfer, body),
        Transcript::new(Label::ControlRequest, body),
        Transcript::new(Label::OperationReceipt, body),
        Record::leaf_transcript(body),
    ]
}

#[test]
fn no_two_kinds_of_document_share_a_transcript() {
    let of_one_body = all(b"body");
    for i in 0..of_one_body.len() {
        for j in 0..i {
            assert_ne!(of_one_body[i], of_one_body[j]);
            assert_ne!(of_one_body[i].label, of_one_body[j].label);
        }
    }
}

#[test]
fn a_transcript_tells_bodies_apart() {
    for (a, b) in all(b"body").iter().zip(&all(b"bodz")) {
        assert_eq!(a.label, b.label);
        assert_ne!(a, b);
    }
}

#[test]
fn each_document_has_its_own_label() {
    assert_eq!(access::decision_transcript(b"x").label, Label::Grant);
    assert_eq!(action::grant_transcript(b"x").label, Label::ActionGrant);
    assert_eq!(action::lease_transcript(b"x").label, Label::ActionLease);
    assert_eq!(action::decision_transcript(b"x").label, Label::ActionDecision);
    assert_eq!(agent::grant_transcript(b"x").label, Label::AgentGrant);
    assert_eq!(agent::delegation_transcript(b"x").label, Label::Delegation);
    assert_eq!(lease::signing_transcript(b"x").label, Label::Lease);
    assert_eq!(Record::leaf_transcript(b"x").label, Label::DirectoryEntry);
}

#[test]
fn a_claim_parts_the_signature_from_the_body() {
    let mut bytes = vec![7u8; SIGNATURE_LEN];
    bytes.extend_from_slice(b"body");
    let made = claim(Label::Lease, &bytes, &[9; 32]).unwrap();
    assert_eq!(made.key, [9; 32]);
    assert_eq!(made.signature, [7; SIGNATURE_LEN]);
    assert_eq!(made.transcript, Transcript::new(Label::Lease, b"body"));

    let empty = claim(Label::Lease, &bytes[..SIGNATURE_LEN], &[9; 32]).unwrap();
    assert!(empty.transcript.body.is_empty());

    assert_eq!(
        claim(Label::Lease, &bytes[..SIGNATURE_LEN - 1], &[9; 32]),
        Err(FormatError::BadHeaderSignature)
    );
}
