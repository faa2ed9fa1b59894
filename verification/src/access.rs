//! Asking for access: the recipient asks, the author decides.

use crate::bytes::{
    self, append, array, flag_byte, one, owned, part, read32, read64, read64s, write64, write64s,
};
use crate::error::FormatError;
use crate::text::{self, note_bytes_verdict, note_verdict, utf8_text};
use crate::tlv::{self, check_flag, check_length, find, need, read_fields, Rec, Schema, TlvWriter};
use crate::transcript::{Label, Transcript, TranscriptView};
use crate::unknown::{self, unknown_verdict};
use vstd::prelude::*;
use vstd::utf8::*;

pub mod laws;

verus! {

/// The longest document of this conversation.
pub const MAX_DOCUMENT: usize = crate::tlv::MAX_HEADER_LEN;

/// How many waiting requests the server hands the author at once.
pub const MAX_PENDING_PER_FILE: usize = 16;

/// How many undecided requests the server keeps for one file.
pub const MAX_WAITING_PER_FILE: usize = 256;

/// The number of a decision that is kept for the will: the queue never reaches it.
pub const HEIR_SEQ: u64 = u64::MAX;

/// The longest note, in bytes.
pub const MAX_NOTE: usize = crate::text::MAX_NOTE;

pub const TAG_FILE_ID: u16 = 1;
pub const TAG_DEVICE_FPR: u16 = 2;
pub const TAG_DEVICE_PUBLIC: u16 = 3;
pub const TAG_DEVICE_KEM: u16 = 4;
pub const TAG_NOTE: u16 = 5;
pub const TAG_SEQ: u16 = 6;
pub const TAG_AT: u16 = 7;
pub const TAG_APPROVE: u16 = 8;
pub const TAG_ENC: u16 = 9;
pub const TAG_NONCE: u16 = 10;
pub const TAG_CT: u16 = 11;
pub const TAG_AUTHOR_KEY: u16 = 12;
pub const TAG_SIGNATURE: u16 = 13;

/// A request for access, sent by a device.
#[derive(Debug, Clone, PartialEq, Eq)]
pub struct AskAccess {
    pub file_id: [u8; 16],
    pub device_fpr: [u8; 32],
    pub device_public: Vec<u8>,
    pub device_kem: u8,
    /// A note from one person to another, in any script.
    pub note: String,
}

/// What a request for access says.
pub struct AskView {
    pub file_id: Seq<u8>,
    pub device_fpr: Seq<u8>,
    pub device_public: Seq<u8>,
    pub device_kem: u8,
    pub note: Seq<char>,
}

impl View for AskAccess {
    type V = AskView;

    open spec fn view(&self) -> AskView {
        AskView {
            file_id: self.file_id@,
            device_fpr: self.device_fpr@,
            device_public: self.device_public@,
            device_kem: self.device_kem,
            note: self.note@,
        }
    }
}

impl AskView {
    /// The identifiers have their lengths.
    pub open spec fn sized(self) -> bool {
        self.file_id.len() == 16 && self.device_fpr.len() == 32
    }

    /// The records of the request.
    pub open spec fn recs(self) -> Seq<Rec> {
        Seq::<Rec>::empty().push((TAG_FILE_ID, self.file_id)).push(
            (TAG_DEVICE_FPR, self.device_fpr),
        ).push((TAG_DEVICE_PUBLIC, self.device_public)).push(
            (TAG_DEVICE_KEM, seq![self.device_kem]),
        ).push((TAG_NOTE, encode_utf8(self.note)))
    }
}

/// The rule for the fields of a request and of a waiting request.
pub struct AskSchema {
    /// Whether the number in the queue and the time belong to the document.
    pub waiting: bool,
}

impl Schema for AskSchema {
    open spec fn fault(&self, tag: u16, value: Seq<u8>) -> Option<FormatError> {
        if tag == TAG_FILE_ID {
            tlv::length_fault(tag, value, 16)
        } else if tag == TAG_DEVICE_FPR {
            tlv::length_fault(tag, value, 32)
        } else if tag == TAG_DEVICE_PUBLIC {
            None
        } else if tag == TAG_DEVICE_KEM {
            tlv::length_fault(tag, value, 1)
        } else if tag == TAG_NOTE {
            text::note_bytes_fault(tag, value)
        } else if self.waiting && (tag == TAG_SEQ || tag == TAG_AT) {
            tlv::length_fault(tag, value, 8)
        } else {
            unknown::unknown_fault(tag)
        }
    }

    fn check(&self, tag: u16, value: &[u8]) -> (r: Option<FormatError>) {
        if tag == TAG_FILE_ID {
            check_length(tag, value, 16)
        } else if tag == TAG_DEVICE_FPR {
            check_length(tag, value, 32)
        } else if tag == TAG_DEVICE_PUBLIC {
            None
        } else if tag == TAG_DEVICE_KEM {
            check_length(tag, value, 1)
        } else if tag == TAG_NOTE {
            note_bytes_verdict(tag, value)
        } else if self.waiting && (tag == TAG_SEQ || tag == TAG_AT) {
            check_length(tag, value, 8)
        } else {
            unknown_verdict(tag)
        }
    }
}

/// The bytes of a request.
pub open spec fn ask_bytes(a: AskView) -> Result<Seq<u8>, FormatError> {
    match text::note_fault(TAG_NOTE, a.note) {
        Some(e) => Err(e),
        None => tlv::sealed(a.recs()),
    }
}

/// The request that the records hold, or the first field that is absent.
pub open spec fn ask_in(rs: Seq<Rec>) -> Result<AskView, FormatError> {
    if tlv::lookup(rs, TAG_FILE_ID) is None {
        Err(FormatError::MissingField { tag: TAG_FILE_ID })
    } else if tlv::lookup(rs, TAG_DEVICE_FPR) is None {
        Err(FormatError::MissingField { tag: TAG_DEVICE_FPR })
    } else if tlv::lookup(rs, TAG_DEVICE_PUBLIC) is None {
        Err(FormatError::MissingField { tag: TAG_DEVICE_PUBLIC })
    } else if tlv::lookup(rs, TAG_DEVICE_KEM) is None {
        Err(FormatError::MissingField { tag: TAG_DEVICE_KEM })
    } else if tlv::lookup(rs, TAG_NOTE) is None {
        Err(FormatError::MissingField { tag: TAG_NOTE })
    } else {
        Ok(
            AskView {
                file_id: tlv::lookup(rs, TAG_FILE_ID)->0,
                device_fpr: tlv::lookup(rs, TAG_DEVICE_FPR)->0,
                device_public: tlv::lookup(rs, TAG_DEVICE_PUBLIC)->0,
                device_kem: tlv::lookup(rs, TAG_DEVICE_KEM)->0[0],
                note: decode_utf8(tlv::lookup(rs, TAG_NOTE)->0),
            },
        )
    }
}

/// The request that the bytes hold.
pub open spec fn ask_of(bytes: Seq<u8>) -> Result<AskView, FormatError> {
    match tlv::read(AskSchema { waiting: false }, bytes) {
        Err(e) => Err(e),
        Ok(rs) => ask_in(rs),
    }
}

/// An optional field that is not known changes nothing in the request for access that is read.
pub proof fn ask_reads_past_optional_fields(bytes: Seq<u8>)
    requires
        ask_of(bytes) is Ok,
    ensures
        ask_of(unknown::without_optional(bytes)) == ask_of(bytes),
{
    unknown::optional_records_are_skipped(AskSchema { waiting: false }, bytes);
}

/// A request survives being written and read back.
pub proof fn ask_round_trip(a: AskView)
    requires
        a.sized(),
        ask_bytes(a) is Ok,
    ensures
        ask_of(ask_bytes(a)->Ok_0) == Ok::<AskView, FormatError>(a),
{
    broadcast use {tlv::group_records, encode_utf8_decode_utf8, encode_utf8_valid_utf8};

    tlv::read_wire(AskSchema { waiting: false }, a.recs());
}

/// Write a request. It is refused where its note is too long or holds a character
/// that could repaint the screen.
pub fn encode_ask(ask: &AskAccess) -> (r: Result<Vec<u8>, FormatError>)
    ensures
        tlv::agrees(r, ask_bytes(ask@)),
{
    broadcast use tlv::group_records;

    if let Some(e) = note_verdict(TAG_NOTE, ask.note.as_str()) {
        return Err(e);
    }
    let mut w = TlvWriter::new();
    w.put(TAG_FILE_ID, ask.file_id.as_slice())?;
    w.put(TAG_DEVICE_FPR, ask.device_fpr.as_slice())?;
    w.put(TAG_DEVICE_PUBLIC, ask.device_public.as_slice())?;
    w.put(TAG_DEVICE_KEM, one(ask.device_kem).as_slice())?;
    w.put(TAG_NOTE, ask.note.as_str().as_bytes())?;
    Ok(w.finish())
}

/// Read a request.
pub fn decode_ask(bytes: &[u8]) -> (r: Result<AskAccess, FormatError>)
    ensures
        tlv::agrees(r, ask_of(bytes@)),
{
    let fs = read_fields(&AskSchema { waiting: false }, bytes)?;
    let file_id = need(&fs, TAG_FILE_ID)?;
    let fpr = need(&fs, TAG_DEVICE_FPR)?;
    let public = need(&fs, TAG_DEVICE_PUBLIC)?;
    let kem = need(&fs, TAG_DEVICE_KEM)?;
    let note = need(&fs, TAG_NOTE)?;
    Ok(
        AskAccess {
            file_id: array(file_id),
            device_fpr: array(fpr),
            device_public: owned(public),
            device_kem: kem[0],
            note: utf8_text(note),
        },
    )
}

/// A request that waits for a decision, as the author sees it.
#[derive(Debug, Clone, PartialEq, Eq)]
pub struct Pending {
    /// Its number in the queue of the server, by which the author names it.
    pub seq: u64,
    pub file_id: [u8; 16],
    pub device_fpr: [u8; 32],
    pub device_public: Vec<u8>,
    pub device_kem: u8,
    pub note: String,
    /// When the server took the request, by its own clock.
    pub at: i64,
}

/// What a waiting request says.
pub struct PendingView {
    pub seq: u64,
    pub file_id: Seq<u8>,
    pub device_fpr: Seq<u8>,
    pub device_public: Seq<u8>,
    pub device_kem: u8,
    pub note: Seq<char>,
    pub at: i64,
}

impl View for Pending {
    type V = PendingView;

    open spec fn view(&self) -> PendingView {
        PendingView {
            seq: self.seq,
            file_id: self.file_id@,
            device_fpr: self.device_fpr@,
            device_public: self.device_public@,
            device_kem: self.device_kem,
            note: self.note@,
            at: self.at,
        }
    }
}

impl PendingView {
    /// The fields of fixed length have it.
    pub open spec fn sized(self) -> bool {
        self.file_id.len() == 16 && self.device_fpr.len() == 32
    }

    /// The records of the waiting request.
    pub open spec fn recs(self) -> Seq<Rec> {
        let rs = Seq::<Rec>::empty();
        let rs = rs.push((TAG_FILE_ID, self.file_id));
        let rs = rs.push((TAG_DEVICE_FPR, self.device_fpr));
        let rs = rs.push((TAG_DEVICE_PUBLIC, self.device_public));
        let rs = rs.push((TAG_DEVICE_KEM, seq![self.device_kem]));
        let rs = rs.push((TAG_NOTE, encode_utf8(self.note)));
        let rs = rs.push((TAG_SEQ, bytes::le64(self.seq)));
        let rs = rs.push((TAG_AT, bytes::le64s(self.at)));
        rs
    }
}

/// The bytes of a waiting request.
pub open spec fn pending_bytes(p: PendingView) -> Result<Seq<u8>, FormatError> {
    match text::note_fault(TAG_NOTE, p.note) {
        Some(e) => Err(e),
        None => tlv::sealed(p.recs()),
    }
}

/// The waiting request that the records hold, or the first field that is absent.
pub open spec fn pending_in(rs: Seq<Rec>) -> Result<PendingView, FormatError> {
    if tlv::lookup(rs, TAG_SEQ) is None {
        Err(FormatError::MissingField { tag: TAG_SEQ })
    } else if tlv::lookup(rs, TAG_FILE_ID) is None {
        Err(FormatError::MissingField { tag: TAG_FILE_ID })
    } else if tlv::lookup(rs, TAG_DEVICE_FPR) is None {
        Err(FormatError::MissingField { tag: TAG_DEVICE_FPR })
    } else if tlv::lookup(rs, TAG_DEVICE_PUBLIC) is None {
        Err(FormatError::MissingField { tag: TAG_DEVICE_PUBLIC })
    } else if tlv::lookup(rs, TAG_DEVICE_KEM) is None {
        Err(FormatError::MissingField { tag: TAG_DEVICE_KEM })
    } else if tlv::lookup(rs, TAG_NOTE) is None {
        Err(FormatError::MissingField { tag: TAG_NOTE })
    } else if tlv::lookup(rs, TAG_AT) is None {
        Err(FormatError::MissingField { tag: TAG_AT })
    } else {
        Ok(
            PendingView {
                seq: bytes::num64(tlv::lookup(rs, TAG_SEQ)->0),
                file_id: tlv::lookup(rs, TAG_FILE_ID)->0,
                device_fpr: tlv::lookup(rs, TAG_DEVICE_FPR)->0,
                device_public: tlv::lookup(rs, TAG_DEVICE_PUBLIC)->0,
                device_kem: tlv::lookup(rs, TAG_DEVICE_KEM)->0[0],
                note: decode_utf8(tlv::lookup(rs, TAG_NOTE)->0),
                at: bytes::num64s(tlv::lookup(rs, TAG_AT)->0),
            },
        )
    }
}

/// The waiting request that the bytes hold.
pub open spec fn pending_of(bytes: Seq<u8>) -> Result<PendingView, FormatError> {
    match tlv::read(AskSchema { waiting: true }, bytes) {
        Err(e) => Err(e),
        Ok(rs) => pending_in(rs),
    }
}

/// An optional field that is not known changes nothing in the waiting request that is read.
pub proof fn pending_reads_past_optional_fields(bytes: Seq<u8>)
    requires
        pending_of(bytes) is Ok,
    ensures
        pending_of(unknown::without_optional(bytes)) == pending_of(bytes),
{
    unknown::optional_records_are_skipped(AskSchema { waiting: true }, bytes);
}

/// A waiting request survives being written and read back.
pub proof fn pending_round_trip(p: PendingView)
    requires
        p.sized(),
        pending_bytes(p) is Ok,
    ensures
        pending_of(pending_bytes(p)->Ok_0) == Ok::<PendingView, FormatError>(p),
{
    broadcast use {
        tlv::group_records,
        bytes::group_numbers,
        encode_utf8_decode_utf8,
        encode_utf8_valid_utf8,
    };

    tlv::read_wire(AskSchema { waiting: true }, p.recs());
}

/// Write a waiting request.
pub fn encode_pending(p: &Pending) -> (r: Result<Vec<u8>, FormatError>)
    ensures
        tlv::agrees(r, pending_bytes(p@)),
{
    broadcast use {tlv::group_records, bytes::group_numbers};

    if let Some(e) = note_verdict(TAG_NOTE, p.note.as_str()) {
        return Err(e);
    }
    let mut w = TlvWriter::new();
    w.put(TAG_FILE_ID, p.file_id.as_slice())?;
    w.put(TAG_DEVICE_FPR, p.device_fpr.as_slice())?;
    w.put(TAG_DEVICE_PUBLIC, p.device_public.as_slice())?;
    w.put(TAG_DEVICE_KEM, one(p.device_kem).as_slice())?;
    w.put(TAG_NOTE, p.note.as_str().as_bytes())?;
    w.put(TAG_SEQ, write64(p.seq).as_slice())?;
    w.put(TAG_AT, write64s(p.at).as_slice())?;
    Ok(w.finish())
}

/// Read a waiting request.
pub fn decode_pending(bytes: &[u8]) -> (r: Result<Pending, FormatError>)
    ensures
        tlv::agrees(r, pending_of(bytes@)),
{
    let fs = read_fields(&AskSchema { waiting: true }, bytes)?;
    let seq = need(&fs, TAG_SEQ)?;
    let file_id = need(&fs, TAG_FILE_ID)?;
    let fpr = need(&fs, TAG_DEVICE_FPR)?;
    let public = need(&fs, TAG_DEVICE_PUBLIC)?;
    let kem = need(&fs, TAG_DEVICE_KEM)?;
    let note = need(&fs, TAG_NOTE)?;
    let at = need(&fs, TAG_AT)?;
    Ok(
        Pending {
            seq: read64(seq),
            file_id: array(file_id),
            device_fpr: array(fpr),
            device_public: owned(public),
            device_kem: kem[0],
            note: utf8_text(note),
            at: read64s(at),
        },
    )
}

/// A sealed block: the shape of a slot and of the server's share.
#[derive(Debug, Clone, PartialEq, Eq)]
pub struct Blob {
    pub enc: Vec<u8>,
    pub nonce: [u8; 24],
    pub ct: Vec<u8>,
}

/// What a sealed block holds.
pub struct BlobView {
    pub enc: Seq<u8>,
    pub nonce: Seq<u8>,
    pub ct: Seq<u8>,
}

impl View for Blob {
    type V = BlobView;

    open spec fn view(&self) -> BlobView {
        BlobView {
            enc: self.enc@,
            nonce: self.nonce@,
            ct: self.ct@,
        }
    }
}

/// What a sealed block that may be absent holds.
pub open spec fn opt_blob(b: Option<Blob>) -> Option<BlobView> {
    match b {
        Some(b) => Some(b@),
        None => None,
    }
}

/// The decision of the author. The signature covers all of it, the sealed share too.
#[derive(Debug, Clone, PartialEq, Eq)]
pub struct Decision {
    pub seq: u64,
    pub file_id: [u8; 16],
    /// To whom. The signature covers it, so an approval cannot be readdressed.
    pub device_fpr: [u8; 32],
    pub approve: bool,
    /// The second share, sealed to the device; absent in a refusal.
    pub share_b: Option<Blob>,
    pub author_key: [u8; 32],
    pub signature: [u8; 64],
}

/// What a decision says.
pub struct DecisionView {
    pub seq: u64,
    pub file_id: Seq<u8>,
    pub device_fpr: Seq<u8>,
    pub approve: bool,
    pub share_b: Option<BlobView>,
    pub author_key: Seq<u8>,
    pub signature: Seq<u8>,
}

impl View for Decision {
    type V = DecisionView;

    open spec fn view(&self) -> DecisionView {
        DecisionView {
            seq: self.seq,
            file_id: self.file_id@,
            device_fpr: self.device_fpr@,
            approve: self.approve,
            share_b: opt_blob(self.share_b),
            author_key: self.author_key@,
            signature: self.signature@,
        }
    }
}

impl DecisionView {
    /// The fields of fixed length have it.
    pub open spec fn sized(self) -> bool {
        self.file_id.len() == 16 && self.device_fpr.len() == 32 && self.author_key.len() == 32
            && self.signature.len() == 64
                && (self.share_b is Some ==> self.share_b->0.nonce.len() == 24)
    }

    /// The records that are signed.
    pub open spec fn recs(self) -> Seq<Rec> {
        let rs = Seq::<Rec>::empty();
        let rs = rs.push((TAG_FILE_ID, self.file_id));
        let rs = rs.push((TAG_DEVICE_FPR, self.device_fpr));
        let rs = rs.push((TAG_SEQ, bytes::le64(self.seq)));
        let rs = rs.push((TAG_APPROVE, bytes::flag(self.approve)));
        let rs = tlv::with_opt(rs, TAG_ENC, self.enc());
        let rs = tlv::with_opt(rs, TAG_NONCE, self.nonce());
        let rs = tlv::with_opt(rs, TAG_CT, self.ct());
        let rs = rs.push((TAG_AUTHOR_KEY, self.author_key));
        rs
    }
}

impl DecisionView {
    /// The encapsulated key of the share.
    pub open spec fn enc(self) -> Option<Seq<u8>> {
        match self.share_b {
            Some(b) => Some(b.enc),
            None => None,
        }
    }

    /// The nonce of the share.
    pub open spec fn nonce(self) -> Option<Seq<u8>> {
        match self.share_b {
            Some(b) => Some(b.nonce),
            None => None,
        }
    }

    /// The sealed text of the share.
    pub open spec fn ct(self) -> Option<Seq<u8>> {
        match self.share_b {
            Some(b) => Some(b.ct),
            None => None,
        }
    }

    /// The records of the decision with its signature.
    pub open spec fn all_recs(self) -> Seq<Rec> {
        self.recs().push((TAG_SIGNATURE, self.signature))
    }
}

/// The bytes that the author signs.
pub open spec fn decision_body_bytes(d: DecisionView) -> Result<Seq<u8>, FormatError> {
    tlv::sealed(d.recs())
}

/// The bytes of a decision: the signed bytes and the signature.
pub open spec fn decision_bytes(d: DecisionView) -> Result<Seq<u8>, FormatError> {
    match decision_body_bytes(d) {
        Err(e) => Err(e),
        Ok(body) => Ok(body + tlv::record_bytes((TAG_SIGNATURE, d.signature))),
    }
}

/// The rule for the fields of a decision. Every unknown tag is refused: what is
/// signed is put together anew from the fields, so one that was skipped would not
/// be covered by the signature.
pub struct DecisionSchema;

impl Schema for DecisionSchema {
    open spec fn fault(&self, tag: u16, value: Seq<u8>) -> Option<FormatError> {
        if tag == TAG_SEQ {
            tlv::length_fault(tag, value, 8)
        } else if tag == TAG_FILE_ID {
            tlv::length_fault(tag, value, 16)
        } else if tag == TAG_DEVICE_FPR || tag == TAG_AUTHOR_KEY {
            tlv::length_fault(tag, value, 32)
        } else if tag == TAG_APPROVE {
            tlv::flag_fault(tag, value)
        } else if tag == TAG_ENC || tag == TAG_CT {
            None
        } else if tag == TAG_NONCE {
            tlv::length_fault(tag, value, 24)
        } else if tag == TAG_SIGNATURE {
            tlv::length_fault(tag, value, 64)
        } else {
            Some(FormatError::UnknownCriticalField { tag })
        }
    }

    fn check(&self, tag: u16, value: &[u8]) -> (r: Option<FormatError>) {
        if tag == TAG_SEQ {
            check_length(tag, value, 8)
        } else if tag == TAG_FILE_ID {
            check_length(tag, value, 16)
        } else if tag == TAG_DEVICE_FPR || tag == TAG_AUTHOR_KEY {
            check_length(tag, value, 32)
        } else if tag == TAG_APPROVE {
            check_flag(tag, value)
        } else if tag == TAG_ENC || tag == TAG_CT {
            None
        } else if tag == TAG_NONCE {
            check_length(tag, value, 24)
        } else if tag == TAG_SIGNATURE {
            check_length(tag, value, 64)
        } else {
            Some(FormatError::UnknownCriticalField { tag })
        }
    }
}

/// The share that the records hold: there in an approval, absent in a refusal.
pub open spec fn share_in(rs: Seq<Rec>, approve: bool) -> Result<Option<BlobView>, FormatError> {
    let enc = tlv::lookup(rs, TAG_ENC);
    let nonce = tlv::lookup(rs, TAG_NONCE);
    let ct = tlv::lookup(rs, TAG_CT);
    if approve {
        if enc is Some && nonce is Some && ct is Some {
            Ok(Some(BlobView { enc: enc->0, nonce: nonce->0, ct: ct->0 }))
        } else {
            Err(FormatError::MissingField { tag: TAG_CT })
        }
    } else if enc is None && nonce is None && ct is None {
        Ok(None)
    } else {
        Err(FormatError::BadFieldLength { tag: TAG_CT, len: 0 })
    }
}

/// The decision that the records hold, or what is wrong with them.
pub open spec fn decision_in(rs: Seq<Rec>) -> Result<DecisionView, FormatError> {
    if tlv::lookup(rs, TAG_APPROVE) is None {
        Err(FormatError::MissingField { tag: TAG_APPROVE })
    } else if share_in(rs, tlv::lookup(rs, TAG_APPROVE)->0[0] == 1) is Err {
        Err(share_in(rs, tlv::lookup(rs, TAG_APPROVE)->0[0] == 1)->Err_0)
    } else if tlv::lookup(rs, TAG_SEQ) is None {
        Err(FormatError::MissingField { tag: TAG_SEQ })
    } else if tlv::lookup(rs, TAG_FILE_ID) is None {
        Err(FormatError::MissingField { tag: TAG_FILE_ID })
    } else if tlv::lookup(rs, TAG_DEVICE_FPR) is None {
        Err(FormatError::MissingField { tag: TAG_DEVICE_FPR })
    } else if tlv::lookup(rs, TAG_AUTHOR_KEY) is None {
        Err(FormatError::MissingField { tag: TAG_AUTHOR_KEY })
    } else if tlv::lookup(rs, TAG_SIGNATURE) is None {
        Err(FormatError::MissingField { tag: TAG_SIGNATURE })
    } else {
        Ok(
            DecisionView {
                seq: bytes::num64(tlv::lookup(rs, TAG_SEQ)->0),
                file_id: tlv::lookup(rs, TAG_FILE_ID)->0,
                device_fpr: tlv::lookup(rs, TAG_DEVICE_FPR)->0,
                approve: tlv::lookup(rs, TAG_APPROVE)->0[0] == 1,
                share_b: share_in(rs, tlv::lookup(rs, TAG_APPROVE)->0[0] == 1)->Ok_0,
                author_key: tlv::lookup(rs, TAG_AUTHOR_KEY)->0,
                signature: tlv::lookup(rs, TAG_SIGNATURE)->0,
            },
        )
    }
}

/// The decision that the bytes hold.
pub open spec fn decision_of(bytes: Seq<u8>) -> Result<DecisionView, FormatError> {
    match tlv::read(DecisionSchema, bytes) {
        Err(e) => Err(e),
        Ok(rs) => decision_in(rs),
    }
}

/// A decision survives being written and read back, where an approval carries
/// the share and a refusal does not.
pub proof fn decision_round_trip(d: DecisionView)
    requires
        d.sized(),
        d.approve <==> d.share_b is Some,
        decision_bytes(d) is Ok,
    ensures
        decision_of(decision_bytes(d)->Ok_0) == Ok::<DecisionView, FormatError>(d),
{
    broadcast use {tlv::group_records, bytes::group_numbers};

    tlv::wire_push(d.recs(), (TAG_SIGNATURE, d.signature));
    tlv::read_wire(DecisionSchema, d.all_recs());
}

/// An approval without a share, and a refusal with one, are never read.
pub proof fn decision_without_its_share_is_refused(d: DecisionView)
    requires
        d.sized(),
        d.approve <==> d.share_b is None,
        decision_bytes(d) is Ok,
    ensures
        decision_of(decision_bytes(d)->Ok_0) is Err,
{
    broadcast use {tlv::group_records, bytes::group_numbers};

    tlv::wire_push(d.recs(), (TAG_SIGNATURE, d.signature));
    tlv::read_wire(DecisionSchema, d.all_recs());
}

/// What is read as an approval carries the share; what is read as a refusal
/// carries none.
pub proof fn approval_carries_the_share(bytes: Seq<u8>)
    requires
        decision_of(bytes) is Ok,
    ensures
        decision_of(bytes)->Ok_0.approve <==> decision_of(bytes)->Ok_0.share_b is Some,
{
}

/// The signed bytes cover the whole decision: two decisions with the same signed
/// bytes differ in the signature at most.
pub proof fn signed_bytes_cover_the_decision(a: DecisionView, b: DecisionView)
    requires
        a.sized(),
        b.sized(),
        decision_body_bytes(a) is Ok,
        decision_body_bytes(a) == decision_body_bytes(b),
    ensures
        a == (DecisionView { signature: a.signature, ..b }),
{
    broadcast use {tlv::group_records, bytes::group_numbers};

    tlv::scan_wire(a.recs());
    tlv::scan_wire(b.recs());
    assert(a.recs() == b.recs());
    let rs = a.recs();
    assert(tlv::lookup(rs, TAG_SEQ) == Some(bytes::le64(a.seq)));
    assert(tlv::lookup(rs, TAG_SEQ) == Some(bytes::le64(b.seq)));
    assert(
        tlv::lookup(rs, TAG_FILE_ID) == Some(a.file_id)
            && tlv::lookup(rs, TAG_FILE_ID) == Some(b.file_id)
    );
    assert(tlv::lookup(rs, TAG_DEVICE_FPR) == Some(a.device_fpr));
    assert(tlv::lookup(rs, TAG_DEVICE_FPR) == Some(b.device_fpr));
    assert(tlv::lookup(rs, TAG_APPROVE) == Some(bytes::flag(a.approve)));
    assert(tlv::lookup(rs, TAG_APPROVE) == Some(bytes::flag(b.approve)));
    assert(bytes::flag(a.approve)[0] == bytes::flag(b.approve)[0]);
    assert(tlv::lookup(rs, TAG_AUTHOR_KEY) == Some(a.author_key));
    assert(tlv::lookup(rs, TAG_AUTHOR_KEY) == Some(b.author_key));
    assert(tlv::lookup(rs, TAG_ENC) == a.enc() && tlv::lookup(rs, TAG_ENC) == b.enc());
    assert(tlv::lookup(rs, TAG_NONCE) == a.nonce() && tlv::lookup(rs, TAG_NONCE) == b.nonce());
    assert(tlv::lookup(rs, TAG_CT) == a.ct() && tlv::lookup(rs, TAG_CT) == b.ct());
}

/// A decision has one form: what was read is written to the very bytes that it
/// was read from.
pub proof fn decision_has_one_form(bytes: Seq<u8>)
    requires
        decision_of(bytes) is Ok,
    ensures
        decision_bytes(decision_of(bytes)->Ok_0) == Ok::<Seq<u8>, FormatError>(bytes),
{
    broadcast use {tlv::group_records, bytes::group_numbers};

    let d = decision_of(bytes)->Ok_0;
    let rs = tlv::scan(bytes, None).0;
    tlv::wire_scan(bytes);
    assert forall|tag: u16| #[trigger] tlv::lookup(rs, tag) == tlv::lookup(d.all_recs(), tag) by {
        if tlv::lookup(rs, tag) is Some {
            tlv::looked_up_is_sound(DecisionSchema, rs, tag);
            if tag == TAG_APPROVE {
                assert(tlv::lookup(rs, tag)->0 =~= bytes::flag(d.approve));
            }
            if tag == TAG_SEQ {
                assert(bytes::num64(tlv::lookup(rs, tag)->0) == d.seq);
            }
        }
    }
    tlv::same_values_same_records(rs, d.all_recs());
    tlv::wire_push(d.recs(), (TAG_SIGNATURE, d.signature));
}

/// The bytes of a decision without its signature: what is signed and checked.
pub fn decision_body(decision: &Decision) -> (r: Result<Vec<u8>, FormatError>)
    ensures
        tlv::agrees(r, decision_body_bytes(decision@)),
{
    broadcast use {tlv::group_records, bytes::group_numbers};

    let mut w = TlvWriter::new();
    w.put(TAG_FILE_ID, decision.file_id.as_slice())?;
    w.put(TAG_DEVICE_FPR, decision.device_fpr.as_slice())?;
    w.put(TAG_SEQ, write64(decision.seq).as_slice())?;
    w.put(TAG_APPROVE, flag_byte(decision.approve).as_slice())?;
    if let Some(blob) = &decision.share_b {
        w.put(TAG_ENC, blob.enc.as_slice())?;
        w.put(TAG_NONCE, blob.nonce.as_slice())?;
        w.put(TAG_CT, blob.ct.as_slice())?;
    }
    w.put(TAG_AUTHOR_KEY, decision.author_key.as_slice())?;
    Ok(w.finish())
}

/// What the author signs of a decision.
pub fn decision_transcript(body: &[u8]) -> (r: Transcript)
    ensures
        r@ == (TranscriptView { label: Label::Grant, body: body@ }),
{
    Transcript::new(Label::Grant, body)
}

/// Write a decision.
pub fn encode_decision(d: &Decision) -> (r: Result<Vec<u8>, FormatError>)
    ensures
        tlv::agrees(r, decision_bytes(d@)),
{
    broadcast use {tlv::group_records, bytes::group_numbers};

    let mut out = decision_body(d)?;
    let mut w = TlvWriter::new();
    w.put(TAG_SIGNATURE, d.signature.as_slice())?;
    let signature = w.finish();
    proof {
        tlv::wire_push(Seq::<Rec>::empty(), (TAG_SIGNATURE, d.signature@));
        assert(signature@ =~= tlv::record_bytes((TAG_SIGNATURE, d.signature@)));
    }
    append(&mut out, signature.as_slice());
    Ok(out)
}

/// Read a decision.
pub fn decode_decision(bytes: &[u8]) -> (r: Result<Decision, FormatError>)
    ensures
        tlv::agrees(r, decision_of(bytes@)),
{
    let fs = read_fields(&DecisionSchema, bytes)?;
    let approve = need(&fs, TAG_APPROVE)?[0] == 1;
    let enc = find(&fs, TAG_ENC);
    let nonce = find(&fs, TAG_NONCE);
    let ct = find(&fs, TAG_CT);
    let share_b = if approve {
        match (enc, nonce, ct) {
            (Some(enc), Some(nonce), Some(ct)) => {
                Some(Blob { enc: owned(enc), nonce: array(nonce), ct: owned(ct) })
            },
            _ => {
                return Err(FormatError::MissingField { tag: TAG_CT });
            },
        }
    } else {
        if enc.is_some() || nonce.is_some() || ct.is_some() {
            return Err(FormatError::BadFieldLength { tag: TAG_CT, len: 0 });
        }
        None
    };
    let seq = need(&fs, TAG_SEQ)?;
    let file_id = need(&fs, TAG_FILE_ID)?;
    let fpr = need(&fs, TAG_DEVICE_FPR)?;
    let author_key = need(&fs, TAG_AUTHOR_KEY)?;
    let signature = need(&fs, TAG_SIGNATURE)?;
    Ok(
        Decision {
            seq: read64(seq),
            file_id: array(file_id),
            device_fpr: array(fpr),
            approve,
            share_b,
            author_key: array(author_key),
            signature: array(signature),
        },
    )
}

/// Why a queue of waiting requests was not read.
#[derive(Debug, Clone, PartialEq, Eq)]
pub enum QueueError {
    /// The bytes end before a record does.
    Torn(&'static str),
    /// A record of the queue is not read.
    Record(FormatError),
    /// There are more records than the window holds.
    TooMany,
}

impl QueueError {
    /// The reason in words.
    pub open spec fn says(self) -> Seq<char> {
        match self {
            QueueError::Torn(what) => what@,
            QueueError::Record(e) => "запись очереди не разбирается: "@ + e.says(),
            QueueError::TooMany => "сервер прислал больше запросов, чем помещается в очередь"@,
        }
    }

    /// The reason in words.
    pub fn text(&self) -> (r: String)
        ensures
            r@ == self.says(),
    {
        match self {
            QueueError::Torn(what) => (*what).to_owned(),
            QueueError::Record(e) => "запись очереди не разбирается: ".to_owned().concat(
                e.text().as_str(),
            ),
            QueueError::TooMany =>
                "сервер прислал больше запросов, чем помещается в очередь".to_owned(),
        }
    }
}

/// The waiting requests in the bytes behind `taken` others: each is preceded by
/// its length, and there are no more of them than the window holds.
pub open spec fn queue_behind(bytes: Seq<u8>, taken: nat) -> Result<Seq<PendingView>, QueueError>
    decreases bytes.len(),
{
    if bytes.len() == 0 {
        Ok(Seq::empty())
    } else if bytes.len() < 4 {
        Err(QueueError::Torn("очередь оборвана на длине записи"))
    } else {
        let len = bytes::num32(bytes.subrange(0, 4));
        if bytes.len() - 4 < len {
            Err(QueueError::Torn("запись очереди короче объявленной длины"))
        } else {
            match pending_of(bytes.subrange(4, 4 + len)) {
                Err(e) => Err(QueueError::Record(e)),
                Ok(p) => if taken + 1 > MAX_PENDING_PER_FILE {
                    Err(QueueError::TooMany)
                } else {
                    match queue_behind(bytes.skip(4 + len), taken + 1) {
                        Err(e) => Err(e),
                        Ok(rest) => Ok(seq![p] + rest),
                    }
                },
            }
        }
    }
}

/// What the waiting requests say.
pub open spec fn pending_views(ps: Seq<Pending>) -> Seq<PendingView> {
    ps.map_values(|p: Pending| p@)
}

proof fn queue_behind_round_trip(ds: Seq<Seq<u8>>, ps: Seq<PendingView>, taken: nat)
    requires
        ds.len() == ps.len(),
        taken + ds.len() <= MAX_PENDING_PER_FILE,
        forall|i: int|
            0 <= i < ds.len() ==> (#[trigger] ds[i]).len() <= u32::MAX && pending_of(ds[i]) == Ok::<
                PendingView,
                FormatError,
            >(ps[i]),
    ensures
        queue_behind(bytes::framed(ds), taken) == Ok::<Seq<PendingView>, QueueError>(ps),
    decreases ds.len(),
{
    if ds.len() > 0 {
        bytes::framed_first(ds);
        let rest = ds.drop_first();
        let later = ps.drop_first();
        assert forall|i: int| 0 <= i < rest.len() implies (#[trigger] rest[i]).len() <= u32::MAX
            && pending_of(rest[i]) == Ok::<PendingView, FormatError>(later[i]) by {
            assert(rest[i] == ds[i + 1]);
        }
        queue_behind_round_trip(rest, later, taken + 1);
        assert(seq![ps[0]] + later =~= ps);
    } else {
        assert(ps =~= Seq::empty());
    }
}

/// A queue of requests, none of them left out or added, is what the server put together:
/// each request behind its length, and no more than the window holds.
pub proof fn queue_round_trip(ds: Seq<Seq<u8>>, ps: Seq<PendingView>)
    requires
        ds.len() == ps.len(),
        ds.len() <= MAX_PENDING_PER_FILE,
        forall|i: int|
            0 <= i < ds.len() ==> (#[trigger] ds[i]).len() <= u32::MAX && pending_of(ds[i]) == Ok::<
                PendingView,
                FormatError,
            >(ps[i]),
    ensures
        queue_behind(bytes::framed(ds), 0) == Ok::<Seq<PendingView>, QueueError>(ps),
{
    queue_behind_round_trip(ds, ps, 0);
}

proof fn queue_behind_overflows(ds: Seq<Seq<u8>>, taken: nat)
    requires
        taken <= MAX_PENDING_PER_FILE,
        taken + ds.len() > MAX_PENDING_PER_FILE,
        forall|i: int|
            0 <= i < ds.len() && taken + i <= MAX_PENDING_PER_FILE
                ==> (#[trigger] ds[i]).len() <= u32::MAX
                && pending_of(ds[i]) is Ok,
    ensures
        queue_behind(bytes::framed(ds), taken)
            == Err::<Seq<PendingView>, QueueError>(QueueError::TooMany),
    decreases ds.len(),
{
    bytes::framed_first(ds);
    if taken < MAX_PENDING_PER_FILE {
        let rest = ds.drop_first();
        assert forall|i: int| 0 <= i < rest.len() && taken + 1 + i <= MAX_PENDING_PER_FILE implies (
        #[trigger] rest[i]).len() <= u32::MAX && pending_of(rest[i]) is Ok by {
            assert(rest[i] == ds[i + 1]);
        }
        queue_behind_overflows(rest, taken + 1);
    }
}

/// More requests than the window holds are refused, whatever stands behind the first one too
/// many.
pub proof fn too_long_a_queue_is_refused(ds: Seq<Seq<u8>>)
    requires
        ds.len() > MAX_PENDING_PER_FILE,
        forall|i: int|
            0 <= i <= MAX_PENDING_PER_FILE
                ==> (#[trigger] ds[i]).len() <= u32::MAX && pending_of(ds[i]) is Ok,
    ensures
        queue_behind(bytes::framed(ds), 0)
            == Err::<Seq<PendingView>, QueueError>(QueueError::TooMany),
{
    queue_behind_overflows(ds, 0);
}

/// Split a queue of waiting requests as the server sends it.
pub fn split_queue(queue: &[u8]) -> (r: Result<Vec<Pending>, QueueError>)
    ensures
        match r {
            Ok(ps) => queue_behind(queue@, 0) == Ok::<Seq<PendingView>, QueueError>(
                pending_views(ps@),
            ),
            Err(e) => queue_behind(queue@, 0) == Err::<Seq<PendingView>, QueueError>(e),
        },
{
    let mut out: Vec<Pending> = Vec::new();
    let mut rest: &[u8] = queue;
    proof {
        if queue_behind(queue@, 0) is Ok {
            let all = queue_behind(queue@, 0)->Ok_0;
            assert(pending_views(out@) + all =~= all);
        }
    }
    while rest.len() > 0
        invariant
            out@.len() <= MAX_PENDING_PER_FILE,
            queue_behind(queue@, 0) == match queue_behind(rest@, out@.len()) {
                Err(e) => Err::<Seq<PendingView>, QueueError>(e),
                Ok(tail) => Ok::<Seq<PendingView>, QueueError>(pending_views(out@) + tail),
            },
        decreases rest@.len(),
    {
        if rest.len() < 4 {
            return Err(QueueError::Torn("очередь оборвана на длине записи"));
        }
        let len: u32 = read32(part(rest, 0, 4));
        if ((rest.len() - 4) as u64) < len as u64 {
            return Err(QueueError::Torn("запись очереди короче объявленной длины"));
        }
        let end: usize = 4 + len as usize;
        match decode_pending(part(rest, 4, end)) {
            Err(e) => {
                return Err(QueueError::Record(e));
            },
            Ok(p) => {
                if out.len() + 1 > MAX_PENDING_PER_FILE {
                    return Err(QueueError::TooMany);
                }
                let ghost before = out@;
                let ghost whole = rest@;
                out.push(p);
                rest = part(rest, end, rest.len());
                proof {
                    assert(rest@ =~= whole.skip(4 + len));
                    assert(pending_views(out@) =~= pending_views(before).push(p@));
                    if queue_behind(rest@, out@.len()) is Ok {
                        let tail = queue_behind(rest@, out@.len())->Ok_0;
                        assert(pending_views(before) + (seq![p@] + tail) =~= pending_views(out@)
                            + tail);
                    }
                }
            },
        }
    }
    assert(pending_views(out@) + Seq::<PendingView>::empty() =~= pending_views(out@));
    Ok(out)
}

} // verus!
