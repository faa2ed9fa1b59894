//! The directory of an organisation's keys: a record, its proof, and pages.
//!
//! A record says that the server of `tenant` names `public` as the key of `name`.
//! That is the word of the server: the log makes it the same word for everybody.

use crate::bytes::{
    self, append, array, join_arrays, one, owned, part, read16, read32, read64, read64s, same,
    split_arrays, write16, write32, write64, write64s,
};
use crate::error::{bad, FormatError};
use crate::kem::{self, device_fpr, KemAlg};
use crate::text::{self, byte_len, check_phrase, check_tenant, same_text, text_of};
use crate::tlv::{self, check_bounded, find, need, refuse, Field, Rec, TlvReader, TlvWriter};
use crate::transcript::{Label, Transcript, TranscriptView};
use crate::unknown::{self, strip, LAST_CRITICAL_TAG};
use crate::witness::{self, HeadView, SIGNED_HEAD_LEN, SignedHead};
use vstd::prelude::*;
use vstd::utf8::*;

pub mod laws;
pub mod tag;

verus! {

/// The longest name of an organisation, in bytes.
pub const MAX_TENANT: usize = crate::text::MAX_TENANT;

/// The longest name of a member, in characters.
pub const MAX_NAME_CHARS: usize = 128;

/// The longest word on where a key comes from, in characters.
pub const MAX_ORIGIN_CHARS: usize = 512;

/// The longest record.
pub const MAX_RECORD_LEN: usize = 8 * 1024;

/// The most records on a page.
pub const MAX_PAGE: u32 = 256;

/// The longest proof of inclusion, in nodes.
pub const MAX_INCLUSION_PATH: usize = 64;

/// Whether a key is in use.
#[derive(Debug, Clone, Copy, PartialEq, Eq, Structural)]
pub enum KeyState {
    Active,
    Withdrawn,
}

impl KeyState {
    /// The number of the state.
    pub open spec fn number(self) -> u8 {
        match self {
            KeyState::Active => 0,
            KeyState::Withdrawn => 1,
        }
    }

    /// The number of the state.
    pub fn as_u8(self) -> (r: u8)
        ensures
            r == self.number(),
    {
        match self {
            KeyState::Active => 0,
            KeyState::Withdrawn => 1,
        }
    }
}

/// A record of the directory.
#[derive(Debug, Clone, PartialEq, Eq)]
pub struct Record {
    pub tenant: String,
    pub name: String,
    pub kem: KemAlg,
    pub public: Vec<u8>,
    /// The fingerprint of the key.
    pub fpr: [u8; 32],
    pub version: u64,
    pub state: KeyState,
    pub origin: String,
    pub at: i64,
}

/// What a record says.
pub struct RecordView {
    pub tenant: Seq<char>,
    pub name: Seq<char>,
    pub kem: KemAlg,
    pub public: Seq<u8>,
    pub fpr: Seq<u8>,
    pub version: u64,
    pub state: KeyState,
    pub origin: Seq<char>,
    pub at: i64,
}

impl View for Record {
    type V = RecordView;

    open spec fn view(&self) -> RecordView {
        RecordView {
            tenant: self.tenant@,
            name: self.name@,
            kem: self.kem,
            public: self.public@,
            fpr: self.fpr@,
            version: self.version,
            state: self.state,
            origin: self.origin@,
            at: self.at,
        }
    }
}

impl RecordView {
    /// The records of the directory record.
    pub open spec fn recs(self) -> Seq<Rec> {
        let rs = Seq::<Rec>::empty();
        let rs = rs.push((tag::TENANT, encode_utf8(self.tenant)));
        let rs = rs.push((tag::NAME, encode_utf8(self.name)));
        let rs = rs.push((tag::KEM, seq![self.kem.number()]));
        let rs = rs.push((tag::PUBLIC, self.public));
        let rs = rs.push((tag::FPR, self.fpr));
        let rs = rs.push((tag::VERSION, bytes::le64(self.version)));
        let rs = rs.push((tag::STATE, seq![self.state.number()]));
        let rs = rs.push((tag::ORIGIN, encode_utf8(self.origin)));
        let rs = rs.push((tag::AT, bytes::le64s(self.at)));
        rs
    }
}

/// The verdict on a fingerprint: it is that of the key.
pub open spec fn print_fault(r: RecordView, hashed: Option<Seq<u8>>) -> Option<FormatError> {
    match kem::key_print(r.kem, r.public, hashed) {
        None => Some(
            FormatError::BadFieldLength { tag: tag::PUBLIC, len: r.public.len() as usize },
        ),
        Some(p) => if p == r.fpr {
            None
        } else {
            Some(FormatError::BadFieldLength { tag: tag::FPR, len: r.fpr.len() as usize })
        },
    }
}

/// The first rule that a record breaks.
pub open spec fn record_fault(r: RecordView, hashed: Option<Seq<u8>>) -> Option<FormatError> {
    let version = if r.version == 0 {
        Some(FormatError::BadFieldLength { tag: tag::VERSION, len: 0 })
    } else {
        None
    };
    tlv::or_else(
        text::tenant_fault(tag::TENANT, r.tenant),
        tlv::or_else(
            text::phrase_fault(tag::NAME, r.name, MAX_NAME_CHARS as nat),
            tlv::or_else(
                text::phrase_fault(tag::ORIGIN, r.origin, MAX_ORIGIN_CHARS as nat),
                tlv::or_else(version, print_fault(r, hashed)),
            ),
        ),
    )
}

/// The bytes of a record.
pub open spec fn record_bytes(r: RecordView, hashed: Option<Seq<u8>>) -> Result<
    Seq<u8>,
    FormatError,
> {
    match record_fault(r, hashed) {
        Some(e) => Err(e),
        None => match tlv::sealed(r.recs()) {
            Err(e) => Err(e),
            Ok(b) => if b.len() > MAX_RECORD_LEN {
                Err(FormatError::BadFieldLength { tag: 0, len: b.len() as usize })
            } else {
                Ok(b)
            },
        },
    }
}

/// The first record that does not stand in its place: the known tags follow each
/// other from the first on without a gap, and only optional ones may come behind.
pub open spec fn place_fault(rs: Seq<Rec>) -> Option<FormatError>
    decreases rs.len(),
{
    if rs.len() == 0 {
        None
    } else {
        tlv::or_else(place_fault(rs.drop_last()), place_fault_at(rs.len() - 1, rs.last().0))
    }
}

/// The verdict on the tag of the record with an index.
pub open spec fn place_fault_at(index: int, t: u16) -> Option<FormatError> {
    if t > LAST_CRITICAL_TAG || (t == index + 1 && t <= tag::AT) {
        None
    } else {
        Some(FormatError::UnknownCriticalField { tag: t })
    }
}

/// The records of a directory record, each in its place.
pub open spec fn placed(bytes: Seq<u8>) -> Result<Seq<Rec>, FormatError> {
    let (rs, torn) = tlv::scan(bytes, None);
    match place_fault(rs) {
        Some(e) => Err(e),
        None => match torn {
            Some(e) => Err(e),
            None => Ok(rs),
        },
    }
}

/// The value of a required field.
pub open spec fn value_at(rs: Seq<Rec>, t: u16) -> Result<Seq<u8>, FormatError> {
    match tlv::lookup(rs, t) {
        Some(v) => Ok(v),
        None => Err(FormatError::MissingField { tag: t }),
    }
}

/// The text of a required field.
pub open spec fn text_at(rs: Seq<Rec>, t: u16) -> Result<Seq<char>, FormatError> {
    match tlv::lookup(rs, t) {
        None => Err(FormatError::MissingField { tag: t }),
        Some(v) => if valid_utf8(v) {
            Ok(decode_utf8(v))
        } else {
            Err(FormatError::NotUtf8 { tag: t })
        },
    }
}

/// The value of a required field with a fixed length.
pub open spec fn exact_at(rs: Seq<Rec>, t: u16, len: nat) -> Result<Seq<u8>, FormatError> {
    match tlv::lookup(rs, t) {
        None => Err(FormatError::MissingField { tag: t }),
        Some(v) => if v.len() == len {
            Ok(v)
        } else {
            Err(FormatError::BadFieldLength { tag: t, len: v.len() as usize })
        },
    }
}

/// The record that the fields hold, before its rules are asked.
pub open spec fn record_in(rs: Seq<Rec>) -> Result<RecordView, FormatError> {
    let kem = exact_at(rs, tag::KEM, 1);
    let state = exact_at(rs, tag::STATE, 1);
    if kem is Err {
        Err(kem->Err_0)
    } else if KemAlg::numbered(kem->Ok_0[0]) is None {
        Err(FormatError::UnknownCriticalField { tag: tag::KEM })
    } else if state is Err {
        Err(state->Err_0)
    } else if state->Ok_0[0] > 1 {
        Err(FormatError::BadFieldLength { tag: tag::STATE, len: 1 })
    } else if value_at(rs, tag::FPR) is Err {
        Err(value_at(rs, tag::FPR)->Err_0)
    } else if text_at(rs, tag::TENANT) is Err {
        Err(text_at(rs, tag::TENANT)->Err_0)
    } else if text_at(rs, tag::NAME) is Err {
        Err(text_at(rs, tag::NAME)->Err_0)
    } else if value_at(rs, tag::PUBLIC) is Err {
        Err(value_at(rs, tag::PUBLIC)->Err_0)
    } else if exact_at(rs, tag::FPR, 32) is Err {
        Err(exact_at(rs, tag::FPR, 32)->Err_0)
    } else if exact_at(rs, tag::VERSION, 8) is Err {
        Err(exact_at(rs, tag::VERSION, 8)->Err_0)
    } else if text_at(rs, tag::ORIGIN) is Err {
        Err(text_at(rs, tag::ORIGIN)->Err_0)
    } else if exact_at(rs, tag::AT, 8) is Err {
        Err(exact_at(rs, tag::AT, 8)->Err_0)
    } else {
        Ok(
            RecordView {
                tenant: text_at(rs, tag::TENANT)->Ok_0,
                name: text_at(rs, tag::NAME)->Ok_0,
                kem: KemAlg::numbered(kem->Ok_0[0])->0,
                public: value_at(rs, tag::PUBLIC)->Ok_0,
                fpr: exact_at(rs, tag::FPR, 32)->Ok_0,
                version: bytes::num64(exact_at(rs, tag::VERSION, 8)->Ok_0),
                state: if state->Ok_0[0] == 0 {
                    KeyState::Active
                } else {
                    KeyState::Withdrawn
                },
                origin: text_at(rs, tag::ORIGIN)->Ok_0,
                at: bytes::num64s(exact_at(rs, tag::AT, 8)->Ok_0),
            },
        )
    }
}

/// The record that the bytes hold. `hashed` is the hash of the key in it, where
/// its mechanism asks for one. The fields that are known have one form only:
/// written anew they give the bytes without the optional fields.
pub open spec fn record_of(bytes: Seq<u8>, hashed: Option<Seq<u8>>) -> Result<
    RecordView,
    FormatError,
> {
    if bytes.len() > MAX_RECORD_LEN {
        Err(FormatError::BadFieldLength { tag: 0, len: bytes.len() as usize })
    } else {
        match placed(bytes) {
            Err(e) => Err(e),
            Ok(rs) => match record_in(rs) {
                Err(e) => Err(e),
                Ok(r) => match record_bytes(r, hashed) {
                    Err(e) => Err(e),
                    Ok(b) => if b == tlv::wire(unknown::critical(rs)) {
                        Ok(r)
                    } else {
                        Err(FormatError::BadFieldLength { tag: 0, len: bytes.len() as usize })
                    },
                },
            },
        }
    }
}

/// A record survives being written and read back.
pub proof fn record_round_trip(r: RecordView, hashed: Option<Seq<u8>>)
    requires
        r.fpr.len() == 32,
        record_bytes(r, hashed) is Ok,
    ensures
        record_of(record_bytes(r, hashed)->Ok_0, hashed) == Ok::<RecordView, FormatError>(r),
{
    broadcast use {
        tlv::group_records,
        bytes::group_numbers,
        encode_utf8_decode_utf8,
        encode_utf8_valid_utf8,
    };

    let rs = r.recs();
    tlv::scan_wire(rs);
    let e = Seq::<Rec>::empty();
    let r1 = e.push((tag::TENANT, encode_utf8(r.tenant)));
    let r2 = r1.push((tag::NAME, encode_utf8(r.name)));
    let r3 = r2.push((tag::KEM, seq![r.kem.number()]));
    let r4 = r3.push((tag::PUBLIC, r.public));
    let r5 = r4.push((tag::FPR, r.fpr));
    let r6 = r5.push((tag::VERSION, bytes::le64(r.version)));
    let r7 = r6.push((tag::STATE, seq![r.state.number()]));
    let r8 = r7.push((tag::ORIGIN, encode_utf8(r.origin)));
    let r9 = r8.push((tag::AT, bytes::le64s(r.at)));
    assert(rs == r9);
    assert(r1.drop_last() =~= e);
    assert(r2.drop_last() =~= r1);
    assert(r3.drop_last() =~= r2);
    assert(r4.drop_last() =~= r3);
    assert(r5.drop_last() =~= r4);
    assert(r6.drop_last() =~= r5);
    assert(r7.drop_last() =~= r6);
    assert(r8.drop_last() =~= r7);
    assert(r9.drop_last() =~= r8);
    assert(place_fault(e) is None);
    assert(place_fault(r1) is None);
    assert(place_fault(r2) is None);
    assert(place_fault(r3) is None);
    assert(place_fault(r4) is None);
    assert(place_fault(r5) is None);
    assert(place_fault(r6) is None);
    assert(place_fault(r7) is None);
    assert(place_fault(r8) is None);
    assert(place_fault(r9) is None);
    assert(unknown::critical(e) == e);
    assert(unknown::critical(r1) == r1);
    assert(unknown::critical(r2) == r2);
    assert(unknown::critical(r3) == r3);
    assert(unknown::critical(r4) == r4);
    assert(unknown::critical(r5) == r5);
    assert(unknown::critical(r6) == r6);
    assert(unknown::critical(r7) == r7);
    assert(unknown::critical(r8) == r8);
    assert(unknown::critical(r9) == r9);
}

/// A record that was read obeys every rule, and the fields that are known are
/// written to the bytes they were read from.
pub proof fn record_has_one_form(bytes: Seq<u8>, hashed: Option<Seq<u8>>)
    requires
        record_of(bytes, hashed) is Ok,
    ensures
        record_fault(record_of(bytes, hashed)->Ok_0, hashed) is None,
        record_bytes(record_of(bytes, hashed)->Ok_0, hashed) == Ok::<Seq<u8>, FormatError>(
            tlv::wire(unknown::critical(tlv::scan(bytes, None).0)),
        ),
{
}

/// An optional field that is not known changes nothing in the record that is read.
pub proof fn record_reads_past_optional_fields(bytes: Seq<u8>, hashed: Option<Seq<u8>>)
    requires
        record_of(bytes, hashed) is Ok,
    ensures
        record_of(unknown::without_optional(bytes), hashed) == record_of(bytes, hashed),
{
    record_has_one_form(bytes, hashed);
    record_round_trip(record_of(bytes, hashed)->Ok_0, hashed);
}

/// The fingerprint in a record of an X25519 key is the key itself.
pub proof fn record_of_an_x25519_key(bytes: Seq<u8>, hashed: Option<Seq<u8>>)
    requires
        record_of(bytes, hashed) is Ok,
        record_of(bytes, hashed)->Ok_0.kem == KemAlg::X25519HkdfSha256,
    ensures
        record_of(bytes, hashed)->Ok_0.fpr == record_of(bytes, hashed)->Ok_0.public,
{
}

/// The text of a required field.
fn text_field<'a>(fs: &Vec<Field<'a>>, t: u16) -> (r: Result<String, FormatError>)
    ensures
        tlv::agrees(r, text_at(tlv::records(fs@), t)),
{
    let v = need(fs, t)?;
    match text_of(v) {
        Some(s) => Ok(s),
        None => Err(FormatError::NotUtf8 { tag: t }),
    }
}

/// The value of a required field with a fixed length.
fn exact_field<'a>(fs: &Vec<Field<'a>>, t: u16, len: usize) -> (r: Result<&'a [u8], FormatError>)
    ensures
        match r {
            Ok(v) => exact_at(tlv::records(fs@), t, len as nat) == Ok::<Seq<u8>, FormatError>(v@),
            Err(e) => exact_at(tlv::records(fs@), t, len as nat) == Err::<Seq<u8>, FormatError>(e),
        },
{
    let v = need(fs, t)?;
    if v.len() == len {
        Ok(v)
    } else {
        Err(FormatError::BadFieldLength { tag: t, len: v.len() })
    }
}

/// The records of a directory record, each in its place.
fn read_placed<'a>(bytes: &'a [u8]) -> (r: Result<Vec<Field<'a>>, FormatError>)
    ensures
        match r {
            Ok(fs) => {
                &&& placed(bytes@) == Ok::<Seq<Rec>, FormatError>(tlv::records(fs@))
                &&& tlv::writable(tlv::records(fs@))
            },
            Err(e) => placed(bytes@) == Err::<Seq<Rec>, FormatError>(e),
        },
{
    let mut fs: Vec<Field<'a>> = Vec::new();
    let mut reader = TlvReader::new(bytes);
    let mut expected: u16 = tag::TENANT;
    assert(tlv::records(fs@) =~= Seq::<Rec>::empty());
    assert(tlv::scan(bytes@, None).0 =~= tlv::records(fs@) + reader@.0);
    loop
        invariant
            tlv::scan(bytes@, None).0 == tlv::records(fs@) + reader@.0,
            tlv::scan(bytes@, None).1 == reader@.1,
            place_fault(tlv::records(fs@)) is None,
            1 <= expected <= 10,
            expected == 1 + fs@.len()
                || (fs@.len() > 0 && tlv::records(fs@).last().0 > LAST_CRITICAL_TAG),
        decreases reader.left(),
    {
        let ghost done = tlv::records(fs@);
        match reader.next_field() {
            Ok(Some(f)) => {
                let ghost rec: Rec = (f.tag, f.value@);
                proof {
                    assert(done + (seq![rec] + reader@.0) =~= done.push(rec) + reader@.0);
                    assert(done.push(rec).drop_last() =~= done);
                    tlv::scan_ascends(bytes@);
                    let all = tlv::scan(bytes@, None).0;
                    assert(all[done.len() as int] == rec);
                    if done.len() > 0 {
                        assert(all[done.len() - 1] == done.last());
                        assert(all[done.len() - 1].0 < all[done.len() as int].0);
                    }
                }
                if f.tag <= LAST_CRITICAL_TAG {
                    if f.tag != expected || f.tag > tag::AT {
                        proof {
                            place_fault_prefix(done.push(rec), reader@.0);
                        }
                        return Err(FormatError::UnknownCriticalField { tag: f.tag });
                    }
                    expected = expected + 1;
                }
                fs.push(f);
                assert(tlv::records(fs@) =~= done.push(rec));
            },
            Ok(None) => {
                proof {
                    assert(done + Seq::<Rec>::empty() =~= done);
                    tlv::wire_scan(bytes@);
                }
                return Ok(fs);
            },
            Err(e) => {
                assert(done + Seq::<Rec>::empty() =~= done);
                return Err(e);
            },
        }
    }
}

/// A misplaced record among the first is the first of all.
proof fn place_fault_prefix(a: Seq<Rec>, b: Seq<Rec>)
    requires
        place_fault(a) is Some,
    ensures
        place_fault(a + b) == place_fault(a),
    decreases b.len(),
{
    if b.len() == 0 {
        assert(a + b =~= a);
    } else {
        place_fault_prefix(a, b.drop_last());
        assert((a + b).drop_last() =~= a + b.drop_last());
    }
}

impl Record {
    /// The first rule that the record breaks. `hashed` is the hash of its key,
    /// where the mechanism asks for one.
    fn check(&self, hashed: Option<[u8; 32]>) -> (r: Option<FormatError>)
        ensures
            r == record_fault(self@, bytes::opt_array(hashed)),
    {
        if let Some(e) = check_tenant(tag::TENANT, self.tenant.as_str()) {
            return Some(e);
        }
        if let Some(e) = check_phrase(tag::NAME, self.name.as_str(), MAX_NAME_CHARS) {
            return Some(e);
        }
        if let Some(e) = check_phrase(tag::ORIGIN, self.origin.as_str(), MAX_ORIGIN_CHARS) {
            return Some(e);
        }
        if self.version == 0 {
            return Some(bad(tag::VERSION, 0));
        }
        match device_fpr(self.kem, self.public.as_slice(), hashed) {
            None => Some(bad(tag::PUBLIC, self.public.len())),
            Some(p) => if same(p.as_slice(), self.fpr.as_slice()) {
                None
            } else {
                Some(bad(tag::FPR, self.fpr.len()))
            },
        }
    }

    /// A record of a key. `hashed` is the hash of the key, where its mechanism asks
    /// for one; a key without a fingerprint is refused.
    pub fn new(
        tenant: &str,
        name: &str,
        kem: KemAlg,
        public: &[u8],
        version: u64,
        state: KeyState,
        origin: &str,
        at: i64,
        hashed: Option<[u8; 32]>,
    ) -> (r: Result<Record, FormatError>)
        ensures
            tlv::agrees(
                r,
                new_record(
                    RecordView {
                        tenant: tenant@,
                        name: name@,
                        kem,
                        public: public@,
                        fpr: Seq::empty(),
                        version,
                        state,
                        origin: origin@,
                        at,
                    },
                    bytes::opt_array(hashed),
                ),
            ),
    {
        let fpr = match device_fpr(kem, public, hashed) {
            Some(fpr) => fpr,
            None => {
                return Err(bad(tag::PUBLIC, public.len()));
            },
        };
        let record = Record {
            tenant: tenant.to_owned(),
            name: name.to_owned(),
            kem,
            public: owned(public),
            fpr,
            version,
            state,
            origin: origin.to_owned(),
            at,
        };
        refuse(record.check(hashed))?;
        Ok(record)
    }

    /// Write the record.
    pub fn encode(&self, hashed: Option<[u8; 32]>) -> (r: Result<Vec<u8>, FormatError>)
        ensures
            tlv::agrees(r, record_bytes(self@, bytes::opt_array(hashed))),
    {
        broadcast use {tlv::group_records, bytes::group_numbers};

        refuse(self.check(hashed))?;
        let mut w = TlvWriter::new();
        w.put(tag::TENANT, self.tenant.as_str().as_bytes())?;
        w.put(tag::NAME, self.name.as_str().as_bytes())?;
        w.put(tag::KEM, one(self.kem.as_u8()).as_slice())?;
        w.put(tag::PUBLIC, self.public.as_slice())?;
        w.put(tag::FPR, self.fpr.as_slice())?;
        w.put(tag::VERSION, write64(self.version).as_slice())?;
        w.put(tag::STATE, one(self.state.as_u8()).as_slice())?;
        w.put(tag::ORIGIN, self.origin.as_str().as_bytes())?;
        w.put(tag::AT, write64s(self.at).as_slice())?;
        let out = w.finish();
        if out.len() > MAX_RECORD_LEN {
            return Err(bad(0, out.len()));
        }
        Ok(out)
    }

    /// Read a record. `hashed` is the hash of the key in it, where its mechanism
    /// asks for one; [`Record::key_in`] tells the key beforehand.
    pub fn decode(bytes: &[u8], hashed: Option<[u8; 32]>) -> (r: Result<Record, FormatError>)
        ensures
            tlv::agrees(r, record_of(bytes@, bytes::opt_array(hashed))),
    {
        if bytes.len() > MAX_RECORD_LEN {
            return Err(bad(0, bytes.len()));
        }
        let fs = read_placed(bytes)?;
        let kem = match KemAlg::from_u8(exact_field(&fs, tag::KEM, 1)?[0]) {
            Some(kem) => kem,
            None => {
                return Err(FormatError::UnknownCriticalField { tag: tag::KEM });
            },
        };
        let state = match exact_field(&fs, tag::STATE, 1)?[0] {
            0 => KeyState::Active,
            1 => KeyState::Withdrawn,
            _ => {
                return Err(bad(tag::STATE, 1));
            },
        };
        let _ = need(&fs, tag::FPR)?;
        let tenant = text_field(&fs, tag::TENANT)?;
        let name = text_field(&fs, tag::NAME)?;
        let public = owned(need(&fs, tag::PUBLIC)?);
        let fpr = array(exact_field(&fs, tag::FPR, 32)?);
        let version = read64(exact_field(&fs, tag::VERSION, 8)?);
        let origin = text_field(&fs, tag::ORIGIN)?;
        let at = read64s(exact_field(&fs, tag::AT, 8)?);
        let record = Record { tenant, name, kem, public, fpr, version, state, origin, at };
        let written = record.encode(hashed)?;
        if !same(written.as_slice(), strip(&fs).as_slice()) {
            return Err(bad(0, bytes.len()));
        }
        Ok(record)
    }

    /// What is hashed of the bytes of a record to the leaf of the directory's tree.
    pub fn leaf_transcript(bytes: &[u8]) -> (r: Transcript)
        ensures
            r@ == (TranscriptView { label: Label::DirectoryEntry, body: bytes@ }),
    {
        Transcript::new(Label::DirectoryEntry, bytes)
    }

    /// The number of the mechanism and the public key in the bytes of a record,
    /// where their fields can be told: what a hash of the key is computed from.
    pub fn key_in(bytes: &[u8]) -> (r: Option<(u8, Vec<u8>)>)
        ensures
            match r {
                Some((kem, public)) => {
                    &&& placed(bytes@) is Ok
                    &&& exact_at(placed(bytes@)->Ok_0, tag::KEM, 1) == Ok::<Seq<u8>, FormatError>(
                        seq![kem],
                    )
                    &&& tlv::lookup(placed(bytes@)->Ok_0, tag::PUBLIC) == Some(public@)
                },
                None => placed(bytes@) is Err || exact_at(placed(bytes@)->Ok_0, tag::KEM, 1) is Err
                    || tlv::lookup(placed(bytes@)->Ok_0, tag::PUBLIC) is None,
            },
    {
        match read_placed(bytes) {
            Err(_) => None,
            Ok(fs) => match (exact_field(&fs, tag::KEM, 1), find(&fs, tag::PUBLIC)) {
                (Ok(kem), Some(public)) => {
                    assert(kem@ =~= seq![kem@[0]]);
                    Some((kem[0], owned(public)))
                },
                _ => None,
            },
        }
    }
}

/// The record of a key, with the fingerprint that the key has.
pub open spec fn new_record(r: RecordView, hashed: Option<Seq<u8>>) -> Result<
    RecordView,
    FormatError,
> {
    match kem::key_print(r.kem, r.public, hashed) {
        None => Err(FormatError::BadFieldLength { tag: tag::PUBLIC, len: r.public.len() as usize }),
        Some(p) => {
            let full = RecordView { fpr: p, ..r };
            match record_fault(full, hashed) {
                Some(e) => Err(e),
                None => Ok(full),
            }
        },
    }
}

/// The bytes of a request to look a member up: both names behind their lengths,
/// and the size of the log that the asker knows.
pub open spec fn lookup_request_bytes(tenant: Seq<char>, name: Seq<char>, size: u64) -> Result<
    Seq<u8>,
    FormatError,
> {
    let t = encode_utf8(tenant);
    let n = encode_utf8(name);
    match tlv::or_else(
        text::tenant_fault(tag::TENANT, tenant),
        text::phrase_fault(tag::NAME, name, MAX_NAME_CHARS as nat),
    ) {
        Some(e) => Err(e),
        None => if n.len() > u16::MAX {
            Err(FormatError::BadFieldLength { tag: tag::NAME, len: n.len() as usize })
        } else {
            Ok(seq![t.len() as u8] + t + bytes::le16(n.len() as u16) + n + bytes::le64(size))
        },
    }
}

/// The request to look a member up that the bytes hold.
pub open spec fn lookup_request_of(bytes: Seq<u8>) -> Result<
    (Seq<char>, Seq<char>, u64),
    FormatError,
> {
    let whole = FormatError::BadFieldLength { tag: 0, len: bytes.len() as usize };
    if bytes.len() < 1 || bytes.len() < 3 + bytes[0] {
        Err(whole)
    } else {
        let t = bytes[0] as int;
        let n = bytes::num16(bytes.subrange(1 + t, 3 + t)) as int;
        if bytes.len() != 3 + t + n + 8 {
            Err(whole)
        } else {
            let tenant = bytes.subrange(1, 1 + t);
            let name = bytes.subrange(3 + t, 3 + t + n);
            if !valid_utf8(tenant) {
                Err(FormatError::NotUtf8 { tag: tag::TENANT })
            } else if !valid_utf8(name) {
                Err(FormatError::NotUtf8 { tag: tag::NAME })
            } else {
                match tlv::or_else(
                    text::tenant_fault(tag::TENANT, decode_utf8(tenant)),
                    text::phrase_fault(tag::NAME, decode_utf8(name), MAX_NAME_CHARS as nat),
                ) {
                    Some(e) => Err(e),
                    None => Ok(
                        (
                            decode_utf8(tenant),
                            decode_utf8(name),
                            bytes::num64(bytes.subrange(3 + t + n, bytes.len() as int)),
                        ),
                    ),
                }
            }
        }
    }
}

/// A request to look a member up survives being written and read back.
pub proof fn lookup_request_round_trip(tenant: Seq<char>, name: Seq<char>, size: u64)
    requires
        lookup_request_bytes(tenant, name, size) is Ok,
    ensures
        lookup_request_of(lookup_request_bytes(tenant, name, size)->Ok_0) == Ok::<
            (Seq<char>, Seq<char>, u64),
            FormatError,
        >((tenant, name, size)),
{
    broadcast use {bytes::group_numbers, encode_utf8_decode_utf8, encode_utf8_valid_utf8};

    let t = encode_utf8(tenant);
    let n = encode_utf8(name);
    let b = lookup_request_bytes(tenant, name, size)->Ok_0;
    let i = t.len() as int;
    let j = n.len() as int;
    assert(b[0] == t.len() as u8);
    assert(b.subrange(1, 1 + i) =~= t);
    assert(b.subrange(1 + i, 3 + i) =~= bytes::le16(n.len() as u16));
    assert(b.subrange(3 + i, 3 + i + j) =~= n);
    assert(b.subrange(3 + i + j, b.len() as int) =~= bytes::le64(size));
}

/// Write a request to look a member up.
pub fn encode_lookup_request(tenant: &str, name: &str, size: u64) -> (r: Result<
    Vec<u8>,
    FormatError,
>)
    ensures
        tlv::agrees(r, lookup_request_bytes(tenant@, name@, size)),
{
    refuse(check_tenant(tag::TENANT, tenant))?;
    refuse(check_phrase(tag::NAME, name, MAX_NAME_CHARS))?;
    let name_len: usize = byte_len(name);
    if name_len > 0xFFFF {
        return Err(bad(tag::NAME, name_len));
    }
    let mut out = one(byte_len(tenant) as u8);
    append(&mut out, tenant.as_bytes());
    append(&mut out, write16(name_len as u16).as_slice());
    append(&mut out, name.as_bytes());
    append(&mut out, write64(size).as_slice());
    Ok(out)
}

/// Read a request to look a member up.
pub fn decode_lookup_request(bytes: &[u8]) -> (r: Result<(String, String, u64), FormatError>)
    ensures
        match r {
            Ok((t, n, s)) => lookup_request_of(bytes@) == Ok::<
                (Seq<char>, Seq<char>, u64),
                FormatError,
            >((t@, n@, s)),
            Err(e) => lookup_request_of(bytes@) == Err::<(Seq<char>, Seq<char>, u64), FormatError>(
                e,
            ),
        },
{
    let whole = bad(0, bytes.len());
    if bytes.len() < 1 {
        return Err(whole);
    }
    let t: usize = bytes[0] as usize;
    if bytes.len() < 3 + t {
        return Err(whole);
    }
    let n: usize = read16(part(bytes, 1 + t, 3 + t)) as usize;
    if bytes.len() - 3 - t < n || bytes.len() - 3 - t - n != 8 {
        return Err(whole);
    }
    let tenant = match text_of(part(bytes, 1, 1 + t)) {
        Some(s) => s,
        None => {
            return Err(FormatError::NotUtf8 { tag: tag::TENANT });
        },
    };
    let name = match text_of(part(bytes, 3 + t, 3 + t + n)) {
        Some(s) => s,
        None => {
            return Err(FormatError::NotUtf8 { tag: tag::NAME });
        },
    };
    refuse(check_tenant(tag::TENANT, tenant.as_str()))?;
    refuse(check_phrase(tag::NAME, name.as_str(), MAX_NAME_CHARS))?;
    Ok((tenant, name, read64(part(bytes, 3 + t + n, bytes.len()))))
}

/// The server's answer: a record, and the proof that a signed head includes it.
#[derive(Debug, Clone, PartialEq, Eq)]
pub struct Lookup {
    pub head: SignedHead,
    pub index: u64,
    pub record: Vec<u8>,
    pub path: Vec<[u8; 32]>,
}

/// What an answer says.
pub struct LookupView {
    pub head: HeadView,
    pub index: u64,
    pub record: Seq<u8>,
    pub path: Seq<Seq<u8>>,
}

impl View for Lookup {
    type V = LookupView;

    open spec fn view(&self) -> LookupView {
        LookupView {
            head: self.head@,
            index: self.index,
            record: self.record@,
            path: bytes::arrays(self.path@),
        }
    }
}

/// The bytes of an answer.
pub open spec fn lookup_bytes(l: LookupView) -> Result<Seq<u8>, FormatError> {
    if l.record.len() > MAX_RECORD_LEN || l.path.len() > MAX_INCLUSION_PATH {
        Err(FormatError::BadFieldLength { tag: 0, len: l.record.len() as usize })
    } else {
        Ok(
            witness::head_bytes(l.head) + bytes::le64(l.index) + bytes::le32(l.record.len() as u32)
                + l.record + bytes::joined(
                l.path,
            ),
        )
    }
}

/// The answer that the bytes hold.
pub open spec fn lookup_of(bytes: Seq<u8>) -> Result<LookupView, FormatError> {
    let whole = FormatError::BadFieldLength { tag: 0, len: bytes.len() as usize };
    if bytes.len() < SIGNED_HEAD_LEN + 12 {
        Err(whole)
    } else {
        let len = bytes::num32(bytes.subrange(SIGNED_HEAD_LEN + 8, SIGNED_HEAD_LEN + 12)) as int;
        let at = SIGNED_HEAD_LEN + 12;
        if len == 0 || len > MAX_RECORD_LEN || bytes.len() < at + len {
            Err(whole)
        } else {
            let path = bytes.skip(at + len);
            if path.len() % 32 != 0 || path.len() / 32 > MAX_INCLUSION_PATH {
                Err(whole)
            } else {
                match witness::head_of(bytes.subrange(0, SIGNED_HEAD_LEN as int)) {
                    Err(e) => Err(e),
                    Ok(head) => Ok(
                        LookupView {
                            head,
                            index: bytes::num64(
                                bytes.subrange(SIGNED_HEAD_LEN as int, SIGNED_HEAD_LEN + 8),
                            ),
                            record: bytes.subrange(at, at + len),
                            path: bytes::chunks(path, 32),
                        },
                    ),
                }
            }
        }
    }
}

/// An answer with a record survives being written and read back.
pub proof fn lookup_round_trip(l: LookupView)
    requires
        l.head.sized(),
        l.record.len() > 0,
        bytes::all_sized(l.path, 32),
        lookup_bytes(l) is Ok,
    ensures
        lookup_of(lookup_bytes(l)->Ok_0) == Ok::<LookupView, FormatError>(l),
{
    broadcast use bytes::group_numbers;

    let b = lookup_bytes(l)->Ok_0;
    let at = SIGNED_HEAD_LEN + 12;
    let n = l.record.len();
    witness::head_round_trip(l.head);
    bytes::chunks_of_joined(l.path, 32);
    assert(b.subrange(0, SIGNED_HEAD_LEN as int) =~= witness::head_bytes(l.head));
    assert(b.subrange(SIGNED_HEAD_LEN as int, SIGNED_HEAD_LEN + 8) =~= bytes::le64(l.index));
    assert(b.subrange(SIGNED_HEAD_LEN + 8, SIGNED_HEAD_LEN + 12) =~= bytes::le32(n as u32));
    assert(b.subrange(at, at + n) =~= l.record);
    assert(b.skip(at + n) =~= bytes::joined(l.path));
}

/// An answer that is accepted has a record.
pub proof fn accepted_lookup_has_a_record(l: LookupView)
    requires
        l.head.sized(),
        lookup_bytes(l) is Ok,
        lookup_of(lookup_bytes(l)->Ok_0) is Ok,
    ensures
        l.record.len() > 0,
{
    broadcast use bytes::group_numbers;

    let b = lookup_bytes(l)->Ok_0;
    witness::head_round_trip(l.head);
    assert(b.subrange(SIGNED_HEAD_LEN + 8, SIGNED_HEAD_LEN + 12) =~= bytes::le32(
        l.record.len() as u32,
    ));
}

/// Why an answer does not prove the record that was asked for.
#[derive(Debug, Clone, Copy, PartialEq, Eq, Structural)]
pub enum LookupError {
    /// The head is not signed by this server.
    ServerSignature,
    /// The record is not read.
    Malformed,
    /// The record is about somebody else.
    OtherEntry,
    /// The head does not include the record.
    NotIncluded,
}

impl LookupError {
    /// The reason in words.
    pub open spec fn says(self) -> Seq<char> {
        match self {
            LookupError::ServerSignature => "голова каталога подписана не этим сервером"@,
            LookupError::Malformed => "запись каталога не разбирается"@,
            LookupError::OtherEntry =>
                "сервер ответил записью о ДРУГОЙ организации или другом участнике"@,
            LookupError::NotIncluded =>
                "запись не входит в голову, которой сервер её подтверждает"@,
        }
    }

    /// The reason in words.
    pub fn text(&self) -> (r: String)
        ensures
            r@ == self.says(),
    {
        let s = match self {
            LookupError::ServerSignature => "голова каталога подписана не этим сервером",
            LookupError::Malformed => "запись каталога не разбирается",
            LookupError::OtherEntry =>
                "сервер ответил записью о ДРУГОЙ организации или другом участнике",
            LookupError::NotIncluded =>
                "запись не входит в голову, которой сервер её подтверждает",
        };
        s.to_owned()
    }
}

/// The record that an answer proves. `signed` says whether the server signed the
/// head of the directory, `included` whether the path leads from the record to
/// the head's root, `hashed` is the hash of the key in the record.
pub open spec fn proven_record(
    l: LookupView,
    signed: bool,
    included: bool,
    hashed: Option<Seq<u8>>,
    tenant: Seq<char>,
    name: Seq<char>,
) -> Result<RecordView, LookupError> {
    if !signed {
        Err(LookupError::ServerSignature)
    } else if l.index > u32::MAX || l.head.size > u32::MAX || !included {
        Err(LookupError::NotIncluded)
    } else {
        match record_of(l.record, hashed) {
            Err(_) => Err(LookupError::Malformed),
            Ok(r) => if r.tenant == tenant && r.name == name {
                Ok(r)
            } else {
                Err(LookupError::OtherEntry)
            },
        }
    }
}

impl Lookup {
    /// Write the answer.
    pub fn encode(&self) -> (r: Result<Vec<u8>, FormatError>)
        ensures
            tlv::agrees(r, lookup_bytes(self@)),
    {
        if self.record.len() > MAX_RECORD_LEN || self.path.len() > MAX_INCLUSION_PATH {
            return Err(bad(0, self.record.len()));
        }
        let mut out = self.head.encode();
        append(&mut out, write64(self.index).as_slice());
        append(&mut out, write32(self.record.len() as u32).as_slice());
        append(&mut out, self.record.as_slice());
        append(&mut out, join_arrays(&self.path).as_slice());
        Ok(out)
    }

    /// Read an answer.
    pub fn decode(bytes: &[u8]) -> (r: Result<Lookup, FormatError>)
        ensures
            tlv::agrees(r, lookup_of(bytes@)),
    {
        let whole = bad(0, bytes.len());
        if bytes.len() < SIGNED_HEAD_LEN + 12 {
            return Err(whole);
        }
        let index: u64 = read64(part(bytes, SIGNED_HEAD_LEN, SIGNED_HEAD_LEN + 8));
        let declared: u32 = read32(part(bytes, SIGNED_HEAD_LEN + 8, SIGNED_HEAD_LEN + 12));
        if declared == 0 || declared > MAX_RECORD_LEN as u32 {
            return Err(whole);
        }
        let len: usize = declared as usize;
        let at: usize = SIGNED_HEAD_LEN + 12;
        if bytes.len() - at < len {
            return Err(whole);
        }
        let path = part(bytes, at + len, bytes.len());
        assert(path@ =~= bytes@.skip(at + len));
        if path.len() % 32 != 0 || path.len() / 32 > MAX_INCLUSION_PATH {
            return Err(whole);
        }
        Ok(
            Lookup {
                head: SignedHead::decode(part(bytes, 0, SIGNED_HEAD_LEN))?,
                index,
                record: owned(part(bytes, at, at + len)),
                path: split_arrays(path),
            },
        )
    }

    /// The record that the answer proves about the member who was asked for.
    pub fn verify(
        &self,
        signed: bool,
        included: bool,
        hashed: Option<[u8; 32]>,
        tenant: &str,
        name: &str,
    ) -> (r: Result<Record, LookupError>)
        ensures
            tlv::agrees(
                r,
                proven_record(self@, signed, included, bytes::opt_array(hashed), tenant@, name@),
            ),
    {
        if !signed {
            return Err(LookupError::ServerSignature);
        }
        if self.index > 0xFFFF_FFFF || self.head.size > 0xFFFF_FFFF || !included {
            return Err(LookupError::NotIncluded);
        }
        match Record::decode(self.record.as_slice(), hashed) {
            Err(_) => Err(LookupError::Malformed),
            Ok(record) => {
                if same_text(record.tenant.as_str(), tenant) && same_text(
                    record.name.as_str(),
                    name,
                ) {
                    Ok(record)
                } else {
                    Err(LookupError::OtherEntry)
                }
            },
        }
    }
}

/// The hash of the key in the record with an index, where the caller gave one.
pub open spec fn print_at(prints: Seq<Option<[u8; 32]>>, i: nat) -> Option<Seq<u8>> {
    if i < prints.len() {
        bytes::opt_array(prints[i as int])
    } else {
        None
    }
}

/// The first record of a page that is empty or too long.
pub open spec fn page_fault(ps: Seq<Seq<u8>>) -> Option<FormatError>
    decreases ps.len(),
{
    if ps.len() == 0 {
        None
    } else {
        tlv::or_else(
            tlv::bounded_fault(0, ps[0], MAX_RECORD_LEN as nat),
            page_fault(ps.drop_first()),
        )
    }
}

/// The bytes of a page: every record behind its length.
pub open spec fn page_bytes(ps: Seq<Seq<u8>>) -> Result<Seq<u8>, FormatError> {
    if ps.len() > MAX_PAGE {
        Err(FormatError::BadFieldLength { tag: 0, len: ps.len() as usize })
    } else {
        match page_fault(ps) {
            Some(e) => Err(e),
            None => Ok(bytes::framed(ps)),
        }
    }
}

/// The records in the bytes behind `taken` others of a page.
pub open spec fn page_behind(bytes: Seq<u8>, taken: nat, prints: Seq<Option<[u8; 32]>>) -> Result<
    Seq<Seq<u8>>,
    FormatError,
>
    decreases bytes.len(),
{
    if bytes.len() == 0 {
        Ok(Seq::empty())
    } else if bytes.len() < 4 {
        Err(FormatError::BadFieldLength { tag: 0, len: bytes.len() as usize })
    } else {
        let len = bytes::num32(bytes.subrange(0, 4)) as int;
        if bytes.len() - 4 < len {
            Err(FormatError::BadFieldLength { tag: 0, len: (bytes.len() - 4) as usize })
        } else {
            let record = bytes.subrange(4, 4 + len);
            match record_of(record, print_at(prints, taken)) {
                Err(e) => Err(e),
                Ok(_) => if taken + 1 > MAX_PAGE {
                    Err(FormatError::BadFieldLength { tag: 0, len: (taken + 1) as usize })
                } else {
                    match page_behind(bytes.skip(4 + len), taken + 1, prints) {
                        Err(e) => Err(e),
                        Ok(rest) => Ok(seq![record] + rest),
                    }
                },
            }
        }
    }
}

proof fn page_behind_round_trip(ps: Seq<Seq<u8>>, taken: nat, prints: Seq<Option<[u8; 32]>>)
    requires
        taken + ps.len() <= MAX_PAGE,
        page_fault(ps) is None,
        forall|i: int|
            0 <= i < ps.len()
                ==> record_of(#[trigger] ps[i], print_at(prints, (taken + i) as nat)) is Ok,
    ensures
        page_behind(bytes::framed(ps), taken, prints) == Ok::<Seq<Seq<u8>>, FormatError>(ps),
    decreases ps.len(),
{
    if ps.len() > 0 {
        bytes::framed_first(ps);
        let rest = ps.drop_first();
        assert(record_of(ps[0], print_at(prints, (taken + 0) as nat)) is Ok);
        assert forall|i: int| 0 <= i < rest.len() implies record_of(
            #[trigger] rest[i],
            print_at(prints, (taken + 1 + i) as nat),
        ) is Ok by {
            assert(rest[i] == ps[i + 1]);
            assert(record_of(ps[i + 1], print_at(prints, (taken + (i + 1)) as nat)) is Ok);
        }
        page_behind_round_trip(rest, taken + 1, prints);
        assert(seq![ps[0]] + rest =~= ps);
    } else {
        assert(ps =~= Seq::empty());
    }
}

proof fn accepted_page_behind_is_readable(
    ps: Seq<Seq<u8>>,
    taken: nat,
    prints: Seq<Option<[u8; 32]>>,
    i: int,
)
    requires
        page_fault(ps) is None,
        page_behind(bytes::framed(ps), taken, prints) is Ok,
        0 <= i < ps.len(),
    ensures
        record_of(ps[i], print_at(prints, (taken + i) as nat)) is Ok,
    decreases ps.len(),
{
    bytes::framed_first(ps);
    if i > 0 {
        accepted_page_behind_is_readable(ps.drop_first(), taken + 1, prints, i - 1);
    }
}

/// Every record of a page that is accepted can be read.
pub proof fn accepted_page_is_readable(ps: Seq<Seq<u8>>, prints: Seq<Option<[u8; 32]>>)
    requires
        page_bytes(ps) is Ok,
        page_behind(page_bytes(ps)->Ok_0, 0, prints) is Ok,
    ensures
        forall|i: int|
            0 <= i < ps.len() ==> record_of(#[trigger] ps[i], print_at(prints, i as nat)) is Ok,
{
    assert forall|i: int| 0 <= i < ps.len() implies record_of(
        #[trigger] ps[i],
        print_at(prints, i as nat),
    ) is Ok by {
        accepted_page_behind_is_readable(ps, 0, prints, i);
    }
}

/// A page of records, each of which can be read, survives being written and read
/// back.
pub proof fn page_round_trip(ps: Seq<Seq<u8>>, prints: Seq<Option<[u8; 32]>>)
    requires
        page_bytes(ps) is Ok,
        forall|i: int| 0 <= i < ps.len()
            ==> record_of(#[trigger] ps[i], print_at(prints, i as nat)) is Ok,
    ensures
        page_behind(page_bytes(ps)->Ok_0, 0, prints) == Ok::<Seq<Seq<u8>>, FormatError>(ps),
{
    assert forall|i: int| 0 <= i < ps.len() implies record_of(
        #[trigger] ps[i],
        print_at(prints, (0 + i) as nat),
    ) is Ok by {
        assert(record_of(ps[i], print_at(prints, i as nat)) is Ok);
    }
    page_behind_round_trip(ps, 0, prints);
}

/// Write a page of records.
pub fn encode_page(records: &Vec<Vec<u8>>) -> (r: Result<Vec<u8>, FormatError>)
    ensures
        tlv::agrees(r, page_bytes(bytes::blobs(records@))),
{
    if records.len() > MAX_PAGE as usize {
        return Err(bad(0, records.len()));
    }
    let ghost all = bytes::blobs(records@);
    let mut out: Vec<u8> = Vec::new();
    let mut i: usize = 0;
    assert(all.skip(0) =~= all);
    assert(out@ + bytes::framed(all) =~= bytes::framed(all));
    while i < records.len()
        invariant
            i <= records@.len() <= MAX_PAGE,
            all == bytes::blobs(records@),
            page_fault(all) == page_fault(all.skip(i as int)),
            out@ + bytes::framed(all.skip(i as int)) == bytes::framed(all),
        decreases records@.len() - i,
    {
        let ghost done = out@;
        let ghost rest = all.skip(i as int);
        assert(rest.drop_first() =~= all.skip(i as int + 1));
        assert(rest[0] == records@[i as int]@);
        refuse(check_bounded(0, records[i].as_slice(), MAX_RECORD_LEN))?;
        append(&mut out, write32(records[i].len() as u32).as_slice());
        append(&mut out, records[i].as_slice());
        assert(out@ + bytes::framed(rest.drop_first()) =~= done + bytes::framed(rest));
        i = i + 1;
    }
    assert(out@ + Seq::<u8>::empty() =~= out@);
    Ok(out)
}

/// The records of a page as far as they can be told apart.
pub open spec fn page_parts_of(bytes: Seq<u8>) -> Seq<Seq<u8>>
    decreases bytes.len(),
{
    if bytes.len() < 4 || bytes.len() - 4 < bytes::num32(bytes.subrange(0, 4)) {
        Seq::empty()
    } else {
        let len = bytes::num32(bytes.subrange(0, 4)) as int;
        seq![bytes.subrange(4, 4 + len)] + page_parts_of(bytes.skip(4 + len))
    }
}

/// The records of a page as far as they can be told apart: what the keys are taken from
/// ([`Record::key_in`]) whose hashes reading the page asks for.
pub fn page_parts(bytes: &[u8]) -> (r: Vec<Vec<u8>>)
    ensures
        bytes::blobs(r@) == page_parts_of(bytes@),
{
    let mut out: Vec<Vec<u8>> = Vec::new();
    let mut rest: &[u8] = bytes;
    assert(bytes::blobs(out@) + page_parts_of(bytes@) =~= page_parts_of(bytes@));
    while rest.len() >= 4
        invariant
            page_parts_of(bytes@) == bytes::blobs(out@) + page_parts_of(rest@),
        decreases rest@.len(),
    {
        let head = part(rest, 0, 4);
        assert(head@ =~= rest@.subrange(0, 4));
        let len: u32 = read32(head);
        if ((rest.len() - 4) as u64) < len as u64 {
            assert(bytes::blobs(out@) + Seq::<Seq<u8>>::empty() =~= bytes::blobs(out@));
            return out;
        }
        let end: usize = 4 + len as usize;
        let record = part(rest, 4, end);
        let ghost prior = bytes::blobs(out@);
        let ghost whole = rest@;
        out.push(owned(record));
        rest = part(rest, end, rest.len());
        proof {
            assert(rest@ =~= whole.skip(4 + len));
            assert(bytes::blobs(out@) =~= prior.push(record@));
            assert(prior + (seq![record@] + page_parts_of(rest@)) =~= bytes::blobs(out@)
                + page_parts_of(rest@));
        }
    }
    assert(bytes::blobs(out@) + Seq::<Seq<u8>>::empty() =~= bytes::blobs(out@));
    out
}

/// A page that is read holds the records that could be told apart beforehand, each at its
/// index: the hash that was computed for it is the one it is held against.
pub proof fn page_is_read_in_parts(bytes: Seq<u8>, taken: nat, prints: Seq<Option<[u8; 32]>>)
    requires
        page_behind(bytes, taken, prints) is Ok,
    ensures
        page_behind(bytes, taken, prints)->Ok_0 == page_parts_of(bytes),
    decreases bytes.len(),
{
    if bytes.len() > 0 {
        let len = bytes::num32(bytes.subrange(0, 4)) as int;
        page_is_read_in_parts(bytes.skip(4 + len), taken + 1, prints);
    }
}

/// Read a page of records. `prints` holds the hashes of the keys in them, in
/// their order, where their mechanisms ask for one.
pub fn decode_page(bytes: &[u8], prints: &[Option<[u8; 32]>]) -> (r: Result<
    Vec<Vec<u8>>,
    FormatError,
>)
    ensures
        match r {
            Ok(ps) => page_behind(bytes@, 0, prints@)
                == Ok::<Seq<Seq<u8>>, FormatError>(bytes::blobs(ps@)),
            Err(e) => page_behind(bytes@, 0, prints@) == Err::<Seq<Seq<u8>>, FormatError>(e),
        },
{
    let mut out: Vec<Vec<u8>> = Vec::new();
    let mut rest: &[u8] = bytes;
    proof {
        if page_behind(bytes@, 0, prints@) is Ok {
            let all = page_behind(bytes@, 0, prints@)->Ok_0;
            assert(bytes::blobs(out@) + all =~= all);
        }
    }
    while rest.len() > 0
        invariant
            out@.len() <= MAX_PAGE,
            page_behind(bytes@, 0, prints@) == match page_behind(rest@, out@.len(), prints@) {
                Err(e) => Err::<Seq<Seq<u8>>, FormatError>(e),
                Ok(tail) => Ok::<Seq<Seq<u8>>, FormatError>(bytes::blobs(out@) + tail),
            },
        decreases rest@.len(),
    {
        if rest.len() < 4 {
            return Err(bad(0, rest.len()));
        }
        let len: u32 = read32(part(rest, 0, 4));
        if ((rest.len() - 4) as u64) < len as u64 {
            return Err(bad(0, rest.len() - 4));
        }
        let end: usize = 4 + len as usize;
        let record = part(rest, 4, end);
        let hashed = if out.len() < prints.len() {
            prints[out.len()]
        } else {
            None
        };
        let _ = Record::decode(record, hashed)?;
        if out.len() + 1 > MAX_PAGE as usize {
            return Err(bad(0, out.len() + 1));
        }
        let ghost before = out@;
        let ghost whole = rest@;
        out.push(owned(record));
        rest = part(rest, end, rest.len());
        proof {
            assert(rest@ =~= whole.skip(4 + len));
            assert(bytes::blobs(out@) =~= bytes::blobs(before).push(record@));
            if page_behind(rest@, out@.len(), prints@) is Ok {
                let tail = page_behind(rest@, out@.len(), prints@)->Ok_0;
                assert(bytes::blobs(before) + (seq![record@] + tail) =~= bytes::blobs(out@) + tail);
            }
        }
    }
    assert(bytes::blobs(out@) + Seq::<Seq<u8>>::empty() =~= bytes::blobs(out@));
    Ok(out)
}

} // verus!
