//! Grants for agents, delegations, and the chain that they form.
//!
//! A grant binds a door, a set of files, an expiry and a depth of delegation. The
//! body of a document is read only where its signature holds. The caller brings
//! the author's key: a key that a submitted grant names gives it no authority.
//!
//! A tightening is a policy in the form of its own codec. Here it is carried as
//! bytes; what the codec says of them is told by the caller.

use crate::access::{Blob, BlobView};
use crate::action::{
    self, check_each_rule, check_rules, decode_rules, encode_rules, narrower, split_signature,
    with_signature, ActionKind, ActionRefusal, ActionRule, ArgsView, MAX_ACTION_RULES, RuleView,
};
use crate::bytes::{self, array, is_before, one, owned, read64s, same, write64s};
use crate::error::{bad, FormatError};
use crate::text::{self, decimal};
use crate::tlv::{
    self, check_length, find, need, read_fields, refuse, value_in, Rec, Schema, TlvReader,
    TlvWriter,
};
use crate::transcript::{self, Claim, Label, Transcript, TranscriptView};
use crate::unknown::{self, unknown_verdict};
use vstd::prelude::*;
use vstd::string::*;

pub mod entry_tag;
pub mod laws;
pub mod link_tag;
pub mod tag;

verus! {

/// The length of a signature.
pub const SIGNATURE_LEN: usize = 64;

/// The most files in a grant.
pub const MAX_GRANT_FILES: usize = 256;

/// The greatest depth of delegation.
pub const MAX_GRANT_DEPTH: u8 = 4;

/// The only mechanism that the key of a door can have.
pub const DOOR_KEM_X25519: u8 = 1;

/// A file of a grant, with the share sealed to its holder.
#[derive(Debug, Clone, PartialEq, Eq)]
pub struct Entry {
    pub file_id: [u8; 16],
    pub share_b: Blob,
}

/// What an entry holds.
pub struct EntryView {
    pub file_id: Seq<u8>,
    pub share_b: BlobView,
}

impl View for Entry {
    type V = EntryView;

    open spec fn view(&self) -> EntryView {
        EntryView {
            file_id: self.file_id@,
            share_b: self.share_b@,
        }
    }
}

/// What several entries hold.
pub open spec fn entry_views(es: Seq<Entry>) -> Seq<EntryView> {
    es.map_values(|e: Entry| e@)
}

/// The files that entries name.
pub open spec fn files_of(es: Seq<EntryView>) -> Seq<Seq<u8>> {
    es.map_values(|e: EntryView| e.file_id)
}

impl EntryView {
    /// The fields of fixed length have it.
    pub open spec fn sized(self) -> bool {
        self.file_id.len() == 16 && self.share_b.nonce.len() == 24
    }

    /// The records of the entry.
    pub open spec fn recs(self) -> Seq<Rec> {
        let rs = Seq::<Rec>::empty();
        let rs = rs.push((entry_tag::FILE_ID, self.file_id));
        let rs = rs.push((entry_tag::ENC, self.share_b.enc));
        let rs = rs.push((entry_tag::NONCE, self.share_b.nonce));
        let rs = rs.push((entry_tag::CT, self.share_b.ct));
        rs
    }
}

/// The rule for the fields of an entry.
pub struct EntrySchema;

impl Schema for EntrySchema {
    open spec fn fault(&self, tag: u16, value: Seq<u8>) -> Option<FormatError> {
        if tag == entry_tag::FILE_ID {
            tlv::length_fault(tag, value, 16)
        } else if tag == entry_tag::ENC || tag == entry_tag::CT {
            None
        } else if tag == entry_tag::NONCE {
            tlv::length_fault(tag, value, 24)
        } else {
            unknown::unknown_fault(tag)
        }
    }

    fn check(&self, tag: u16, value: &[u8]) -> (r: Option<FormatError>) {
        if tag == entry_tag::FILE_ID {
            check_length(tag, value, 16)
        } else if tag == entry_tag::ENC || tag == entry_tag::CT {
            None
        } else if tag == entry_tag::NONCE {
            check_length(tag, value, 24)
        } else {
            unknown_verdict(tag)
        }
    }
}

/// The entry that the records hold, or the first field that is absent.
pub open spec fn entry_in(rs: Seq<Rec>) -> Result<EntryView, FormatError> {
    if tlv::lookup(rs, entry_tag::FILE_ID) is None {
        Err(FormatError::MissingField { tag: entry_tag::FILE_ID })
    } else if tlv::lookup(rs, entry_tag::ENC) is None {
        Err(FormatError::MissingField { tag: entry_tag::ENC })
    } else if tlv::lookup(rs, entry_tag::NONCE) is None {
        Err(FormatError::MissingField { tag: entry_tag::NONCE })
    } else if tlv::lookup(rs, entry_tag::CT) is None {
        Err(FormatError::MissingField { tag: entry_tag::CT })
    } else {
        Ok(
            EntryView {
                file_id: tlv::lookup(rs, entry_tag::FILE_ID)->0,
                share_b: BlobView {
                    enc: tlv::lookup(rs, entry_tag::ENC)->0,
                    nonce: tlv::lookup(rs, entry_tag::NONCE)->0,
                    ct: tlv::lookup(rs, entry_tag::CT)->0,
                },
            },
        )
    }
}

/// The entry that the bytes hold.
pub open spec fn entry_of(b: Seq<u8>) -> Result<EntryView, FormatError> {
    match tlv::read(EntrySchema, b) {
        Err(e) => Err(e),
        Ok(rs) => entry_in(rs),
    }
}

/// An optional field that is not known changes nothing in the entry that is read.
pub proof fn entry_reads_past_optional_fields(b: Seq<u8>)
    requires
        entry_of(b) is Ok,
    ensures
        entry_of(unknown::without_optional(b)) == entry_of(b),
{
    unknown::optional_records_are_skipped(EntrySchema, b);
}

/// An entry survives being written and read back.
pub proof fn entry_round_trip(e: EntryView)
    requires
        e.sized(),
        tlv::sealed(e.recs()) is Ok,
    ensures
        entry_of(tlv::sealed(e.recs())->Ok_0) == Ok::<EntryView, FormatError>(e),
{
    broadcast use tlv::group_records;

    tlv::read_wire(EntrySchema, e.recs());
}

fn encode_entry(e: &Entry) -> (r: Result<Vec<u8>, FormatError>)
    ensures
        tlv::agrees(r, tlv::sealed(e@.recs())),
{
    broadcast use tlv::group_records;

    let mut w = TlvWriter::new();
    w.put(entry_tag::FILE_ID, e.file_id.as_slice())?;
    w.put(entry_tag::ENC, e.share_b.enc.as_slice())?;
    w.put(entry_tag::NONCE, e.share_b.nonce.as_slice())?;
    w.put(entry_tag::CT, e.share_b.ct.as_slice())?;
    Ok(w.finish())
}

fn decode_entry(b: &[u8]) -> (r: Result<Entry, FormatError>)
    ensures
        tlv::agrees(r, entry_of(b@)),
{
    let fs = read_fields(&EntrySchema, b)?;
    let file_id = need(&fs, entry_tag::FILE_ID)?;
    let enc = need(&fs, entry_tag::ENC)?;
    let nonce = need(&fs, entry_tag::NONCE)?;
    let ct = need(&fs, entry_tag::CT)?;
    Ok(
        Entry {
            file_id: array(file_id),
            share_b: Blob { enc: owned(enc), nonce: array(nonce), ct: owned(ct) },
        },
    )
}

/// The first pair of entries whose files do not ascend, from an index on.
pub open spec fn order_fault_from(es: Seq<EntryView>, i: nat) -> Option<FormatError>
    decreases es.len() - i,
{
    if i + 1 >= es.len() {
        None
    } else if bytes::before(es[i as int].file_id, es[i as int + 1].file_id) {
        order_fault_from(es, i + 1)
    } else {
        Some(FormatError::FieldsOutOfOrder { previous: i as u16, found: (i + 1) as u16 })
    }
}

/// The verdict on a list of entries: no more than the limit, and the files ascend,
/// so that none occurs twice.
pub open spec fn entries_fault(es: Seq<EntryView>, list_tag: u16) -> Option<FormatError> {
    if es.len() > MAX_GRANT_FILES {
        Some(FormatError::BadFieldLength { tag: list_tag, len: es.len() as usize })
    } else {
        order_fault_from(es, 0)
    }
}

proof fn files_ascend(es: Seq<EntryView>, from: nat, i: int, j: int)
    requires
        order_fault_from(es, from) is None,
        from <= i < j < es.len(),
    ensures
        bytes::before(es[i].file_id, es[j].file_id),
    decreases es.len() - from, j,
{
    if from < i {
        files_ascend(es, from + 1, i, j);
    } else if i + 1 < j {
        files_ascend(es, from + 1, i + 1, j);
        bytes::before_is_transitive(es[i].file_id, es[i + 1].file_id, es[j].file_id);
    }
}

/// An accepted list of entries names no file twice.
pub proof fn no_file_twice(es: Seq<EntryView>, list_tag: u16, i: int, j: int)
    requires
        entries_fault(es, list_tag) is None,
        0 <= i < j < es.len(),
    ensures
        es[i].file_id != es[j].file_id,
{
    files_ascend(es, 0, i, j);
    bytes::before_is_irreflexive(es[i].file_id);
}

/// The records of entries, numbered from zero.
pub open spec fn entries_recs(es: Seq<EntryView>) -> Result<Seq<Rec>, FormatError>
    decreases es.len(),
{
    if es.len() == 0 {
        Ok(Seq::empty())
    } else {
        match entries_recs(es.drop_last()) {
            Err(e) => Err(e),
            Ok(rs) => match tlv::sealed(es.last().recs()) {
                Err(e) => Err(e),
                Ok(b) => if b.len() <= u32::MAX {
                    Ok(rs.push(((es.len() - 1) as u16, b)))
                } else {
                    Err(FormatError::OffsetOverflow)
                },
            },
        }
    }
}

/// The bytes of a list of entries.
pub open spec fn entries_bytes(es: Seq<EntryView>) -> Result<Seq<u8>, FormatError> {
    match entries_recs(es) {
        Err(e) => Err(e),
        Ok(rs) => Ok(tlv::wire(rs)),
    }
}

/// The entries that records hold, whatever their tags are.
pub open spec fn entries_in(rs: Seq<Rec>, list_tag: u16) -> Result<Seq<EntryView>, FormatError>
    decreases rs.len(),
{
    if rs.len() == 0 {
        Ok(Seq::empty())
    } else {
        match entries_in(rs.drop_last(), list_tag) {
            Err(e) => Err(e),
            Ok(es) => if es.len() >= MAX_GRANT_FILES {
                Err(FormatError::BadFieldLength { tag: list_tag, len: es.len() as usize })
            } else {
                match entry_of(rs.last().1) {
                    Err(e) => Err(e),
                    Ok(e) => Ok(es.push(e)),
                }
            },
        }
    }
}

/// The list of entries that the bytes hold.
pub open spec fn entries_of(b: Seq<u8>, list_tag: u16) -> Result<Seq<EntryView>, FormatError> {
    let (rs, torn) = tlv::scan(b, None);
    match entries_in(rs, list_tag) {
        Err(e) => Err(e),
        Ok(es) => match torn {
            Some(e) => Err(e),
            None => match entries_fault(es, list_tag) {
                Some(e) => Err(e),
                None => Ok(es),
            },
        },
    }
}

/// The verdict on bytes that should hold a list of entries.
pub open spec fn entries_bytes_fault(b: Seq<u8>, list_tag: u16) -> Option<FormatError> {
    match entries_of(b, list_tag) {
        Ok(_) => None,
        Err(e) => Some(e),
    }
}

/// Every entry has the lengths it should have.
pub open spec fn entries_sized(es: Seq<EntryView>) -> bool {
    forall|i: int| 0 <= i < es.len() ==> (#[trigger] es[i]).sized()
}

proof fn entries_recs_are_writable(es: Seq<EntryView>)
    requires
        es.len() <= MAX_GRANT_FILES,
        entries_recs(es) is Ok,
    ensures
        tlv::writable(entries_recs(es)->Ok_0),
        tlv::below(entries_recs(es)->Ok_0, es.len() as u16),
    decreases es.len(),
{
    broadcast use tlv::group_records;

    if es.len() > 0 {
        entries_recs_are_writable(es.drop_last());
        let prior = entries_recs(es.drop_last())->Ok_0;
        tlv::below_is_monotone(prior, (es.len() - 1) as u16, es.len() as u16);
    }
}

proof fn entries_in_recs(es: Seq<EntryView>, list_tag: u16)
    requires
        es.len() <= MAX_GRANT_FILES,
        entries_sized(es),
        entries_recs(es) is Ok,
    ensures
        entries_in(entries_recs(es)->Ok_0, list_tag) == Ok::<Seq<EntryView>, FormatError>(es),
    decreases es.len(),
{
    if es.len() > 0 {
        assert forall|i: int| 0 <= i < es.drop_last().len() implies (
        #[trigger] es.drop_last()[i]).sized() by {
            assert(es[i].sized());
        }
        entries_in_recs(es.drop_last(), list_tag);
        assert(es[es.len() - 1].sized());
        entry_round_trip(es.last());
        assert(entries_recs(es)->Ok_0.drop_last() =~= entries_recs(es.drop_last())->Ok_0);
        assert(es.drop_last().push(es.last()) =~= es);
    } else {
        assert(es =~= Seq::empty());
    }
}

/// A list of entries survives being written and read back.
pub proof fn entries_round_trip(es: Seq<EntryView>, list_tag: u16)
    requires
        entries_sized(es),
        entries_fault(es, list_tag) is None,
        entries_bytes(es) is Ok,
    ensures
        entries_of(entries_bytes(es)->Ok_0, list_tag) == Ok::<Seq<EntryView>, FormatError>(es),
{
    entries_recs_are_writable(es);
    entries_in_recs(es, list_tag);
    tlv::scan_wire(entries_recs(es)->Ok_0);
}

proof fn entries_recs_prefix(es: Seq<EntryView>, n: int)
    requires
        0 <= n <= es.len(),
        entries_recs(es.take(n)) is Err,
    ensures
        entries_recs(es) == entries_recs(es.take(n)),
    decreases es.len() - n,
{
    if n == es.len() {
        assert(es.take(n) =~= es);
    } else {
        assert(es.take(n + 1).drop_last() =~= es.take(n));
        entries_recs_prefix(es, n + 1);
    }
}

proof fn entries_in_prefix(a: Seq<Rec>, b: Seq<Rec>, list_tag: u16)
    requires
        entries_in(a, list_tag) is Err,
    ensures
        entries_in(a + b, list_tag) == entries_in(a, list_tag),
    decreases b.len(),
{
    if b.len() == 0 {
        assert(a + b =~= a);
    } else {
        entries_in_prefix(a, b.drop_last(), list_tag);
        assert((a + b).drop_last() =~= a + b.drop_last());
    }
}

/// The verdict on a list of entries.
fn check_entries(es: &Vec<Entry>, list_tag: u16) -> (r: Option<FormatError>)
    ensures
        r == entries_fault(entry_views(es@), list_tag),
{
    if es.len() > MAX_GRANT_FILES {
        return Some(bad(list_tag, es.len()));
    }
    let ghost all = entry_views(es@);
    let mut i: usize = 0;
    while i + 1 < es.len()
        invariant
            es@.len() <= MAX_GRANT_FILES,
            i <= es@.len(),
            all == entry_views(es@),
            order_fault_from(all, 0) == order_fault_from(all, i as nat),
        decreases es@.len() - i,
    {
        assert(all[i as int].file_id == es@[i as int].file_id@);
        assert(all[i + 1].file_id == es@[i + 1].file_id@);
        if !is_before(es[i].file_id.as_slice(), es[i + 1].file_id.as_slice()) {
            return Some(
                FormatError::FieldsOutOfOrder { previous: i as u16, found: (i + 1) as u16 },
            );
        }
        i = i + 1;
    }
    None
}

/// Write a list of entries.
fn encode_entries(es: &Vec<Entry>) -> (r: Result<Vec<u8>, FormatError>)
    requires
        es@.len() <= MAX_GRANT_FILES,
    ensures
        tlv::agrees(r, entries_bytes(entry_views(es@))),
{
    broadcast use tlv::group_records;

    let ghost all = entry_views(es@);
    let mut w = TlvWriter::new();
    let mut i: usize = 0;
    assert(all.take(0) =~= Seq::empty());
    while i < es.len()
        invariant
            i <= es@.len() <= MAX_GRANT_FILES,
            all == entry_views(es@),
            entries_recs(all.take(i as int)) == Ok::<Seq<Rec>, FormatError>(w@),
        decreases es@.len() - i,
    {
        let ghost head = all.take(i as int + 1);
        proof {
            assert(head.drop_last() =~= all.take(i as int));
            assert(head.last() == es@[i as int]@);
            entries_recs_are_writable(all.take(i as int));
        }
        let b = match encode_entry(&es[i]) {
            Ok(b) => b,
            Err(e) => {
                proof {
                    entries_recs_prefix(all, i as int + 1);
                }
                return Err(e);
            },
        };
        match w.put(i as u16, b.as_slice()) {
            Ok(_) => {},
            Err(e) => {
                proof {
                    entries_recs_prefix(all, i as int + 1);
                }
                return Err(e);
            },
        }
        i = i + 1;
    }
    assert(all.take(i as int) =~= all);
    Ok(w.finish())
}

/// Read a list of entries.
fn decode_entries(b: &[u8], list_tag: u16) -> (r: Result<Vec<Entry>, FormatError>)
    ensures
        match r {
            Ok(es) => entries_of(b@, list_tag) == Ok::<Seq<EntryView>, FormatError>(
                entry_views(es@),
            ),
            Err(e) => entries_of(b@, list_tag) == Err::<Seq<EntryView>, FormatError>(e),
        },
{
    let mut out: Vec<Entry> = Vec::new();
    let mut reader = TlvReader::new(b);
    let ghost mut done: Seq<Rec> = Seq::empty();
    assert(entry_views(out@) =~= Seq::empty());
    assert(tlv::scan(b@, None).0 =~= done + reader@.0);
    loop
        invariant
            tlv::scan(b@, None).0 == done + reader@.0,
            tlv::scan(b@, None).1 == reader@.1,
            entries_in(done, list_tag) == Ok::<Seq<EntryView>, FormatError>(entry_views(out@)),
            out@.len() <= MAX_GRANT_FILES,
        decreases reader.left(),
    {
        match reader.next_field() {
            Ok(Some(f)) => {
                let ghost rec: Rec = (f.tag, f.value@);
                let ghost more = done.push(rec);
                proof {
                    assert(done + (seq![rec] + reader@.0) =~= more + reader@.0);
                    assert(more.drop_last() =~= done);
                }
                if out.len() >= MAX_GRANT_FILES {
                    proof {
                        entries_in_prefix(more, reader@.0, list_tag);
                    }
                    return Err(bad(list_tag, out.len()));
                }
                match decode_entry(f.value) {
                    Ok(entry) => {
                        let ghost prior = entry_views(out@);
                        out.push(entry);
                        proof {
                            assert(entry_views(out@) =~= prior.push(entry@));
                            done = more;
                        }
                    },
                    Err(e) => {
                        proof {
                            entries_in_prefix(more, reader@.0, list_tag);
                        }
                        return Err(e);
                    },
                }
            },
            Ok(None) => {
                assert(done + Seq::<Rec>::empty() =~= done);
                refuse(check_entries(&out, list_tag))?;
                return Ok(out);
            },
            Err(e) => {
                assert(done + Seq::<Rec>::empty() =~= done);
                return Err(e);
            },
        }
    }
}

/// The verdict on bytes that should hold a list of entries.
fn check_entries_bytes(b: &[u8], list_tag: u16) -> (r: Option<FormatError>)
    ensures
        r == entries_bytes_fault(b@, list_tag),
{
    match decode_entries(b, list_tag) {
        Ok(_) => None,
        Err(e) => Some(e),
    }
}

/// The verdict on the name of a holder: an X25519 key, which is its own fingerprint.
pub open spec fn holder_fault(
    fpr: Seq<u8>,
    kem: u8,
    public: Seq<u8>,
    kem_tag: u16,
    fpr_tag: u16,
) -> Option<FormatError> {
    if kem != DOOR_KEM_X25519 {
        Some(FormatError::BadFieldLength { tag: kem_tag, len: 1 })
    } else if public.len() != 32 {
        Some(FormatError::BadFieldLength { tag: fpr_tag, len: public.len() as usize })
    } else if fpr != public {
        Some(FormatError::BadFieldLength { tag: fpr_tag, len: 32 })
    } else {
        None
    }
}

/// The verdict on the name of a holder.
fn check_holder_name(fpr: &[u8; 32], kem: u8, public: &[u8], kem_tag: u16, fpr_tag: u16) -> (r:
    Option<FormatError>)
    ensures
        r == holder_fault(fpr@, kem, public@, kem_tag, fpr_tag),
{
    if kem != DOOR_KEM_X25519 {
        return Some(bad(kem_tag, 1));
    }
    if public.len() != 32 {
        return Some(bad(fpr_tag, public.len()));
    }
    if !same(fpr.as_slice(), public) {
        return Some(bad(fpr_tag, 32));
    }
    None
}

/// What an author gives to the door of an agent.
#[derive(Debug, Clone, PartialEq, Eq)]
pub struct AgentGrant {
    pub grant_id: [u8; 16],
    pub door_fpr: [u8; 32],
    pub door_kem: u8,
    pub door_public: Vec<u8>,
    /// The key by which delegations of the door are checked.
    pub door_verify: [u8; 32],
    pub entries: Vec<Entry>,
    pub issued_at: i64,
    pub expires_at: i64,
    /// A policy that narrows the file's own.
    pub tightening: Option<Vec<u8>>,
    pub max_depth: u8,
    pub author_key: [u8; 32],
    pub signature: [u8; SIGNATURE_LEN],
}

/// What the grant of an agent says.
pub struct AgentGrantView {
    pub grant_id: Seq<u8>,
    pub door_fpr: Seq<u8>,
    pub door_kem: u8,
    pub door_public: Seq<u8>,
    pub door_verify: Seq<u8>,
    pub entries: Seq<EntryView>,
    pub issued_at: i64,
    pub expires_at: i64,
    pub tightening: Option<Seq<u8>>,
    pub max_depth: u8,
    pub author_key: Seq<u8>,
    pub signature: Seq<u8>,
}

impl View for AgentGrant {
    type V = AgentGrantView;

    open spec fn view(&self) -> AgentGrantView {
        AgentGrantView {
            grant_id: self.grant_id@,
            door_fpr: self.door_fpr@,
            door_kem: self.door_kem,
            door_public: self.door_public@,
            door_verify: self.door_verify@,
            entries: entry_views(self.entries@),
            issued_at: self.issued_at,
            expires_at: self.expires_at,
            tightening: bytes::opt_bytes(self.tightening),
            max_depth: self.max_depth,
            author_key: self.author_key@,
            signature: self.signature@,
        }
    }
}

impl AgentGrantView {
    /// The fields of fixed length have it.
    pub open spec fn sized(self) -> bool {
        &&& self.grant_id.len() == 16
        &&& self.door_fpr.len() == 32
        &&& self.door_verify.len() == 32
        &&& self.author_key.len() == 32
        &&& self.signature.len() == SIGNATURE_LEN
        &&& entries_sized(self.entries)
    }

    /// The first objection to the grant.
    pub open spec fn fault(self) -> Option<FormatError> {
        tlv::or_else(
            holder_fault(
                self.door_fpr,
                self.door_kem,
                self.door_public,
                tag::DOOR_KEM,
                tag::DOOR_FPR,
            ),
            tlv::or_else(
                entries_fault(self.entries, tag::ENTRIES),
                if self.max_depth > MAX_GRANT_DEPTH {
                    Some(
                        FormatError::BadFieldLength {
                            tag: tag::MAX_DEPTH,
                            len: self.max_depth as usize,
                        },
                    )
                } else if self.expires_at < self.issued_at {
                    Some(FormatError::BadFieldLength { tag: tag::EXPIRES_AT, len: 8 })
                } else {
                    None
                },
            ),
        )
    }

    /// The records of the body, where the entries have the given bytes.
    pub open spec fn recs(self, entries: Seq<u8>) -> Seq<Rec> {
        let rs = Seq::<Rec>::empty();
        let rs = rs.push((tag::GRANT_ID, self.grant_id));
        let rs = rs.push((tag::DOOR_FPR, self.door_fpr));
        let rs = rs.push((tag::DOOR_KEM, seq![self.door_kem]));
        let rs = rs.push((tag::DOOR_PUBLIC, self.door_public));
        let rs = rs.push((tag::DOOR_VERIFY, self.door_verify));
        let rs = rs.push((tag::ENTRIES, entries));
        let rs = rs.push((tag::ISSUED_AT, bytes::le64s(self.issued_at)));
        let rs = rs.push((tag::EXPIRES_AT, bytes::le64s(self.expires_at)));
        let rs = tlv::with_opt(rs, tag::TIGHTENING, self.tightening);
        let rs = rs.push((tag::MAX_DEPTH, seq![self.max_depth]));
        rs.push((tag::AUTHOR_KEY, self.author_key))
    }
}

/// The bytes of a grant that are signed.
pub open spec fn agent_body_bytes(g: AgentGrantView) -> Result<Seq<u8>, FormatError> {
    match g.fault() {
        Some(e) => Err(e),
        None => match entries_bytes(g.entries) {
            Err(e) => Err(e),
            Ok(entries) => tlv::sealed(g.recs(entries)),
        },
    }
}

/// The rule for the fields of the grant of an agent.
pub struct AgentGrantSchema {
    /// What the codec of policies has against the tightening.
    pub policy: Option<FormatError>,
}

impl Schema for AgentGrantSchema {
    open spec fn fault(&self, tag: u16, value: Seq<u8>) -> Option<FormatError> {
        if tag == self::tag::GRANT_ID {
            tlv::length_fault(tag, value, 16)
        } else if tag == self::tag::DOOR_FPR || tag == self::tag::DOOR_VERIFY
            || tag == self::tag::AUTHOR_KEY {
            tlv::length_fault(tag, value, 32)
        } else if tag == self::tag::DOOR_KEM || tag == self::tag::MAX_DEPTH {
            tlv::length_fault(tag, value, 1)
        } else if tag == self::tag::DOOR_PUBLIC {
            None
        } else if tag == self::tag::ENTRIES {
            entries_bytes_fault(value, tag)
        } else if tag == self::tag::ISSUED_AT || tag == self::tag::EXPIRES_AT {
            tlv::length_fault(tag, value, 8)
        } else if tag == self::tag::TIGHTENING {
            self.policy
        } else {
            unknown::unknown_fault(tag)
        }
    }

    fn check(&self, tag: u16, value: &[u8]) -> (r: Option<FormatError>) {
        if tag == self::tag::GRANT_ID {
            check_length(tag, value, 16)
        } else if tag == self::tag::DOOR_FPR || tag == self::tag::DOOR_VERIFY
            || tag == self::tag::AUTHOR_KEY {
            check_length(tag, value, 32)
        } else if tag == self::tag::DOOR_KEM || tag == self::tag::MAX_DEPTH {
            check_length(tag, value, 1)
        } else if tag == self::tag::DOOR_PUBLIC {
            None
        } else if tag == self::tag::ENTRIES {
            check_entries_bytes(value, tag)
        } else if tag == self::tag::ISSUED_AT || tag == self::tag::EXPIRES_AT {
            check_length(tag, value, 8)
        } else if tag == self::tag::TIGHTENING {
            self.policy
        } else {
            unknown_verdict(tag)
        }
    }
}

/// The grant that the records hold, or the first field that is absent.
pub open spec fn agent_grant_in(
    rs: Seq<Rec>,
    signature: Seq<u8>,
) -> Result<AgentGrantView, FormatError> {
    if tlv::lookup(rs, tag::GRANT_ID) is None {
        Err(FormatError::MissingField { tag: tag::GRANT_ID })
    } else if tlv::lookup(rs, tag::DOOR_FPR) is None {
        Err(FormatError::MissingField { tag: tag::DOOR_FPR })
    } else if tlv::lookup(rs, tag::DOOR_KEM) is None {
        Err(FormatError::MissingField { tag: tag::DOOR_KEM })
    } else if tlv::lookup(rs, tag::DOOR_PUBLIC) is None {
        Err(FormatError::MissingField { tag: tag::DOOR_PUBLIC })
    } else if tlv::lookup(rs, tag::DOOR_VERIFY) is None {
        Err(FormatError::MissingField { tag: tag::DOOR_VERIFY })
    } else if tlv::lookup(rs, tag::ENTRIES) is None {
        Err(FormatError::MissingField { tag: tag::ENTRIES })
    } else if tlv::lookup(rs, tag::ISSUED_AT) is None {
        Err(FormatError::MissingField { tag: tag::ISSUED_AT })
    } else if tlv::lookup(rs, tag::EXPIRES_AT) is None {
        Err(FormatError::MissingField { tag: tag::EXPIRES_AT })
    } else if tlv::lookup(rs, tag::MAX_DEPTH) is None {
        Err(FormatError::MissingField { tag: tag::MAX_DEPTH })
    } else if tlv::lookup(rs, tag::AUTHOR_KEY) is None {
        Err(FormatError::MissingField { tag: tag::AUTHOR_KEY })
    } else {
        Ok(
            AgentGrantView {
                grant_id: tlv::lookup(rs, tag::GRANT_ID)->0,
                door_fpr: tlv::lookup(rs, tag::DOOR_FPR)->0,
                door_kem: tlv::lookup(rs, tag::DOOR_KEM)->0[0],
                door_public: tlv::lookup(rs, tag::DOOR_PUBLIC)->0,
                door_verify: tlv::lookup(rs, tag::DOOR_VERIFY)->0,
                entries: entries_of(tlv::lookup(rs, tag::ENTRIES)->0, tag::ENTRIES)->Ok_0,
                issued_at: bytes::num64s(tlv::lookup(rs, tag::ISSUED_AT)->0),
                expires_at: bytes::num64s(tlv::lookup(rs, tag::EXPIRES_AT)->0),
                tightening: tlv::lookup(rs, tag::TIGHTENING),
                max_depth: tlv::lookup(rs, tag::MAX_DEPTH)->0[0],
                author_key: tlv::lookup(rs, tag::AUTHOR_KEY)->0,
                signature: signature,
            },
        )
    }
}

/// The grant that a body holds under a signature. `policy` is what the codec of
/// policies has against its tightening.
pub open spec fn agent_body_of(
    body: Seq<u8>,
    signature: Seq<u8>,
    policy: Option<FormatError>,
) -> Result<AgentGrantView, FormatError> {
    match tlv::read(AgentGrantSchema { policy }, body) {
        Err(e) => Err(e),
        Ok(rs) => match agent_grant_in(rs, signature) {
            Err(e) => Err(e),
            Ok(g) => match g.fault() {
                Some(e) => Err(e),
                None => Ok(g),
            },
        },
    }
}

/// An optional field that is not known changes nothing in the grant that is read.
pub proof fn agent_grant_reads_past_optional_fields(
    body: Seq<u8>,
    signature: Seq<u8>,
    policy: Option<FormatError>,
)
    requires
        agent_body_of(body, signature, policy) is Ok,
    ensures
        agent_body_of(unknown::without_optional(body), signature, policy)
            == agent_body_of(body, signature, policy),
{
    unknown::optional_records_are_skipped(AgentGrantSchema { policy }, body);
}

/// The grant that the bytes hold, whoever signed them.
pub open spec fn peeked_agent(b: Seq<u8>, policy: Option<FormatError>) -> Result<
    AgentGrantView,
    FormatError,
> {
    if b.len() < SIGNATURE_LEN {
        Err(FormatError::BadHeaderSignature)
    } else {
        agent_body_of(b.skip(SIGNATURE_LEN as int), b.take(SIGNATURE_LEN as int), policy)
    }
}

/// The grant that the bytes hold, where `signed` says whether the signature holds
/// under the author's key. Nothing is read of a body that is not signed.
pub open spec fn opened_agent(
    b: Seq<u8>,
    signed: bool,
    author_key: Seq<u8>,
    policy: Option<FormatError>,
) -> Result<AgentGrantView, FormatError> {
    if b.len() < SIGNATURE_LEN || !signed {
        Err(FormatError::BadHeaderSignature)
    } else {
        match peeked_agent(b, policy) {
            Err(e) => Err(e),
            Ok(g) => if g.author_key == author_key {
                Ok(g)
            } else {
                Err(FormatError::BadFieldLength { tag: tag::AUTHOR_KEY, len: 32 })
            },
        }
    }
}

/// Under a signature that does not hold, no body is told from another: each is refused alike.
pub proof fn unsigned_grant_is_refused(b: Seq<u8>, author_key: Seq<u8>, policy: Option<FormatError>)
    ensures
        opened_agent(b, false, author_key, policy)
            == Err::<AgentGrantView, FormatError>(FormatError::BadHeaderSignature),
{
}

/// A grant that was opened was read from the very body that its signature was checked over.
pub proof fn grant_is_read_from_what_was_signed(
    b: Seq<u8>,
    author_key: Seq<u8>,
    policy: Option<FormatError>,
)
    requires
        opened_agent(b, true, author_key, policy) is Ok,
    ensures
        transcript::claimed(Label::AgentGrant, b, author_key) is Ok,
        ({
            let claim = transcript::claimed(Label::AgentGrant, b, author_key)->Ok_0;
            opened_agent(b, true, author_key, policy)
                == agent_body_of(claim.transcript.body, claim.signature, policy)
        }),
{
}

/// A signed grant survives being written and read back.
pub proof fn agent_grant_round_trip(g: AgentGrantView)
    requires
        g.sized(),
        agent_body_bytes(g) is Ok,
    ensures
        opened_agent(
            action::signed_bytes(g.signature, agent_body_bytes(g))->Ok_0,
            true,
            g.author_key,
            None,
        ) == Ok::<AgentGrantView, FormatError>(g),
{
    broadcast use {tlv::group_records, bytes::group_numbers};

    let entries = entries_bytes(g.entries)->Ok_0;
    entries_round_trip(g.entries, tag::ENTRIES);
    action::signature_parts(g.signature, agent_body_bytes(g)->Ok_0);
    tlv::read_wire(AgentGrantSchema { policy: None }, g.recs(entries));
}

/// The first objection to a grant.
fn check_grant(g: &AgentGrant) -> (r: Option<FormatError>)
    ensures
        r == g@.fault(),
{
    if let Some(e) = check_holder_name(
        &g.door_fpr,
        g.door_kem,
        g.door_public.as_slice(),
        tag::DOOR_KEM,
        tag::DOOR_FPR,
    ) {
        return Some(e);
    }
    if let Some(e) = check_entries(&g.entries, tag::ENTRIES) {
        return Some(e);
    }
    if g.max_depth > MAX_GRANT_DEPTH {
        return Some(bad(tag::MAX_DEPTH, g.max_depth as usize));
    }
    if g.expires_at < g.issued_at {
        return Some(bad(tag::EXPIRES_AT, 8));
    }
    None
}

/// The bytes of a grant that are signed.
pub fn grant_body(grant: &AgentGrant) -> (r: Result<Vec<u8>, FormatError>)
    ensures
        tlv::agrees(r, agent_body_bytes(grant@)),
{
    broadcast use {tlv::group_records, bytes::group_numbers};

    refuse(check_grant(grant))?;
    let entries = encode_entries(&grant.entries)?;
    let mut w = TlvWriter::new();
    w.put(tag::GRANT_ID, grant.grant_id.as_slice())?;
    w.put(tag::DOOR_FPR, grant.door_fpr.as_slice())?;
    w.put(tag::DOOR_KEM, one(grant.door_kem).as_slice())?;
    w.put(tag::DOOR_PUBLIC, grant.door_public.as_slice())?;
    w.put(tag::DOOR_VERIFY, grant.door_verify.as_slice())?;
    w.put(tag::ENTRIES, entries.as_slice())?;
    w.put(tag::ISSUED_AT, write64s(grant.issued_at).as_slice())?;
    w.put(tag::EXPIRES_AT, write64s(grant.expires_at).as_slice())?;
    if let Some(policy) = &grant.tightening {
        w.put(tag::TIGHTENING, policy.as_slice())?;
    }
    w.put(tag::MAX_DEPTH, one(grant.max_depth).as_slice())?;
    w.put(tag::AUTHOR_KEY, grant.author_key.as_slice())?;
    Ok(w.finish())
}

/// What the author signs of a grant.
pub fn grant_transcript(body: &[u8]) -> (r: Transcript)
    ensures
        r@ == (TranscriptView { label: Label::AgentGrant, body: body@ }),
{
    Transcript::new(Label::AgentGrant, body)
}

/// Write a signed grant.
pub fn encode_grant(grant: &AgentGrant) -> (r: Result<Vec<u8>, FormatError>)
    ensures
        tlv::agrees(r, action::signed_bytes(grant@.signature, agent_body_bytes(grant@))),
{
    let body = grant_body(grant)?;
    Ok(with_signature(&grant.signature, body.as_slice()))
}

/// Read the body of a grant under a signature.
fn decode_grant_body(
    body: &[u8],
    signature: [u8; SIGNATURE_LEN],
    policy: Option<FormatError>,
) -> (r: Result<AgentGrant, FormatError>)
    ensures
        tlv::agrees(r, agent_body_of(body@, signature@, policy)),
{
    let fs = read_fields(&AgentGrantSchema { policy }, body)?;
    let grant_id = need(&fs, tag::GRANT_ID)?;
    let door_fpr = need(&fs, tag::DOOR_FPR)?;
    let door_kem = need(&fs, tag::DOOR_KEM)?;
    let door_public = need(&fs, tag::DOOR_PUBLIC)?;
    let door_verify = need(&fs, tag::DOOR_VERIFY)?;
    let entries = need(&fs, tag::ENTRIES)?;
    let issued_at = need(&fs, tag::ISSUED_AT)?;
    let expires_at = need(&fs, tag::EXPIRES_AT)?;
    let max_depth = need(&fs, tag::MAX_DEPTH)?;
    let author_key = need(&fs, tag::AUTHOR_KEY)?;
    let grant = AgentGrant {
        grant_id: array(grant_id),
        door_fpr: array(door_fpr),
        door_kem: door_kem[0],
        door_public: owned(door_public),
        door_verify: array(door_verify),
        entries: decode_entries(entries, tag::ENTRIES)?,
        issued_at: read64s(issued_at),
        expires_at: read64s(expires_at),
        tightening: match find(&fs, tag::TIGHTENING) {
            Some(v) => Some(owned(v)),
            None => None,
        },
        max_depth: max_depth[0],
        author_key: array(author_key),
        signature,
    };
    refuse(check_grant(&grant))?;
    Ok(grant)
}

/// Read a grant whoever signed it: for who keeps what was checked before. `policy`
/// is what the codec of policies has against its tightening.
pub fn peek_grant(bytes: &[u8], policy: Option<FormatError>) -> (r: Result<
    AgentGrant,
    FormatError,
>)
    ensures
        tlv::agrees(r, peeked_agent(bytes@, policy)),
{
    let (signature, body) = split_signature(bytes)?;
    decode_grant_body(body, signature, policy)
}

/// The signature that is to be checked before a grant is read.
pub fn grant_claim(bytes: &[u8], author_key: &[u8; 32]) -> (r: Result<Claim, FormatError>)
    ensures
        tlv::agrees(r, transcript::claimed(Label::AgentGrant, bytes@, author_key@)),
{
    transcript::claim(Label::AgentGrant, bytes, author_key)
}

/// The tightening in the body of a grant, in the bytes of the codec of policies: what the
/// codec is asked about before the grant is read.
pub fn grant_tightening_in(body: &[u8]) -> (r: Option<Vec<u8>>)
    ensures
        match r {
            Some(v) => tlv::lookup(tlv::scan(body@, None).0, tag::TIGHTENING) == Some(v@),
            None => tlv::lookup(tlv::scan(body@, None).0, tag::TIGHTENING) is None,
        },
{
    value_in(body, tag::TIGHTENING)
}

/// Read a signed grant. `signed` says whether the signature over the body (see
/// [`grant_claim`]) holds under the author's key; the body names the same key. `policy` is
/// what the codec of policies has against the tightening (see [`grant_tightening_in`]).
pub fn decode_grant(
    bytes: &[u8],
    author_key: &[u8; 32],
    signed: bool,
    policy: Option<FormatError>,
) -> (r: Result<AgentGrant, FormatError>)
    ensures
        tlv::agrees(r, opened_agent(bytes@, signed, author_key@, policy)),
{
    let (signature, body) = split_signature(bytes)?;
    if !signed {
        return Err(FormatError::BadHeaderSignature);
    }
    let grant = decode_grant_body(body, signature, policy)?;
    if !same(grant.author_key.as_slice(), author_key.as_slice()) {
        return Err(bad(tag::AUTHOR_KEY, 32));
    }
    Ok(grant)
}

/// A link of a chain: a holder hands a part of the grant on.
#[derive(Debug, Clone, PartialEq, Eq)]
pub struct Delegation {
    pub grant_id: [u8; 16],
    pub parent_fpr: [u8; 32],
    pub child_fpr: [u8; 32],
    pub child_kem: u8,
    pub child_public: Vec<u8>,
    /// The key by which delegations of the child are checked.
    pub child_verify: [u8; 32],
    pub entries: Vec<Entry>,
    pub expires_at: i64,
    pub tightening: Option<Vec<u8>>,
    /// How much deeper the child may delegate.
    pub depth: u8,
    /// The rules of action that are handed on.
    pub actions: Vec<ActionRule>,
    pub signature: [u8; SIGNATURE_LEN],
}

/// What a delegation says.
pub struct DelegationView {
    pub grant_id: Seq<u8>,
    pub parent_fpr: Seq<u8>,
    pub child_fpr: Seq<u8>,
    pub child_kem: u8,
    pub child_public: Seq<u8>,
    pub child_verify: Seq<u8>,
    pub entries: Seq<EntryView>,
    pub expires_at: i64,
    pub tightening: Option<Seq<u8>>,
    pub depth: u8,
    pub actions: Seq<RuleView>,
    pub signature: Seq<u8>,
}

impl View for Delegation {
    type V = DelegationView;

    open spec fn view(&self) -> DelegationView {
        DelegationView {
            grant_id: self.grant_id@,
            parent_fpr: self.parent_fpr@,
            child_fpr: self.child_fpr@,
            child_kem: self.child_kem,
            child_public: self.child_public@,
            child_verify: self.child_verify@,
            entries: entry_views(self.entries@),
            expires_at: self.expires_at,
            tightening: bytes::opt_bytes(self.tightening),
            depth: self.depth,
            actions: action::rule_views(self.actions@),
            signature: self.signature@,
        }
    }
}

impl DelegationView {
    /// The fields of fixed length have it.
    pub open spec fn sized(self) -> bool {
        &&& self.grant_id.len() == 16
        &&& self.parent_fpr.len() == 32
        &&& self.child_fpr.len() == 32
        &&& self.child_verify.len() == 32
        &&& self.signature.len() == SIGNATURE_LEN
        &&& entries_sized(self.entries)
    }

    /// The first objection to the delegation.
    pub open spec fn fault(self) -> Option<FormatError> {
        tlv::or_else(
            holder_fault(
                self.child_fpr,
                self.child_kem,
                self.child_public,
                link_tag::CHILD_KEM,
                link_tag::CHILD_FPR,
            ),
            tlv::or_else(
                entries_fault(self.entries, link_tag::ENTRIES),
                if self.depth > MAX_GRANT_DEPTH {
                    Some(
                        FormatError::BadFieldLength {
                            tag: link_tag::DEPTH,
                            len: self.depth as usize,
                        },
                    )
                } else if self.actions.len() > MAX_ACTION_RULES {
                    Some(
                        FormatError::BadFieldLength {
                            tag: link_tag::ACTIONS,
                            len: self.actions.len() as usize,
                        },
                    )
                } else {
                    action::first_rule_fault(self.actions)
                },
            ),
        )
    }

    /// The rules of action as a field: absent where there are none.
    pub open spec fn actions_field(self, actions: Seq<u8>) -> Option<Seq<u8>> {
        if self.actions.len() == 0 {
            None
        } else {
            Some(actions)
        }
    }

    /// The records of the body, where the entries and the rules have the given bytes.
    pub open spec fn recs(self, entries: Seq<u8>, actions: Seq<u8>) -> Seq<Rec> {
        let rs = Seq::<Rec>::empty();
        let rs = rs.push((link_tag::GRANT_ID, self.grant_id));
        let rs = rs.push((link_tag::PARENT_FPR, self.parent_fpr));
        let rs = rs.push((link_tag::CHILD_FPR, self.child_fpr));
        let rs = rs.push((link_tag::CHILD_KEM, seq![self.child_kem]));
        let rs = rs.push((link_tag::CHILD_PUBLIC, self.child_public));
        let rs = rs.push((link_tag::CHILD_VERIFY, self.child_verify));
        let rs = rs.push((link_tag::ENTRIES, entries));
        let rs = rs.push((link_tag::EXPIRES_AT, bytes::le64s(self.expires_at)));
        let rs = tlv::with_opt(rs, link_tag::TIGHTENING, self.tightening);
        let rs = rs.push((link_tag::DEPTH, seq![self.depth]));
        tlv::with_opt(rs, link_tag::ACTIONS, self.actions_field(actions))
    }
}

/// The bytes of a delegation that are signed. A child without rules of action gets
/// none: the field is absent.
pub open spec fn link_body_bytes(d: DelegationView) -> Result<Seq<u8>, FormatError> {
    match d.fault() {
        Some(e) => Err(e),
        None => match entries_bytes(d.entries) {
            Err(e) => Err(e),
            Ok(entries) => match action::rules_bytes(d.actions) {
                Err(e) => Err(e),
                Ok(actions) => tlv::sealed(d.recs(entries, actions)),
            },
        },
    }
}

/// The rule for the fields of a delegation.
pub struct DelegationSchema {
    /// What the codec of policies has against the tightening.
    pub policy: Option<FormatError>,
}

impl Schema for DelegationSchema {
    open spec fn fault(&self, tag: u16, value: Seq<u8>) -> Option<FormatError> {
        if tag == link_tag::GRANT_ID {
            tlv::length_fault(tag, value, 16)
        } else if tag == link_tag::PARENT_FPR || tag == link_tag::CHILD_FPR
            || tag == link_tag::CHILD_VERIFY {
            tlv::length_fault(tag, value, 32)
        } else if tag == link_tag::CHILD_KEM || tag == link_tag::DEPTH {
            tlv::length_fault(tag, value, 1)
        } else if tag == link_tag::CHILD_PUBLIC {
            None
        } else if tag == link_tag::ENTRIES {
            entries_bytes_fault(value, tag)
        } else if tag == link_tag::EXPIRES_AT {
            tlv::length_fault(tag, value, 8)
        } else if tag == link_tag::TIGHTENING {
            self.policy
        } else if tag == link_tag::ACTIONS {
            action::rules_fault(value)
        } else {
            unknown::unknown_fault(tag)
        }
    }

    fn check(&self, tag: u16, value: &[u8]) -> (r: Option<FormatError>) {
        if tag == link_tag::GRANT_ID {
            check_length(tag, value, 16)
        } else if tag == link_tag::PARENT_FPR || tag == link_tag::CHILD_FPR
            || tag == link_tag::CHILD_VERIFY {
            check_length(tag, value, 32)
        } else if tag == link_tag::CHILD_KEM || tag == link_tag::DEPTH {
            check_length(tag, value, 1)
        } else if tag == link_tag::CHILD_PUBLIC {
            None
        } else if tag == link_tag::ENTRIES {
            check_entries_bytes(value, tag)
        } else if tag == link_tag::EXPIRES_AT {
            check_length(tag, value, 8)
        } else if tag == link_tag::TIGHTENING {
            self.policy
        } else if tag == link_tag::ACTIONS {
            check_rules(value)
        } else {
            unknown_verdict(tag)
        }
    }
}

/// The delegation that the records hold, or the first field that is absent.
pub open spec fn delegation_in(
    rs: Seq<Rec>,
    signature: Seq<u8>,
) -> Result<DelegationView, FormatError> {
    if tlv::lookup(rs, link_tag::GRANT_ID) is None {
        Err(FormatError::MissingField { tag: link_tag::GRANT_ID })
    } else if tlv::lookup(rs, link_tag::PARENT_FPR) is None {
        Err(FormatError::MissingField { tag: link_tag::PARENT_FPR })
    } else if tlv::lookup(rs, link_tag::CHILD_FPR) is None {
        Err(FormatError::MissingField { tag: link_tag::CHILD_FPR })
    } else if tlv::lookup(rs, link_tag::CHILD_KEM) is None {
        Err(FormatError::MissingField { tag: link_tag::CHILD_KEM })
    } else if tlv::lookup(rs, link_tag::CHILD_PUBLIC) is None {
        Err(FormatError::MissingField { tag: link_tag::CHILD_PUBLIC })
    } else if tlv::lookup(rs, link_tag::CHILD_VERIFY) is None {
        Err(FormatError::MissingField { tag: link_tag::CHILD_VERIFY })
    } else if tlv::lookup(rs, link_tag::ENTRIES) is None {
        Err(FormatError::MissingField { tag: link_tag::ENTRIES })
    } else if tlv::lookup(rs, link_tag::EXPIRES_AT) is None {
        Err(FormatError::MissingField { tag: link_tag::EXPIRES_AT })
    } else if tlv::lookup(rs, link_tag::DEPTH) is None {
        Err(FormatError::MissingField { tag: link_tag::DEPTH })
    } else {
        Ok(
            DelegationView {
                grant_id: tlv::lookup(rs, link_tag::GRANT_ID)->0,
                parent_fpr: tlv::lookup(rs, link_tag::PARENT_FPR)->0,
                child_fpr: tlv::lookup(rs, link_tag::CHILD_FPR)->0,
                child_kem: tlv::lookup(rs, link_tag::CHILD_KEM)->0[0],
                child_public: tlv::lookup(rs, link_tag::CHILD_PUBLIC)->0,
                child_verify: tlv::lookup(rs, link_tag::CHILD_VERIFY)->0,
                entries: entries_of(tlv::lookup(rs, link_tag::ENTRIES)->0, link_tag::ENTRIES)->Ok_0,
                expires_at: bytes::num64s(tlv::lookup(rs, link_tag::EXPIRES_AT)->0),
                tightening: tlv::lookup(rs, link_tag::TIGHTENING),
                depth: tlv::lookup(rs, link_tag::DEPTH)->0[0],
                actions: match tlv::lookup(rs, link_tag::ACTIONS) {
                    Some(v) => action::rules_of(v)->Ok_0,
                    None => Seq::empty(),
                },
                signature: signature,
            },
        )
    }
}

/// The delegation that a body holds under a signature. `policy` is what the codec
/// of policies has against its tightening.
pub open spec fn link_body_of(
    body: Seq<u8>,
    signature: Seq<u8>,
    policy: Option<FormatError>,
) -> Result<DelegationView, FormatError> {
    match tlv::read(DelegationSchema { policy }, body) {
        Err(e) => Err(e),
        Ok(rs) => match delegation_in(rs, signature) {
            Err(e) => Err(e),
            Ok(d) => match d.fault() {
                Some(e) => Err(e),
                None => Ok(d),
            },
        },
    }
}

/// An optional field that is not known changes nothing in the delegation that is read.
pub proof fn delegation_reads_past_unknown_fields(
    body: Seq<u8>,
    signature: Seq<u8>,
    policy: Option<FormatError>,
)
    requires
        link_body_of(body, signature, policy) is Ok,
    ensures
        link_body_of(unknown::without_unknown(body, set![link_tag::ACTIONS]), signature, policy)
            == link_body_of(body, signature, policy),
{
    unknown::unknown_records_are_skipped(
        DelegationSchema { policy },
        body,
        set![link_tag::ACTIONS],
    );
}

/// The delegation that the bytes hold, where `signed` says whether the signature
/// holds under the key of the parent. Nothing is read of a body that is not signed.
pub open spec fn opened_link(b: Seq<u8>, signed: bool, policy: Option<FormatError>) -> Result<
    DelegationView,
    FormatError,
> {
    if b.len() < SIGNATURE_LEN || !signed {
        Err(FormatError::BadHeaderSignature)
    } else {
        link_body_of(b.skip(SIGNATURE_LEN as int), b.take(SIGNATURE_LEN as int), policy)
    }
}

/// Under a signature that does not hold, no body is told from another: each is refused alike.
pub proof fn unsigned_delegation_is_refused(b: Seq<u8>, policy: Option<FormatError>)
    ensures
        opened_link(b, false, policy)
            == Err::<DelegationView, FormatError>(FormatError::BadHeaderSignature),
{
}

/// A delegation that was opened was read from the very body that its signature was checked over.
pub proof fn delegation_is_read_from_what_was_signed(
    b: Seq<u8>,
    parent_verify: Seq<u8>,
    policy: Option<FormatError>,
)
    requires
        opened_link(b, true, policy) is Ok,
    ensures
        transcript::claimed(Label::Delegation, b, parent_verify) is Ok,
        ({
            let claim = transcript::claimed(Label::Delegation, b, parent_verify)->Ok_0;
            opened_link(b, true, policy)
                == link_body_of(claim.transcript.body, claim.signature, policy)
        }),
{
}

/// A signed delegation survives being written and read back.
pub proof fn delegation_round_trip(d: DelegationView)
    requires
        d.sized(),
        link_body_bytes(d) is Ok,
    ensures
        opened_link(action::signed_bytes(d.signature, link_body_bytes(d))->Ok_0, true, None)
            == Ok::<
            DelegationView,
            FormatError,
        >(d),
{
    broadcast use {tlv::group_records, bytes::group_numbers};

    let entries = entries_bytes(d.entries)->Ok_0;
    let actions = action::rules_bytes(d.actions)->Ok_0;
    entries_round_trip(d.entries, link_tag::ENTRIES);
    action::rules_round_trip(d.actions);
    if d.actions.len() == 0 {
        assert(d.actions =~= Seq::empty());
    }
    action::signature_parts(d.signature, link_body_bytes(d)->Ok_0);
    tlv::read_wire(DelegationSchema { policy: None }, d.recs(entries, actions));
}

/// The first objection to a delegation.
fn check_delegation(d: &Delegation) -> (r: Option<FormatError>)
    ensures
        r == d@.fault(),
{
    if let Some(e) = check_holder_name(
        &d.child_fpr,
        d.child_kem,
        d.child_public.as_slice(),
        link_tag::CHILD_KEM,
        link_tag::CHILD_FPR,
    ) {
        return Some(e);
    }
    if let Some(e) = check_entries(&d.entries, link_tag::ENTRIES) {
        return Some(e);
    }
    if d.depth > MAX_GRANT_DEPTH {
        return Some(bad(link_tag::DEPTH, d.depth as usize));
    }
    if d.actions.len() > MAX_ACTION_RULES {
        return Some(bad(link_tag::ACTIONS, d.actions.len()));
    }
    check_each_rule(&d.actions)
}

/// The bytes of a delegation that are signed.
pub fn delegation_body(link: &Delegation) -> (r: Result<Vec<u8>, FormatError>)
    ensures
        tlv::agrees(r, link_body_bytes(link@)),
{
    broadcast use {tlv::group_records, bytes::group_numbers};

    refuse(check_delegation(link))?;
    let entries = encode_entries(&link.entries)?;
    let actions = encode_rules(&link.actions)?;
    let mut w = TlvWriter::new();
    w.put(link_tag::GRANT_ID, link.grant_id.as_slice())?;
    w.put(link_tag::PARENT_FPR, link.parent_fpr.as_slice())?;
    w.put(link_tag::CHILD_FPR, link.child_fpr.as_slice())?;
    w.put(link_tag::CHILD_KEM, one(link.child_kem).as_slice())?;
    w.put(link_tag::CHILD_PUBLIC, link.child_public.as_slice())?;
    w.put(link_tag::CHILD_VERIFY, link.child_verify.as_slice())?;
    w.put(link_tag::ENTRIES, entries.as_slice())?;
    w.put(link_tag::EXPIRES_AT, write64s(link.expires_at).as_slice())?;
    if let Some(policy) = &link.tightening {
        w.put(link_tag::TIGHTENING, policy.as_slice())?;
    }
    w.put(link_tag::DEPTH, one(link.depth).as_slice())?;
    if link.actions.len() > 0 {
        w.put(link_tag::ACTIONS, actions.as_slice())?;
    }
    Ok(w.finish())
}

/// What the parent signs of a delegation. The label is another than that of a grant, so
/// who received a grant cannot issue one.
pub fn delegation_transcript(body: &[u8]) -> (r: Transcript)
    ensures
        r@ == (TranscriptView { label: Label::Delegation, body: body@ }),
{
    Transcript::new(Label::Delegation, body)
}

/// Write a signed delegation.
pub fn encode_delegation(link: &Delegation) -> (r: Result<Vec<u8>, FormatError>)
    ensures
        tlv::agrees(r, action::signed_bytes(link@.signature, link_body_bytes(link@))),
{
    let body = delegation_body(link)?;
    Ok(with_signature(&link.signature, body.as_slice()))
}

/// Read the body of a delegation under a signature.
fn decode_delegation_body(
    body: &[u8],
    signature: [u8; SIGNATURE_LEN],
    policy: Option<FormatError>,
) -> (r: Result<Delegation, FormatError>)
    ensures
        tlv::agrees(r, link_body_of(body@, signature@, policy)),
{
    let fs = read_fields(&DelegationSchema { policy }, body)?;
    let grant_id = need(&fs, link_tag::GRANT_ID)?;
    let parent_fpr = need(&fs, link_tag::PARENT_FPR)?;
    let child_fpr = need(&fs, link_tag::CHILD_FPR)?;
    let child_kem = need(&fs, link_tag::CHILD_KEM)?;
    let child_public = need(&fs, link_tag::CHILD_PUBLIC)?;
    let child_verify = need(&fs, link_tag::CHILD_VERIFY)?;
    let entries = need(&fs, link_tag::ENTRIES)?;
    let expires_at = need(&fs, link_tag::EXPIRES_AT)?;
    let depth = need(&fs, link_tag::DEPTH)?;
    let actions = match find(&fs, link_tag::ACTIONS) {
        Some(v) => decode_rules(v)?,
        None => Vec::new(),
    };
    assert(actions@.len() == 0 ==> action::rule_views(actions@) =~= Seq::empty());
    let link = Delegation {
        grant_id: array(grant_id),
        parent_fpr: array(parent_fpr),
        child_fpr: array(child_fpr),
        child_kem: child_kem[0],
        child_public: owned(child_public),
        child_verify: array(child_verify),
        entries: decode_entries(entries, link_tag::ENTRIES)?,
        expires_at: read64s(expires_at),
        tightening: match find(&fs, link_tag::TIGHTENING) {
            Some(v) => Some(owned(v)),
            None => None,
        },
        depth: depth[0],
        actions,
        signature,
    };
    refuse(check_delegation(&link))?;
    Ok(link)
}

/// Read a delegation whoever signed it: for who keeps what was checked before.
/// `policy` is what the codec of policies has against its tightening.
pub fn peek_delegation(bytes: &[u8], policy: Option<FormatError>) -> (r: Result<
    Delegation,
    FormatError,
>)
    ensures
        tlv::agrees(r, opened_link(bytes@, true, policy)),
{
    let (signature, body) = split_signature(bytes)?;
    decode_delegation_body(body, signature, policy)
}

/// The signature that is to be checked before a delegation is read.
pub fn delegation_claim(bytes: &[u8], parent_verify: &[u8; 32]) -> (r: Result<Claim, FormatError>)
    ensures
        tlv::agrees(r, transcript::claimed(Label::Delegation, bytes@, parent_verify@)),
{
    transcript::claim(Label::Delegation, bytes, parent_verify)
}

/// The tightening in the body of a delegation, in the bytes of the codec of policies: what the
/// codec is asked about before the delegation is read.
pub fn delegation_tightening_in(body: &[u8]) -> (r: Option<Vec<u8>>)
    ensures
        match r {
            Some(v) => tlv::lookup(tlv::scan(body@, None).0, link_tag::TIGHTENING) == Some(v@),
            None => tlv::lookup(tlv::scan(body@, None).0, link_tag::TIGHTENING) is None,
        },
{
    value_in(body, link_tag::TIGHTENING)
}

/// Read a signed delegation. `signed` says whether the signature over the body (see
/// [`delegation_claim`]) holds under the key of the parent. `policy` is what the codec of
/// policies has against the tightening (see [`delegation_tightening_in`]).
pub fn decode_delegation(bytes: &[u8], signed: bool, policy: Option<FormatError>) -> (r: Result<
    Delegation,
    FormatError,
>)
    ensures
        tlv::agrees(r, opened_link(bytes@, signed, policy)),
{
    let (signature, body) = split_signature(bytes)?;
    if !signed {
        return Err(FormatError::BadHeaderSignature);
    }
    decode_delegation_body(body, signature, policy)
}

/// Why a chain is refused. The index is that of the link where it breaks.
#[derive(Debug, Clone, PartialEq, Eq)]
pub enum ChainRefusal {
    /// The grant cannot be read, or its author did not sign it.
    BadGrant,
    /// The link cannot be read, or its parent did not sign it.
    BadLink { index: usize },
    /// The link names a file that its parent has not.
    NotASubset { index: usize },
    /// The link outlives its parent.
    OutlivesParent { index: usize },
    /// The parent may not delegate that deep.
    DepthExhausted { index: usize },
    /// The link names another parent or another grant.
    WrongParent { index: usize },
    /// By the given clock it is too late.
    Expired,
    /// By the given clock it is too early.
    NotYetValid,
    /// The grant of actions cannot be read, or the author did not sign it.
    BadActionGrant,
    /// The grant of actions belongs to another grant of files.
    ActionsWrongGrant,
    /// The grant of actions outlives the grant of files.
    ActionsOutliveGrant,
    /// The parent has no rule for that kind of action.
    ActionNotGranted { index: usize },
    /// The link widens a rule of its parent.
    ActionWidens { index: usize, why: ActionRefusal },
}

impl ChainRefusal {
    /// The reason in words.
    pub open spec fn says(self) -> Seq<char> {
        match self {
            ChainRefusal::BadGrant =>
                "грант не принят: подпись автора не сошлась или документ не той формы"@,
            ChainRefusal::BadLink { index } => "звено "@ + text::digits(index as nat)
                + " не принято: подпись родителя не сошлась или документ не той формы"@,
            ChainRefusal::NotASubset { index } => "звено "@ + text::digits(index as nat)
                + " называет файл, которого нет у родителя"@,
            ChainRefusal::OutlivesParent { index } => "звено "@ + text::digits(index as nat)
                + " живёт дольше родителя"@,
            ChainRefusal::DepthExhausted { index } => "звено "@ + text::digits(index as nat)
                + " лишнее: глубина делегирования исчерпана"@,
            ChainRefusal::WrongParent { index } => "звено "@ + text::digits(index as nat)
                + " называет другого родителя или другой грант"@,
            ChainRefusal::Expired =>
                "срок гранта или звена уже истёк"@,
            ChainRefusal::NotYetValid =>
                "срок гранта ещё не начался"@,
            ChainRefusal::BadActionGrant =>
                "грант действий не принят: подпись автора не сошлась или документ не той формы"@,
            ChainRefusal::ActionsWrongGrant =>
                "грант действий привязан к другому файловому гранту"@,
            ChainRefusal::ActionsOutliveGrant =>
                "грант действий живёт дольше файлового гранта, к которому привязан"@,
            ChainRefusal::ActionNotGranted { index } => "звено "@ + text::digits(index as nat)
                + " берёт вид действия, которого нет у родителя"@,
            ChainRefusal::ActionWidens { index, why } => "звено "@ + text::digits(index as nat)
                + " расширяет правило действия: "@ + why.says(),
        }
    }

    /// The reason in words.
    pub fn text(&self) -> (r: String)
        ensures
            r@ == self.says(),
    {
        match self {
            ChainRefusal::BadGrant =>
                "грант не принят: подпись автора не сошлась или документ не той формы".to_owned(),
            ChainRefusal::BadLink { index } => "звено ".to_owned().concat(
                decimal(*index as u64).as_str(),
            ).concat(" не принято: подпись родителя не сошлась или документ не той формы"),
            ChainRefusal::NotASubset { index } => "звено ".to_owned().concat(
                decimal(*index as u64).as_str(),
            ).concat(" называет файл, которого нет у родителя"),
            ChainRefusal::OutlivesParent { index } => "звено ".to_owned().concat(
                decimal(*index as u64).as_str(),
            ).concat(" живёт дольше родителя"),
            ChainRefusal::DepthExhausted { index } => "звено ".to_owned().concat(
                decimal(*index as u64).as_str(),
            ).concat(" лишнее: глубина делегирования исчерпана"),
            ChainRefusal::WrongParent { index } => "звено ".to_owned().concat(
                decimal(*index as u64).as_str(),
            ).concat(" называет другого родителя или другой грант"),
            ChainRefusal::Expired =>
                "срок гранта или звена уже истёк".to_owned(),
            ChainRefusal::NotYetValid =>
                "срок гранта ещё не начался".to_owned(),
            ChainRefusal::BadActionGrant =>
                "грант действий не принят: подпись автора не сошлась или документ не той формы".to_owned(),
            ChainRefusal::ActionsWrongGrant =>
                "грант действий привязан к другому файловому гранту".to_owned(),
            ChainRefusal::ActionsOutliveGrant =>
                "грант действий живёт дольше файлового гранта, к которому привязан".to_owned(),
            ChainRefusal::ActionNotGranted { index } => "звено ".to_owned().concat(
                decimal(*index as u64).as_str(),
            ).concat(" берёт вид действия, которого нет у родителя"),
            ChainRefusal::ActionWidens { index, why } => "звено ".to_owned().concat(
                decimal(*index as u64).as_str(),
            ).concat(" расширяет правило действия: ").concat(why.text().as_str()),
        }
    }
}

/// A signed document, with what its bytes alone do not tell.
pub struct Checked<'a> {
    pub bytes: &'a [u8],
    /// The key under which the signature over the body holds, where it does.
    pub signer: Option<[u8; 32]>,
    /// What the codec of policies has against the tightening.
    pub policy: Option<FormatError>,
}

/// What is known of a signed document.
pub struct CheckedView {
    pub bytes: Seq<u8>,
    pub signer: Option<Seq<u8>>,
    pub policy: Option<FormatError>,
}

impl<'a> View for Checked<'a> {
    type V = CheckedView;

    open spec fn view(&self) -> CheckedView {
        CheckedView {
            bytes: self.bytes@,
            signer: match self.signer {
                Some(k) => Some(k@),
                None => None,
            },
            policy: self.policy,
        }
    }
}

impl<'a> Checked<'a> {
    /// The signature holds under the key.
    fn signed_by(&self, key: &[u8; 32]) -> (r: bool)
        ensures
            r == (self@.signer == Some(key@)),
    {
        match &self.signer {
            Some(k) => same(k.as_slice(), key.as_slice()),
            None => false,
        }
    }
}

/// What the last holder of a chain may do.
#[derive(Debug, Clone, PartialEq, Eq)]
pub struct ChainFacts {
    pub grant_id: [u8; 16],
    pub holder_fpr: [u8; 32],
    /// The key by which further links are checked.
    pub holder_verify: [u8; 32],
    pub files: Vec<[u8; 16]>,
    pub expires_at: i64,
    /// Every tightening of the chain, the first first. All of them bind.
    pub tightening: Vec<Vec<u8>>,
    pub depth_left: u8,
    /// The rules of action of the last holder. Without a grant of actions there are
    /// none, whatever the links say.
    pub actions: Vec<ActionRule>,
}

/// What the last holder of a chain may do.
pub struct ChainFactsView {
    pub grant_id: Seq<u8>,
    pub holder_fpr: Seq<u8>,
    pub holder_verify: Seq<u8>,
    pub files: Seq<Seq<u8>>,
    pub expires_at: i64,
    pub tightening: Seq<Seq<u8>>,
    pub depth_left: u8,
    pub actions: Seq<RuleView>,
}

impl View for ChainFacts {
    type V = ChainFactsView;

    open spec fn view(&self) -> ChainFactsView {
        ChainFactsView {
            grant_id: self.grant_id@,
            holder_fpr: self.holder_fpr@,
            holder_verify: self.holder_verify@,
            files: bytes::arrays(self.files@),
            expires_at: self.expires_at,
            tightening: bytes::blobs(self.tightening@),
            depth_left: self.depth_left,
            actions: action::rule_views(self.actions@),
        }
    }
}

/// The first rule for a kind of action.
pub open spec fn first_of_kind(rules: Seq<RuleView>, kind: ActionKind) -> Option<RuleView>
    decreases rules.len(),
{
    if rules.len() == 0 {
        None
    } else {
        match first_of_kind(rules.drop_last(), kind) {
            Some(r) => Some(r),
            None => if rules.last().kind == kind {
                Some(rules.last())
            } else {
                None
            },
        }
    }
}

/// Some rule of the parent is not widened.
pub open spec fn covered(parents: Seq<RuleView>, child: RuleView) -> bool {
    exists|i: int| 0 <= i < parents.len() && action::wider(child, #[trigger] parents[i]) is None
}

/// The objection to handing a rule on: the parent has none for the kind, or each
/// that it has is widened. The reason is then that of the first.
pub open spec fn child_refusal(parents: Seq<RuleView>, child: RuleView, index: usize) -> Option<
    ChainRefusal,
> {
    match first_of_kind(parents, child.kind) {
        None => Some(ChainRefusal::ActionNotGranted { index }),
        Some(first) => if covered(parents, child) {
            None
        } else {
            Some(ChainRefusal::ActionWidens { index, why: action::wider(child, first)->0 })
        },
    }
}

/// The first objection to handing rules on.
pub open spec fn narrow_refusal(
    parents: Seq<RuleView>,
    children: Seq<RuleView>,
    index: usize,
) -> Option<ChainRefusal>
    decreases children.len(),
{
    if children.len() == 0 {
        None
    } else {
        match narrow_refusal(parents, children.drop_last(), index) {
            Some(e) => Some(e),
            None => child_refusal(parents, children.last(), index),
        }
    }
}

proof fn first_of_kind_is_found(rules: Seq<RuleView>, i: int)
    requires
        0 <= i < rules.len(),
    ensures
        first_of_kind(rules, rules[i].kind) is Some,
    decreases rules.len(),
{
    if i < rules.len() - 1 {
        assert(rules.drop_last()[i] == rules[i]);
        first_of_kind_is_found(rules.drop_last(), i);
    }
}

/// A rule is handed on if and only if some rule of the parent is not widened by it.
pub proof fn child_refusal_is_none_where_the_child_is_covered(
    parents: Seq<RuleView>,
    child: RuleView,
    index: usize,
)
    ensures
        child_refusal(parents, child, index) is None <==> covered(parents, child),
{
    if covered(parents, child) {
        let i = choose|i: int|
            0 <= i < parents.len() && action::wider(child, #[trigger] parents[i]) is None;
        first_of_kind_is_found(parents, i);
    }
}

/// A list of rules passes exactly where every child is covered by some parent, wherever the
/// parent stands.
pub proof fn narrow_refusal_is_none_where_every_child_is_covered(
    parents: Seq<RuleView>,
    children: Seq<RuleView>,
    index: usize,
)
    ensures
        narrow_refusal(parents, children, index) is None <==> (forall|i: int|
            0 <= i < children.len() ==> covered(parents, #[trigger] children[i])),
    decreases children.len(),
{
    if children.len() > 0 {
        let head = children.drop_last();
        narrow_refusal_is_none_where_every_child_is_covered(parents, head, index);
        child_refusal_is_none_where_the_child_is_covered(parents, children.last(), index);
        if narrow_refusal(parents, children, index) is None {
            assert forall|i: int| 0 <= i < children.len() implies covered(
                parents,
                #[trigger] children[i],
            ) by {
                if i < children.len() - 1 {
                    assert(head[i] == children[i]);
                }
            }
        }
        if forall|i: int| 0 <= i < children.len() ==> covered(parents, #[trigger] children[i]) {
            assert forall|i: int| 0 <= i < head.len() implies covered(
                parents,
                #[trigger] head[i],
            ) by {
                assert(head[i] == children[i]);
            }
            assert(children.last() == children[children.len() - 1]);
        }
    }
}

/// The order in which the parent holds its rules never decides whether rules are handed
/// on, nor does a rule that it holds twice.
pub proof fn narrow_refusal_is_blind_to_the_order_of_parents(
    parents: Seq<RuleView>,
    others: Seq<RuleView>,
    children: Seq<RuleView>,
    index: usize,
)
    requires
        forall|r: RuleView| #[trigger] parents.contains(r) <==> others.contains(r),
    ensures
        narrow_refusal(parents, children, index) is None <==> narrow_refusal(
            others,
            children,
            index,
        ) is None,
{
    narrow_refusal_is_none_where_every_child_is_covered(parents, children, index);
    narrow_refusal_is_none_where_every_child_is_covered(others, children, index);
    assert forall|c: RuleView| #[trigger] covered(parents, c) <==> covered(others, c) by {
        if covered(parents, c) {
            let i = choose|i: int|
                0 <= i < parents.len() && action::wider(c, #[trigger] parents[i]) is None;
            assert(parents.contains(parents[i]));
            let j = others.index_of(parents[i]);
            assert(action::wider(c, others[j]) is None);
        }
        if covered(others, c) {
            let i = choose|i: int|
                0 <= i < others.len() && action::wider(c, #[trigger] others[i]) is None;
            assert(others.contains(others[i]));
            assert(parents.contains(others[i]));
            let j = parents.index_of(others[i]);
            assert(action::wider(c, parents[j]) is None);
        }
    }
}

/// Every file of the first list is in the second.
pub open spec fn subset(a: Seq<Seq<u8>>, b: Seq<Seq<u8>>) -> bool {
    forall|i: int| 0 <= i < a.len() ==> b.contains(#[trigger] a[i])
}

/// A tightening joins those that bind already.
pub open spec fn tightened(policies: Seq<Seq<u8>>, tightening: Option<Seq<u8>>) -> Seq<Seq<u8>> {
    match tightening {
        Some(p) => policies.push(p),
        None => policies,
    }
}

/// The rules of action at the root of a chain.
pub open spec fn root_actions(
    author_key: Seq<u8>,
    grant: AgentGrantView,
    actions: Option<CheckedView>,
    now: i64,
) -> Result<Seq<RuleView>, ChainRefusal> {
    match actions {
        None => Ok(Seq::empty()),
        Some(a) => match action::opened_grant(a.bytes, a.signer == Some(author_key), author_key) {
            Err(_) => Err(ChainRefusal::BadActionGrant),
            Ok(rooted) => if rooted.grant_id != grant.grant_id {
                Err(ChainRefusal::ActionsWrongGrant)
            } else if rooted.expires_at > grant.expires_at {
                Err(ChainRefusal::ActionsOutliveGrant)
            } else if now < rooted.issued_at {
                Err(ChainRefusal::NotYetValid)
            } else if now > rooted.expires_at {
                Err(ChainRefusal::Expired)
            } else {
                Ok(rooted.rules)
            },
        },
    }
}

/// What the door of a grant may do.
pub open spec fn chain_root(
    author_key: Seq<u8>,
    grant: CheckedView,
    actions: Option<CheckedView>,
    now: i64,
) -> Result<ChainFactsView, ChainRefusal> {
    match opened_agent(grant.bytes, grant.signer == Some(author_key), author_key, grant.policy) {
        Err(_) => Err(ChainRefusal::BadGrant),
        Ok(g) => if now < g.issued_at {
            Err(ChainRefusal::NotYetValid)
        } else if now > g.expires_at {
            Err(ChainRefusal::Expired)
        } else {
            match root_actions(author_key, g, actions, now) {
                Err(e) => Err(e),
                Ok(rules) => Ok(
                    ChainFactsView {
                        grant_id: g.grant_id,
                        holder_fpr: g.door_fpr,
                        holder_verify: g.door_verify,
                        files: files_of(g.entries),
                        expires_at: g.expires_at,
                        tightening: tightened(Seq::empty(), g.tightening),
                        depth_left: g.max_depth,
                        actions: rules,
                    },
                ),
            }
        },
    }
}

/// What the child of a link may do, where its parent may do the given. `rooted`
/// says whether there is a grant of actions.
pub open spec fn chain_step(
    parent: ChainFactsView,
    link: CheckedView,
    index: usize,
    rooted: bool,
    now: i64,
) -> Result<ChainFactsView, ChainRefusal> {
    match opened_link(link.bytes, link.signer == Some(parent.holder_verify), link.policy) {
        Err(_) => Err(ChainRefusal::BadLink { index }),
        Ok(d) => if d.grant_id != parent.grant_id || d.parent_fpr != parent.holder_fpr {
            Err(ChainRefusal::WrongParent { index })
        } else if parent.depth_left == 0 || d.depth >= parent.depth_left {
            Err(ChainRefusal::DepthExhausted { index })
        } else if !subset(files_of(d.entries), parent.files) {
            Err(ChainRefusal::NotASubset { index })
        } else if d.expires_at > parent.expires_at {
            Err(ChainRefusal::OutlivesParent { index })
        } else if now > d.expires_at {
            Err(ChainRefusal::Expired)
        } else if rooted && narrow_refusal(parent.actions, d.actions, index) is Some {
            Err(narrow_refusal(parent.actions, d.actions, index)->0)
        } else {
            Ok(
                ChainFactsView {
                    grant_id: parent.grant_id,
                    holder_fpr: d.child_fpr,
                    holder_verify: d.child_verify,
                    files: files_of(d.entries),
                    expires_at: d.expires_at,
                    tightening: tightened(parent.tightening, d.tightening),
                    depth_left: d.depth,
                    actions: if rooted {
                        d.actions
                    } else {
                        Seq::empty()
                    },
                },
            )
        },
    }
}

/// What the last holder of a chain may do: the grant first, and then link by link.
pub open spec fn chain(
    author_key: Seq<u8>,
    grant: CheckedView,
    links: Seq<CheckedView>,
    actions: Option<CheckedView>,
    now: i64,
) -> Result<ChainFactsView, ChainRefusal>
    decreases links.len(),
{
    if links.len() == 0 {
        chain_root(author_key, grant, actions, now)
    } else {
        match chain(author_key, grant, links.drop_last(), actions, now) {
            Err(e) => Err(e),
            Ok(parent) => chain_step(
                parent,
                links.last(),
                (links.len() - 1) as usize,
                actions is Some,
                now,
            ),
        }
    }
}

/// What is known of several documents.
pub open spec fn checked_views(xs: Seq<Checked>) -> Seq<CheckedView> {
    xs.map_values(|x: Checked| x@)
}

/// What is known of a document that may be absent.
pub open spec fn opt_checked(x: Option<&Checked>) -> Option<CheckedView> {
    match x {
        Some(x) => Some(x@),
        None => None,
    }
}

/// The child of a link may do no more than its parent: no other file, no longer, and
/// strictly less deep. Every tightening stays.
pub proof fn link_only_narrows(
    parent: ChainFactsView,
    link: CheckedView,
    index: usize,
    rooted: bool,
    now: i64,
)
    requires
        chain_step(parent, link, index, rooted, now) is Ok,
    ensures
        ({
            let child = chain_step(parent, link, index, rooted, now)->Ok_0;
            &&& link.signer == Some(parent.holder_verify)
            &&& child.grant_id == parent.grant_id
            &&& subset(child.files, parent.files)
            &&& now <= child.expires_at <= parent.expires_at
            &&& child.depth_left < parent.depth_left
            &&& parent.tightening.is_prefix_of(child.tightening)
            &&& !rooted ==> child.actions.len() == 0
            &&& rooted ==> forall|i: int|
                0 <= i < child.actions.len()
                    ==> covered(parent.actions, #[trigger] child.actions[i])
        }),
{
    let d = opened_link(link.bytes, link.signer == Some(parent.holder_verify), link.policy)->Ok_0;
    narrow_refusal_is_none_where_every_child_is_covered(parent.actions, d.actions, index);
}

/// A link to whom actions are handed on has exactly the rules that the link names, in
/// their order, and it has them if and only if each is within some rule of the parent,
/// where nothing else is held against the link.
pub proof fn handed_on_rules_are_those_of_the_link(
    parent: ChainFactsView,
    link: CheckedView,
    index: usize,
    now: i64,
)
    requires
        chain_step(parent, link, index, false, now) is Ok,
    ensures
        ({
            let d = opened_link(
                link.bytes,
                link.signer == Some(parent.holder_verify),
                link.policy,
            )->Ok_0;
            let child = chain_step(parent, link, index, true, now);
            &&& child is Ok <==> (forall|i: int|
                0 <= i < d.actions.len() ==> covered(parent.actions, #[trigger] d.actions[i]))
            &&& child is Ok ==> child->Ok_0.actions == d.actions
        }),
{
    let d = opened_link(link.bytes, link.signer == Some(parent.holder_verify), link.policy)->Ok_0;
    narrow_refusal_is_none_where_every_child_is_covered(parent.actions, d.actions, index);
}

proof fn subset_is_transitive(a: Seq<Seq<u8>>, b: Seq<Seq<u8>>, c: Seq<Seq<u8>>)
    requires
        subset(a, b),
        subset(b, c),
    ensures
        subset(a, c),
{
    assert forall|i: int| 0 <= i < a.len() implies c.contains(#[trigger] a[i]) by {
        let j = choose|j: int| 0 <= j < b.len() && b[j] == a[i];
        assert(c.contains(b[j]));
    }
}

/// The last holder of a chain may do no more than the author granted: none but the
/// granted files, no longer than granted, and each link takes from the depth. The
/// tightening of the grant binds the last holder too.
pub proof fn chain_only_narrows(
    author_key: Seq<u8>,
    grant: CheckedView,
    links: Seq<CheckedView>,
    actions: Option<CheckedView>,
    now: i64,
)
    requires
        chain(author_key, grant, links, actions, now) is Ok,
    ensures
        ({
            let g = opened_agent(
                grant.bytes,
                grant.signer == Some(author_key),
                author_key,
                grant.policy,
            );
            let last = chain(author_key, grant, links, actions, now)->Ok_0;
            &&& g is Ok
            &&& grant.signer == Some(author_key)
            &&& last.grant_id == g->Ok_0.grant_id
            &&& subset(last.files, files_of(g->Ok_0.entries))
            &&& g->Ok_0.issued_at <= now <= last.expires_at <= g->Ok_0.expires_at
            &&& last.depth_left + links.len() <= g->Ok_0.max_depth <= MAX_GRANT_DEPTH
            &&& tightened(Seq::empty(), g->Ok_0.tightening).is_prefix_of(last.tightening)
            &&& actions is None ==> last.actions.len() == 0
        }),
    decreases links.len(),
{
    let g = opened_agent(
        grant.bytes,
        grant.signer == Some(author_key),
        author_key,
        grant.policy,
    )->Ok_0;
    if links.len() == 0 {
        let files = files_of(g.entries);
        assert forall|i: int| 0 <= i < files.len() implies files.contains(#[trigger] files[i]) by {
        }
    } else {
        chain_only_narrows(author_key, grant, links.drop_last(), actions, now);
        let parent = chain(author_key, grant, links.drop_last(), actions, now)->Ok_0;
        let index = (links.len() - 1) as usize;
        link_only_narrows(parent, links.last(), index, actions is Some, now);
        let last = chain(author_key, grant, links, actions, now)->Ok_0;
        subset_is_transitive(last.files, parent.files, files_of(g.entries));
    }
}

/// Every link of an accepted chain is signed with the key of the holder before it.
pub proof fn chain_is_signed(
    author_key: Seq<u8>,
    grant: CheckedView,
    links: Seq<CheckedView>,
    actions: Option<CheckedView>,
    now: i64,
    i: int,
)
    requires
        chain(author_key, grant, links, actions, now) is Ok,
        0 <= i < links.len(),
    ensures
        chain(author_key, grant, links.take(i), actions, now) is Ok,
        links[i].signer == Some(
            chain(author_key, grant, links.take(i), actions, now)->Ok_0.holder_verify,
        ),
    decreases links.len(),
{
    let head = links.drop_last();
    if i == links.len() - 1 {
        assert(links.take(i) =~= head);
        let parent = chain(author_key, grant, head, actions, now)->Ok_0;
        link_only_narrows(parent, links.last(), i as usize, actions is Some, now);
    } else {
        chain_is_signed(author_key, grant, head, actions, now, i);
        assert(head.take(i) =~= links.take(i));
    }
}

/// Every rule of action of the last holder is a rule of the grant of actions, or
/// narrower than one.
pub proof fn chain_actions_only_narrow(
    author_key: Seq<u8>,
    grant: CheckedView,
    links: Seq<CheckedView>,
    actions: CheckedView,
    now: i64,
    i: int,
)
    requires
        chain(author_key, grant, links, Some(actions), now) is Ok,
        0 <= i < chain(author_key, grant, links, Some(actions), now)->Ok_0.actions.len(),
    ensures
        ({
            let root = action::opened_grant(
                actions.bytes,
                actions.signer == Some(author_key),
                author_key,
            );
            let rule = chain(author_key, grant, links, Some(actions), now)->Ok_0.actions[i];
            &&& root is Ok
            &&& root->Ok_0.rules.contains(rule) || covered(root->Ok_0.rules, rule)
        }),
    decreases links.len(),
{
    let root = action::opened_grant(actions.bytes, actions.signer == Some(author_key), author_key);
    if links.len() == 0 {
        } else {
        let parent = chain(author_key, grant, links.drop_last(), Some(actions), now)->Ok_0;
        let index = (links.len() - 1) as usize;
        link_only_narrows(parent, links.last(), index, true, now);
        let last = chain(author_key, grant, links, Some(actions), now)->Ok_0;
        let rule = last.actions[i];
        assert(covered(parent.actions, rule));
        let j = choose|j: int|
            0 <= j < parent.actions.len()
                && action::wider(rule, #[trigger] parent.actions[j]) is None;
        chain_actions_only_narrow(author_key, grant, links.drop_last(), actions, now, j);
        let rules = root->Ok_0.rules;
        if rules.contains(parent.actions[j]) {
            let k = choose|k: int| 0 <= k < rules.len() && rules[k] == parent.actions[j];
            assert(action::wider(rule, rules[k]) is None);
        } else {
            let k = choose|k: int|
                0 <= k < rules.len()
                    && action::wider(parent.actions[j], #[trigger] rules[k]) is None;
            action::narrower_is_transitive(rule, parent.actions[j], rules[k]);
        }
    }
}

proof fn sound_rule(rules: Seq<RuleView>, i: int)
    requires
        action::first_rule_fault(rules) is None,
        0 <= i < rules.len(),
    ensures
        action::rule_fault(rules[i]) is None,
    decreases rules.len(),
{
    if i > 0 {
        sound_rule(rules.drop_first(), i - 1);
    }
}

/// What a rule of the last holder permits, a rule of the grant of actions permits.
pub proof fn chain_permits_no_more(
    author_key: Seq<u8>,
    grant: CheckedView,
    links: Seq<CheckedView>,
    actions: CheckedView,
    now: i64,
    i: int,
    args: ArgsView,
)
    requires
        chain(author_key, grant, links, Some(actions), now) is Ok,
        0 <= i < chain(author_key, grant, links, Some(actions), now)->Ok_0.actions.len(),
        action::within(
            chain(author_key, grant, links, Some(actions), now)->Ok_0.actions[i],
            args,
        ) is None,
    ensures
        ({
            let root = action::opened_grant(
                actions.bytes,
                actions.signer == Some(author_key),
                author_key,
            );
            exists|j: int|
                0 <= j < root->Ok_0.rules.len()
                    && action::within(#[trigger] root->Ok_0.rules[j], args) is None
        }),
{
    let root = action::opened_grant(actions.bytes, actions.signer == Some(author_key), author_key);
    let rule = chain(author_key, grant, links, Some(actions), now)->Ok_0.actions[i];
    let rules = root->Ok_0.rules;
    chain_actions_only_narrow(author_key, grant, links, actions, now, i);
    if rules.contains(rule) {
        let k = choose|k: int| 0 <= k < rules.len() && rules[k] == rule;
        assert(action::within(rules[k], args) is None);
    } else {
        let k = choose|k: int| 0 <= k < rules.len()
            && action::wider(rule, #[trigger] rules[k]) is None;
        action::opened_grant_is_sound(
            actions.bytes,
            actions.signer == Some(author_key),
            author_key,
        );
        sound_rule(rules, k);
        action::narrower_permits_no_more(rule, rules[k], args);
    }
}

proof fn first_of_kind_prefix(rules: Seq<RuleView>, kind: ActionKind, n: int)
    requires
        0 <= n <= rules.len(),
        first_of_kind(rules.take(n), kind) is Some,
    ensures
        first_of_kind(rules, kind) == first_of_kind(rules.take(n), kind),
    decreases rules.len() - n,
{
    if n == rules.len() {
        assert(rules.take(n) =~= rules);
    } else {
        assert(rules.take(n + 1).drop_last() =~= rules.take(n));
        first_of_kind_prefix(rules, kind, n + 1);
    }
}

/// The objection to handing a rule on.
fn check_child(parents: &Vec<ActionRule>, child: &ActionRule, index: usize) -> (r: Option<
    ChainRefusal,
>)
    ensures
        r == child_refusal(action::rule_views(parents@), child@, index),
{
    let ghost all = action::rule_views(parents@);
    let mut first: Option<ActionRefusal> = None;
    let mut i: usize = 0;
    assert(all.take(0) =~= Seq::empty());
    while i < parents.len()
        invariant
            i <= parents@.len(),
            all == action::rule_views(parents@),
            forall|j: int| 0 <= j < i ==> action::wider(child@, #[trigger] all[j]) is Some,
            match first_of_kind(all.take(i as int), child@.kind) {
                Some(p) => first == action::wider(child@, p),
                None => first is None,
            },
            first is Some == first_of_kind(all.take(i as int), child@.kind) is Some,
        decreases parents@.len() - i,
    {
        proof {
            assert(all.take(i as int + 1).drop_last() =~= all.take(i as int));
            assert(all.take(i as int + 1).last() == parents@[i as int]@);
            assert(all[i as int] == parents@[i as int]@);
        }
        if parents[i].kind == child.kind {
            match narrower(child, &parents[i]) {
                Ok(_) => {
                    proof {
                        first_of_kind_prefix(all, child@.kind, i as int + 1);
                    }
                    return None;
                },
                Err(why) => {
                    if first.is_none() {
                        first = Some(why);
                    }
                },
            }
        }
        i = i + 1;
    }
    assert(all.take(i as int) =~= all);
    match first {
        Some(why) => Some(ChainRefusal::ActionWidens { index, why }),
        None => Some(ChainRefusal::ActionNotGranted { index }),
    }
}

proof fn narrow_refusal_prefix(
    parents: Seq<RuleView>,
    children: Seq<RuleView>,
    index: usize,
    n: int,
)
    requires
        0 <= n <= children.len(),
        narrow_refusal(parents, children.take(n), index) is Some,
    ensures
        narrow_refusal(parents, children, index) == narrow_refusal(
            parents,
            children.take(n),
            index,
        ),
    decreases children.len() - n,
{
    if n == children.len() {
        assert(children.take(n) =~= children);
    } else {
        assert(children.take(n + 1).drop_last() =~= children.take(n));
        narrow_refusal_prefix(parents, children, index, n + 1);
    }
}

/// The rules that are handed on: those of the children, in their order. They are handed on
/// exactly where each is within some rule of the parent, whatever the order of the parents.
pub fn narrow_actions(
    parents: &Vec<ActionRule>,
    children: Vec<ActionRule>,
    index: usize,
) -> (r: Result<Vec<ActionRule>, ChainRefusal>)
    ensures
        r is Ok <==> (forall|k: int|
            0 <= k < children@.len() ==> covered(
                action::rule_views(parents@),
                #[trigger] action::rule_views(children@)[k],
            )),
        match r {
            Ok(v) => v == children,
            Err(e) => narrow_refusal(
                action::rule_views(parents@),
                action::rule_views(children@),
                index,
            ) == Some(e),
        },
{
    let ghost all = action::rule_views(children@);
    proof {
        narrow_refusal_is_none_where_every_child_is_covered(
            action::rule_views(parents@),
            all,
            index,
        );
    }
    let mut i: usize = 0;
    assert(all.take(0) =~= Seq::empty());
    while i < children.len()
        invariant
            i <= children@.len(),
            all == action::rule_views(children@),
            narrow_refusal(action::rule_views(parents@), all, index) is None <==> (forall|k: int|
                0 <= k < all.len() ==> covered(action::rule_views(parents@), #[trigger] all[k])),
            narrow_refusal(action::rule_views(parents@), all.take(i as int), index) is None,
        decreases children@.len() - i,
    {
        proof {
            assert(all.take(i as int + 1).drop_last() =~= all.take(i as int));
            assert(all.take(i as int + 1).last() == children@[i as int]@);
        }
        if let Some(e) = check_child(parents, &children[i], index) {
            proof {
                narrow_refusal_prefix(action::rule_views(parents@), all, index, i as int + 1);
            }
            return Err(e);
        }
        i = i + 1;
    }
    assert(all.take(i as int) =~= all);
    Ok(children)
}

/// The files that entries name.
fn file_ids(es: &Vec<Entry>) -> (r: Vec<[u8; 16]>)
    ensures
        bytes::arrays(r@) == files_of(entry_views(es@)),
{
    let mut out: Vec<[u8; 16]> = Vec::new();
    let mut i: usize = 0;
    while i < es.len()
        invariant
            i <= es@.len(),
            out@.len() == i,
            forall|j: int| 0 <= j < i ==> (#[trigger] out@[j])@ == es@[j].file_id@,
        decreases es@.len() - i,
    {
        out.push(es[i].file_id);
        i = i + 1;
    }
    assert(bytes::arrays(out@) =~= files_of(entry_views(es@)));
    out
}

/// The list names the file.
fn names_file(files: &Vec<[u8; 16]>, file_id: &[u8; 16]) -> (r: bool)
    ensures
        r == bytes::arrays(files@).contains(file_id@),
{
    let ghost all = bytes::arrays(files@);
    let mut i: usize = 0;
    while i < files.len()
        invariant
            i <= files@.len(),
            all == bytes::arrays(files@),
            forall|j: int| 0 <= j < i ==> #[trigger] all[j] != file_id@,
        decreases files@.len() - i,
    {
        assert(all[i as int] == files@[i as int]@);
        if same(files[i].as_slice(), file_id.as_slice()) {
            return true;
        }
        i = i + 1;
    }
    false
}

/// The list names every file of the entries.
fn names_files(files: &Vec<[u8; 16]>, es: &Vec<Entry>) -> (r: bool)
    ensures
        r == subset(files_of(entry_views(es@)), bytes::arrays(files@)),
{
    let ghost wanted = files_of(entry_views(es@));
    let mut i: usize = 0;
    while i < es.len()
        invariant
            i <= es@.len(),
            wanted == files_of(entry_views(es@)),
            forall|j: int| 0 <= j < i ==> bytes::arrays(files@).contains(#[trigger] wanted[j]),
        decreases es@.len() - i,
    {
        assert(wanted[i as int] == es@[i as int].file_id@);
        if !names_file(files, &es[i].file_id) {
            return false;
        }
        i = i + 1;
    }
    true
}

/// The rules of action at the root of a chain.
fn open_actions(
    author_key: &[u8; 32],
    grant: &AgentGrant,
    actions: Option<&Checked>,
    now: i64,
) -> (r: Result<Vec<ActionRule>, ChainRefusal>)
    ensures
        ({
            let a = opt_checked(actions);
            match r {
                Ok(rules) => root_actions(author_key@, grant@, a, now) == Ok::<
                    Seq<RuleView>,
                    ChainRefusal,
                >(action::rule_views(rules@)),
                Err(e) => root_actions(author_key@, grant@, a, now) == Err::<
                    Seq<RuleView>,
                    ChainRefusal,
                >(e),
            }
        }),
{
    let given = match actions {
        Some(a) => a,
        None => {
            let none: Vec<ActionRule> = Vec::new();
            assert(action::rule_views(none@) =~= Seq::empty());
            return Ok(none);
        },
    };
    let rooted = match crate::action::decode_grant(
        given.bytes,
        author_key,
        given.signed_by(author_key),
    ) {
        Ok(g) => g,
        Err(_) => {
            return Err(ChainRefusal::BadActionGrant);
        },
    };
    if !same(rooted.grant_id.as_slice(), grant.grant_id.as_slice()) {
        return Err(ChainRefusal::ActionsWrongGrant);
    }
    if rooted.expires_at > grant.expires_at {
        return Err(ChainRefusal::ActionsOutliveGrant);
    }
    if now < rooted.issued_at {
        return Err(ChainRefusal::NotYetValid);
    }
    if now > rooted.expires_at {
        return Err(ChainRefusal::Expired);
    }
    Ok(rooted.rules)
}

/// What the door of a grant may do.
fn open_root(
    author_key: &[u8; 32],
    grant: &Checked,
    actions: Option<&Checked>,
    now: i64,
) -> (r: Result<ChainFacts, ChainRefusal>)
    ensures
        ({
            let a = opt_checked(actions);
            match r {
                Ok(f) => chain_root(author_key@, grant@, a, now) == Ok::<
                    ChainFactsView,
                    ChainRefusal,
                >(f@),
                Err(e) => chain_root(author_key@, grant@, a, now) == Err::<
                    ChainFactsView,
                    ChainRefusal,
                >(e),
            }
        }),
{
    let g = match decode_grant(grant.bytes, author_key, grant.signed_by(author_key), grant.policy) {
        Ok(g) => g,
        Err(_) => {
            return Err(ChainRefusal::BadGrant);
        },
    };
    if now < g.issued_at {
        return Err(ChainRefusal::NotYetValid);
    }
    if now > g.expires_at {
        return Err(ChainRefusal::Expired);
    }
    let rules = open_actions(author_key, &g, actions, now)?;
    let ghost policy = bytes::opt_bytes(g.tightening);
    let files = file_ids(&g.entries);
    let mut tightening: Vec<Vec<u8>> = Vec::new();
    assert(bytes::blobs(tightening@) =~= Seq::empty());
    if let Some(p) = g.tightening {
        tightening.push(p);
        assert(bytes::blobs(tightening@) =~= Seq::empty().push(p@));
    }
    assert(bytes::blobs(tightening@) == tightened(Seq::empty(), policy));
    Ok(
        ChainFacts {
            grant_id: g.grant_id,
            holder_fpr: g.door_fpr,
            holder_verify: g.door_verify,
            files,
            expires_at: g.expires_at,
            tightening,
            depth_left: g.max_depth,
            actions: rules,
        },
    )
}

/// What the child of a link may do.
fn follow(parent: ChainFacts, link: &Checked, index: usize, rooted: bool, now: i64) -> (r: Result<
    ChainFacts,
    ChainRefusal,
>)
    ensures
        match r {
            Ok(f) => chain_step(parent@, link@, index, rooted, now) == Ok::<
                ChainFactsView,
                ChainRefusal,
            >(f@),
            Err(e) => chain_step(parent@, link@, index, rooted, now) == Err::<
                ChainFactsView,
                ChainRefusal,
            >(e),
        },
{
    let d = match decode_delegation(
        link.bytes,
        link.signed_by(&parent.holder_verify),
        link.policy,
    ) {
        Ok(d) => d,
        Err(_) => {
            return Err(ChainRefusal::BadLink { index });
        },
    };
    if !same(d.grant_id.as_slice(), parent.grant_id.as_slice()) || !same(
        d.parent_fpr.as_slice(),
        parent.holder_fpr.as_slice(),
    ) {
        return Err(ChainRefusal::WrongParent { index });
    }
    if parent.depth_left == 0 || d.depth >= parent.depth_left {
        return Err(ChainRefusal::DepthExhausted { index });
    }
    if !names_files(&parent.files, &d.entries) {
        return Err(ChainRefusal::NotASubset { index });
    }
    if d.expires_at > parent.expires_at {
        return Err(ChainRefusal::OutlivesParent { index });
    }
    if now > d.expires_at {
        return Err(ChainRefusal::Expired);
    }
    proof {
        narrow_refusal_is_none_where_every_child_is_covered(
            parent@.actions,
            action::rule_views(d.actions@),
            index,
        );
    }
    let actions = if rooted {
        narrow_actions(&parent.actions, d.actions, index)?
    } else {
        Vec::new()
    };
    let files = file_ids(&d.entries);
    let ghost policy = bytes::opt_bytes(d.tightening);
    let mut tightening = parent.tightening;
    if let Some(p) = d.tightening {
        tightening.push(p);
        assert(bytes::blobs(tightening@) =~= parent@.tightening.push(p@));
    }
    assert(bytes::blobs(tightening@) == tightened(parent@.tightening, policy));
    assert(!rooted ==> action::rule_views(actions@) =~= Seq::empty());
    Ok(
        ChainFacts {
            grant_id: parent.grant_id,
            holder_fpr: d.child_fpr,
            holder_verify: d.child_verify,
            files,
            expires_at: d.expires_at,
            tightening,
            depth_left: d.depth,
            actions,
        },
    )
}

proof fn chain_prefix(
    author_key: Seq<u8>,
    grant: CheckedView,
    links: Seq<CheckedView>,
    actions: Option<CheckedView>,
    now: i64,
    n: int,
)
    requires
        0 <= n <= links.len(),
        chain(author_key, grant, links.take(n), actions, now) is Err,
    ensures
        chain(author_key, grant, links, actions, now) == chain(
            author_key,
            grant,
            links.take(n),
            actions,
            now,
        ),
    decreases links.len() - n,
{
    if n == links.len() {
        assert(links.take(n) =~= links);
    } else {
        assert(links.take(n + 1).drop_last() =~= links.take(n));
        chain_prefix(author_key, grant, links, actions, now, n + 1);
    }
}

/// Check a chain: the grant, and then its links one by one. Each link has to be signed
/// with the key that the document before it names. There are no rules of action.
pub fn verify_grant_chain(
    author_key: &[u8; 32],
    grant: &Checked,
    links: &[Checked],
    now: i64,
) -> (r: Result<ChainFacts, ChainRefusal>)
    ensures
        match r {
            Ok(f) => chain(author_key@, grant@, checked_views(links@), None, now) == Ok::<
                ChainFactsView,
                ChainRefusal,
            >(f@),
            Err(e) => chain(author_key@, grant@, checked_views(links@), None, now) == Err::<
                ChainFactsView,
                ChainRefusal,
            >(e),
        },
{
    verify_grant_chain_with_actions(author_key, grant, links, None, now)
}

/// Check a chain whose root may be a grant of actions too, signed by the same author.
pub fn verify_grant_chain_with_actions(
    author_key: &[u8; 32],
    grant: &Checked,
    links: &[Checked],
    actions: Option<&Checked>,
    now: i64,
) -> (r: Result<ChainFacts, ChainRefusal>)
    ensures
        ({
            let a = opt_checked(actions);
            match r {
                Ok(f) => chain(author_key@, grant@, checked_views(links@), a, now) == Ok::<
                    ChainFactsView,
                    ChainRefusal,
                >(f@),
                Err(e) => chain(author_key@, grant@, checked_views(links@), a, now) == Err::<
                    ChainFactsView,
                    ChainRefusal,
                >(e),
            }
        }),
{
    let ghost all = checked_views(links@);
    let ghost a = opt_checked(actions);
    proof {
        assert(all.take(0) =~= Seq::empty());
    }
    let mut facts = match open_root(author_key, grant, actions, now) {
        Ok(f) => f,
        Err(e) => {
            proof {
                chain_prefix(author_key@, grant@, all, a, now, 0);
            }
            return Err(e);
        },
    };
    let rooted = actions.is_some();
    let mut i: usize = 0;
    while i < links.len()
        invariant
            i <= links@.len(),
            all == checked_views(links@),
            a == opt_checked(actions),
            rooted == a is Some,
            chain(author_key@, grant@, all.take(i as int), a, now) == Ok::<
                ChainFactsView,
                ChainRefusal,
            >(facts@),
        decreases links@.len() - i,
    {
        proof {
            assert(all.take(i as int + 1).drop_last() =~= all.take(i as int));
            assert(all.take(i as int + 1).last() == links@[i as int]@);
        }
        facts = match follow(facts, &links[i], i, rooted, now) {
            Ok(f) => f,
            Err(e) => {
                proof {
                    chain_prefix(author_key@, grant@, all, a, now, i as int + 1);
                }
                return Err(e);
            },
        };
        i = i + 1;
    }
    assert(all.take(i as int) =~= all);
    Ok(facts)
}

} // verus!
