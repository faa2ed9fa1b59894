//! Rules by the attributes of who holds a device: who may get a lease, for how long at
//! most, and who is tightened.
//!
//! | Tag | Field | Value |
//! |---|---|---|
//! | 1 | the longest lease | `i64le` seconds, positive; may be absent |
//! | 2 | the conditions | a stream of conditions; always written, though empty |
//! | 3 | the tightenings | a stream of pairs of condition and profile; only if there are any |
//!
//! A stream is `u32le length ‖ bytes` again and again. A condition is `u8 mode` before the
//! stream of attribute and values. A profile is a policy in the form of its own codec:
//! here it is carried as bytes, and what the codec says of them is told by the caller.

use crate::bytes::{self, append, one, owned, part, read32, read64s, write32, write64s};
use crate::error::{bad, FormatError};
use crate::text::{self, text_of};
use crate::tlv::{
    self, check_length, find, need, read_fields, refuse, value_in, Rec, Schema, TlvWriter,
};
use crate::unknown::{self, unknown_verdict};
use vstd::prelude::*;
use vstd::string::*;
use vstd::utf8::*;

pub mod laws;
pub mod tag;

verus! {

/// The longest name of an attribute or value, in bytes.
pub const MAX_NAME_BYTES: usize = 64;

/// The most values of a condition.
pub const MAX_VALUES: usize = 64;

/// The most conditions of a rule.
pub const MAX_CLAUSES: usize = 16;

/// The most tightenings of a rule.
pub const MAX_TIGHTENINGS: usize = 8;

/// How a condition takes its values.
#[derive(Debug, Clone, Copy, PartialEq, Eq, Structural)]
pub enum Mode {
    /// One of them at least.
    AnyOf,
    /// All of them.
    AllOf,
    /// A value of at least the rank of the only one.
    AtLeast,
}

impl Mode {
    /// The number in documents.
    pub open spec fn number(self) -> u8 {
        match self {
            Mode::AnyOf => 1,
            Mode::AllOf => 2,
            Mode::AtLeast => 3,
        }
    }

    /// What a number means; most mean nothing.
    pub open spec fn numbered(v: u8) -> Option<Mode> {
        if v == 1 {
            Some(Mode::AnyOf)
        } else if v == 2 {
            Some(Mode::AllOf)
        } else if v == 3 {
            Some(Mode::AtLeast)
        } else {
            None
        }
    }

    /// The number in documents.
    pub fn as_u8(self) -> (r: u8)
        ensures
            r == self.number(),
    {
        match self {
            Mode::AnyOf => 1,
            Mode::AllOf => 2,
            Mode::AtLeast => 3,
        }
    }

    /// What a number means; an unknown one means nothing.
    pub fn from_u8(byte: u8) -> (r: Option<Mode>)
        ensures
            r == Mode::numbered(byte),
    {
        match byte {
            1 => Some(Mode::AnyOf),
            2 => Some(Mode::AllOf),
            3 => Some(Mode::AtLeast),
            _ => None,
        }
    }
}

/// A condition on one attribute.
#[derive(Debug, Clone, PartialEq, Eq)]
pub struct Clause {
    pub attribute: String,
    pub mode: Mode,
    pub values: Vec<String>,
}

/// What a condition says.
pub struct ClauseView {
    pub attribute: Seq<char>,
    pub mode: Mode,
    pub values: Seq<Seq<char>>,
}

impl View for Clause {
    type V = ClauseView;

    open spec fn view(&self) -> ClauseView {
        ClauseView {
            attribute: self.attribute@,
            mode: self.mode,
            values: text::texts(self.values@),
        }
    }
}

/// A tightening by holder: who does not meet the condition gets no more than the
/// profile.
#[derive(Debug, Clone, PartialEq, Eq)]
pub struct Tightening {
    /// Who is not tightened.
    pub unless: Clause,
    /// What everybody else gets at most.
    pub profile: Vec<u8>,
}

/// What a tightening says.
pub struct TighteningView {
    pub unless: ClauseView,
    pub profile: Seq<u8>,
}

impl View for Tightening {
    type V = TighteningView;

    open spec fn view(&self) -> TighteningView {
        TighteningView {
            unless: self.unless@,
            profile: self.profile@,
        }
    }
}

/// The rule of a file. An empty rule is no rule.
#[derive(Debug, Clone, PartialEq, Eq)]
pub struct Rule {
    /// All of them have to be met.
    pub clauses: Vec<Clause>,
    /// The longest lease; it shortens what the author set and never extends it.
    pub max_lease_seconds: Option<i64>,
    pub tightenings: Vec<Tightening>,
}

/// What the rule of a file says.
pub struct RuleView {
    pub clauses: Seq<ClauseView>,
    pub max_lease_seconds: Option<i64>,
    pub tightenings: Seq<TighteningView>,
}

impl View for Rule {
    type V = RuleView;

    open spec fn view(&self) -> RuleView {
        RuleView {
            clauses: clause_views(self.clauses@),
            max_lease_seconds: self.max_lease_seconds,
            tightenings: tightening_views(self.tightenings@),
        }
    }
}

/// What several conditions say.
pub open spec fn clause_views(cs: Seq<Clause>) -> Seq<ClauseView> {
    cs.map_values(|c: Clause| c@)
}

/// What several tightenings say.
pub open spec fn tightening_views(ts: Seq<Tightening>) -> Seq<TighteningView> {
    ts.map_values(|t: Tightening| t@)
}

impl RuleView {
    /// There is no condition, no limit and no tightening.
    pub open spec fn nothing(self) -> bool {
        self.clauses.len() == 0 && self.max_lease_seconds is None && self.tightenings.len() == 0
    }
}

impl Default for Rule {
    /// No rule.
    fn default() -> (r: Rule)
        ensures
            r@.nothing(),
    {
        Rule { clauses: Vec::new(), max_lease_seconds: None, tightenings: Vec::new() }
    }
}

impl Rule {
    /// There is no rule. A limit without a condition is one.
    pub fn is_empty(&self) -> (r: bool)
        ensures
            r == self@.nothing(),
    {
        self.clauses.len() == 0 && self.max_lease_seconds.is_none() && self.tightenings.len() == 0
    }
}

/// A byte of an identifier: a Latin letter, a digit or one of `_ . : / -`.
pub open spec fn identifier_byte(b: u8) -> bool {
    ||| 0x61 <= b <= 0x7a
    ||| 0x41 <= b <= 0x5a
    ||| 0x30 <= b <= 0x39
    ||| b == 0x5f
    ||| b == 0x2e
    ||| b == 0x3a
    ||| b == 0x2f
    ||| b == 0x2d
}

/// A text is an identifier: 1 to 64 bytes of its alphabet.
pub open spec fn identifier(text: Seq<char>) -> bool {
    let b = encode_utf8(text);
    0 < b.len() <= MAX_NAME_BYTES && forall|i: int|
        0 <= i < b.len() ==> identifier_byte(#[trigger] b[i])
}

/// Whether a text is an identifier.
pub fn is_identifier(text: &str) -> (r: bool)
    ensures
        r == identifier(text@),
{
    let b = text.as_bytes();
    if b.len() == 0 || b.len() > MAX_NAME_BYTES {
        return false;
    }
    let mut i: usize = 0;
    while i < b.len()
        invariant
            i <= b@.len(),
            b@ == encode_utf8(text@),
            forall|j: int| 0 <= j < i ==> identifier_byte(#[trigger] b@[j]),
        decreases b@.len() - i,
    {
        let c: u8 = b[i];
        if !((0x61 <= c && c <= 0x7a) || (0x41 <= c && c <= 0x5a) || (0x30 <= c && c <= 0x39) || c
            == 0x5f || c == 0x2e || c == 0x3a || c == 0x2f || c == 0x2d) {
            assert(!identifier_byte(b@[i as int]));
            return false;
        }
        i = i + 1;
    }
    true
}

/// All texts are identifiers.
pub open spec fn all_identifiers(ss: Seq<Seq<char>>) -> bool {
    forall|i: int| 0 <= i < ss.len() ==> identifier(#[trigger] ss[i])
}

/// Whether all texts are identifiers.
fn are_identifiers(ss: &Vec<String>) -> (r: bool)
    ensures
        r == all_identifiers(text::texts(ss@)),
{
    let ghost all = text::texts(ss@);
    let mut i: usize = 0;
    while i < ss.len()
        invariant
            i <= ss@.len(),
            all == text::texts(ss@),
            forall|j: int| 0 <= j < i ==> identifier(#[trigger] all[j]),
        decreases ss@.len() - i,
    {
        assert(all[i as int] == ss@[i as int]@);
        if !is_identifier(ss[i].as_str()) {
            return false;
        }
        i = i + 1;
    }
    true
}

/// The verdict on a condition: its names are identifiers, and it has as many values as
/// its mode takes. Without a value everybody would meet it, so it has one.
pub open spec fn clause_fault(c: ClauseView, at: u16) -> Option<FormatError> {
    if !identifier(c.attribute) || !all_identifiers(c.values) {
        Some(FormatError::UnknownCriticalField { tag: at })
    } else if c.values.len() == 0 || c.values.len() > MAX_VALUES || (c.mode == Mode::AtLeast
        && c.values.len() != 1) {
        Some(FormatError::BadFieldLength { tag: at, len: c.values.len() as usize })
    } else {
        None
    }
}

/// The verdict on a condition.
fn check_clause(c: &Clause, at: u16) -> (r: Option<FormatError>)
    ensures
        r == clause_fault(c@, at),
{
    if !is_identifier(c.attribute.as_str()) || !are_identifiers(&c.values) {
        return Some(FormatError::UnknownCriticalField { tag: at });
    }
    if c.values.len() == 0 || c.values.len() > MAX_VALUES {
        return Some(bad(at, c.values.len()));
    }
    if c.mode == Mode::AtLeast && c.values.len() != 1 {
        return Some(bad(at, c.values.len()));
    }
    None
}

/// The first objection to several conditions.
pub open spec fn first_clause_fault(cs: Seq<ClauseView>) -> Option<FormatError>
    decreases cs.len(),
{
    if cs.len() == 0 {
        None
    } else {
        tlv::or_else(clause_fault(cs[0], tag::CLAUSES), first_clause_fault(cs.drop_first()))
    }
}

/// The first objection to the conditions of several tightenings.
pub open spec fn first_unless_fault(ts: Seq<TighteningView>) -> Option<FormatError>
    decreases ts.len(),
{
    if ts.len() == 0 {
        None
    } else {
        tlv::or_else(
            clause_fault(ts[0].unless, tag::TIGHTENINGS),
            first_unless_fault(ts.drop_first()),
        )
    }
}

impl RuleView {
    /// The first objection to the rule.
    pub open spec fn fault(self) -> Option<FormatError> {
        if self.clauses.len() > MAX_CLAUSES {
            Some(
                FormatError::BadFieldLength { tag: tag::CLAUSES, len: self.clauses.len() as usize },
            )
        } else if self.tightenings.len() > MAX_TIGHTENINGS {
            Some(
                FormatError::BadFieldLength {
                    tag: tag::TIGHTENINGS,
                    len: self.tightenings.len() as usize,
                },
            )
        } else if self.max_lease_seconds is Some && self.max_lease_seconds->0 <= 0 {
            Some(FormatError::UnknownCriticalField { tag: tag::MAX_LEASE })
        } else {
            tlv::or_else(first_clause_fault(self.clauses), first_unless_fault(self.tightenings))
        }
    }
}

/// The first objection to several conditions.
fn check_clauses(cs: &Vec<Clause>) -> (r: Option<FormatError>)
    ensures
        r == first_clause_fault(clause_views(cs@)),
{
    let ghost all = clause_views(cs@);
    let mut i: usize = 0;
    assert(all.skip(0) =~= all);
    while i < cs.len()
        invariant
            i <= cs@.len(),
            all == clause_views(cs@),
            first_clause_fault(all) == first_clause_fault(all.skip(i as int)),
        decreases cs@.len() - i,
    {
        proof {
            assert(all.skip(i as int)[0] == cs@[i as int]@);
            assert(all.skip(i as int).drop_first() =~= all.skip(i as int + 1));
        }
        if let Some(e) = check_clause(&cs[i], tag::CLAUSES) {
            return Some(e);
        }
        i = i + 1;
    }
    None
}

/// The first objection to the conditions of several tightenings.
fn check_tightenings(ts: &Vec<Tightening>) -> (r: Option<FormatError>)
    ensures
        r == first_unless_fault(tightening_views(ts@)),
{
    let ghost all = tightening_views(ts@);
    let mut i: usize = 0;
    assert(all.skip(0) =~= all);
    while i < ts.len()
        invariant
            i <= ts@.len(),
            all == tightening_views(ts@),
            first_unless_fault(all) == first_unless_fault(all.skip(i as int)),
        decreases ts@.len() - i,
    {
        proof {
            assert(all.skip(i as int)[0] == ts@[i as int]@);
            assert(all.skip(i as int).drop_first() =~= all.skip(i as int + 1));
        }
        if let Some(e) = check_clause(&ts[i].unless, tag::TIGHTENINGS) {
            return Some(e);
        }
        i = i + 1;
    }
    None
}

/// The first objection to a rule: the same for who writes it and who reads it.
fn check(rule: &Rule) -> (r: Option<FormatError>)
    ensures
        r == rule@.fault(),
{
    if rule.clauses.len() > MAX_CLAUSES {
        return Some(bad(tag::CLAUSES, rule.clauses.len()));
    }
    if rule.tightenings.len() > MAX_TIGHTENINGS {
        return Some(bad(tag::TIGHTENINGS, rule.tightenings.len()));
    }
    if let Some(seconds) = rule.max_lease_seconds {
        if seconds <= 0 {
            return Some(FormatError::UnknownCriticalField { tag: tag::MAX_LEASE });
        }
    }
    if let Some(e) = check_clauses(&rule.clauses) {
        return Some(e);
    }
    check_tightenings(&rule.tightenings)
}

/// The objection to the first item of a stream that is too long for its length.
pub open spec fn stream_fault(at: u16, items: Seq<Seq<u8>>) -> Option<FormatError>
    decreases items.len(),
{
    if items.len() == 0 {
        None
    } else if items[0].len() > u32::MAX {
        Some(FormatError::BadFieldLength { tag: at, len: items[0].len() as usize })
    } else {
        stream_fault(at, items.drop_first())
    }
}

/// The bytes of a stream.
pub open spec fn stream_bytes(at: u16, items: Seq<Seq<u8>>) -> Result<Seq<u8>, FormatError> {
    match stream_fault(at, items) {
        Some(e) => Err(e),
        None => Ok(bytes::framed(items)),
    }
}

/// The items of a stream behind `taken` others; there are at most so many.
pub open spec fn items_behind(at: u16, b: Seq<u8>, limit: nat, taken: nat) -> Result<
    Seq<Seq<u8>>,
    FormatError,
>
    decreases b.len(),
{
    if b.len() == 0 {
        Ok(Seq::empty())
    } else if taken >= limit {
        Err(FormatError::BadFieldLength { tag: at, len: (taken + 1) as usize })
    } else if b.len() < 4 {
        Err(FormatError::BadFieldLength { tag: at, len: b.len() as usize })
    } else {
        let len = bytes::num32(b.subrange(0, 4));
        let tail = b.skip(4);
        if tail.len() < len {
            Err(FormatError::BadFieldLength { tag: at, len: tail.len() as usize })
        } else {
            match items_behind(at, tail.skip(len as int), limit, taken + 1) {
                Err(e) => Err(e),
                Ok(rest) => Ok(seq![tail.take(len as int)] + rest),
            }
        }
    }
}

/// The items of a stream; there are at most so many.
pub open spec fn items_of(at: u16, b: Seq<u8>, limit: nat) -> Result<Seq<Seq<u8>>, FormatError> {
    items_behind(at, b, limit, 0)
}

proof fn items_behind_framed(at: u16, items: Seq<Seq<u8>>, limit: nat, taken: nat)
    requires
        stream_fault(at, items) is None,
        taken + items.len() <= limit,
    ensures
        items_behind(at, bytes::framed(items), limit, taken)
            == Ok::<Seq<Seq<u8>>, FormatError>(items),
    decreases items.len(),
{
    broadcast use bytes::group_numbers;

    if items.len() == 0 {
        assert(items =~= Seq::empty());
    } else {
        let rest = items.drop_first();
        let b = bytes::framed(items);
        items_behind_framed(at, rest, limit, taken + 1);
        assert(b.subrange(0, 4) =~= bytes::le32(items[0].len() as u32));
        assert(b.skip(4) =~= items[0] + bytes::framed(rest));
        assert(b.skip(4).take(items[0].len() as int) =~= items[0]);
        assert(b.skip(4).skip(items[0].len() as int) =~= bytes::framed(rest));
        assert(seq![items[0]] + rest =~= items);
    }
}

/// A stream survives being written and read back.
pub proof fn stream_round_trip(at: u16, items: Seq<Seq<u8>>, limit: nat)
    requires
        stream_bytes(at, items) is Ok,
        items.len() <= limit,
    ensures
        items_of(at, stream_bytes(at, items)->Ok_0, limit)
            == Ok::<Seq<Seq<u8>>, FormatError>(items),
{
    items_behind_framed(at, items, limit, 0);
}

/// Write a stream.
fn stream(at: u16, items: &Vec<Vec<u8>>) -> (r: Result<Vec<u8>, FormatError>)
    ensures
        tlv::agrees(r, stream_bytes(at, bytes::blobs(items@))),
{
    let ghost all = bytes::blobs(items@);
    let mut out: Vec<u8> = Vec::new();
    let mut i: usize = 0;
    proof {
        assert(all.skip(0) =~= all);
        assert(out@ + bytes::framed(all) =~= bytes::framed(all));
    }
    while i < items.len()
        invariant
            i <= items@.len(),
            all == bytes::blobs(items@),
            stream_fault(at, all) == stream_fault(at, all.skip(i as int)),
            bytes::framed(all) == out@ + bytes::framed(all.skip(i as int)),
        decreases items@.len() - i,
    {
        let ghost rest = all.skip(i as int);
        let ghost prior = out@;
        proof {
            assert(rest[0] == items@[i as int]@);
            assert(rest.drop_first() =~= all.skip(i as int + 1));
        }
        if items[i].len() > u32::MAX as usize {
            return Err(bad(at, items[i].len()));
        }
        append(&mut out, write32(items[i].len() as u32).as_slice());
        append(&mut out, items[i].as_slice());
        assert(out@ + bytes::framed(rest.drop_first()) =~= prior + bytes::framed(rest));
        i = i + 1;
    }
    proof {
        assert(all.skip(i as int) =~= Seq::empty());
        assert(out@ + Seq::<u8>::empty() =~= out@);
    }
    Ok(out)
}

/// Read a stream of at most so many items.
fn unstream(at: u16, bytes: &[u8], limit: usize) -> (r: Result<Vec<Vec<u8>>, FormatError>)
    requires
        limit < usize::MAX,
    ensures
        match r {
            Ok(items) => items_of(at, bytes@, limit as nat) == Ok::<Seq<Seq<u8>>, FormatError>(
                bytes::blobs(items@),
            ),
            Err(e) => items_of(at, bytes@, limit as nat) == Err::<Seq<Seq<u8>>, FormatError>(e),
        },
{
    let mut out: Vec<Vec<u8>> = Vec::new();
    let mut rest: &[u8] = bytes;
    let ghost whole = items_of(at, bytes@, limit as nat);
    proof {
        if whole is Ok {
            assert(bytes::blobs(out@) + whole->Ok_0 =~= whole->Ok_0);
        }
    }
    while rest.len() > 0
        invariant
            limit < usize::MAX,
            out@.len() <= limit,
            whole == items_of(at, bytes@, limit as nat),
            match items_behind(at, rest@, limit as nat, out@.len()) {
                Ok(more) => whole == Ok::<Seq<Seq<u8>>, FormatError>(bytes::blobs(out@) + more),
                Err(e) => whole == Err::<Seq<Seq<u8>>, FormatError>(e),
            },
        decreases rest@.len(),
    {
        if out.len() >= limit {
            return Err(bad(at, out.len() + 1));
        }
        if rest.len() < 4 {
            return Err(bad(at, rest.len()));
        }
        let len: u32 = read32(part(rest, 0, 4));
        let tail = part(rest, 4, rest.len());
        assert(tail@ =~= rest@.skip(4));
        if (tail.len() as u64) < len as u64 {
            return Err(bad(at, tail.len()));
        }
        let n: usize = len as usize;
        let item = part(tail, 0, n);
        let after = part(tail, n, tail.len());
        let ghost prior = bytes::blobs(out@);
        out.push(owned(item));
        proof {
            assert(item@ =~= tail@.take(len as int));
            assert(after@ =~= tail@.skip(len as int));
            assert(bytes::blobs(out@) =~= prior.push(item@));
            let later = items_behind(at, after@, limit as nat, out@.len());
            if later is Ok {
                assert(prior + (seq![item@] + later->Ok_0) =~= bytes::blobs(out@) + later->Ok_0);
            }
        }
        rest = after;
    }
    assert(bytes::blobs(out@) + Seq::<Seq<u8>>::empty() =~= bytes::blobs(out@));
    Ok(out)
}

/// The bytes of several texts.
pub open spec fn encoded(ss: Seq<Seq<char>>) -> Seq<Seq<u8>> {
    ss.map_values(|s: Seq<char>| encode_utf8(s))
}

/// The texts of several byte strings.
pub open spec fn decoded(bs: Seq<Seq<u8>>) -> Seq<Seq<char>> {
    bs.map_values(|b: Seq<u8>| decode_utf8(b))
}

/// All byte strings hold text.
pub open spec fn all_text(bs: Seq<Seq<u8>>) -> bool {
    forall|i: int| 0 <= i < bs.len() ==> valid_utf8(#[trigger] bs[i])
}

/// The bytes of a condition.
pub open spec fn clause_bytes(c: ClauseView) -> Result<Seq<u8>, FormatError> {
    match stream_bytes(tag::CLAUSES, encoded(seq![c.attribute] + c.values)) {
        Err(e) => Err(e),
        Ok(b) => Ok(seq![c.mode.number()] + b),
    }
}

/// The condition that the bytes hold.
pub open spec fn clause_of(item: Seq<u8>) -> Result<ClauseView, FormatError> {
    if item.len() == 0 {
        Err(FormatError::BadFieldLength { tag: tag::CLAUSES, len: 0 })
    } else if Mode::numbered(item[0]) is None {
        Err(FormatError::UnknownCriticalField { tag: tag::CLAUSES })
    } else {
        match items_of(tag::CLAUSES, item.skip(1), (MAX_VALUES + 1) as nat) {
            Err(e) => Err(e),
            Ok(parts) => if parts.len() == 0 {
                Err(FormatError::BadFieldLength { tag: tag::CLAUSES, len: 0 })
            } else if !all_text(parts) {
                Err(FormatError::UnknownCriticalField { tag: tag::CLAUSES })
            } else {
                Ok(
                    ClauseView {
                        attribute: decoded(parts)[0],
                        mode: Mode::numbered(item[0])->0,
                        values: decoded(parts).drop_first(),
                    },
                )
            },
        }
    }
}

/// A condition survives being written and read back.
pub proof fn clause_round_trip(c: ClauseView)
    requires
        c.values.len() <= MAX_VALUES,
        clause_bytes(c) is Ok,
    ensures
        clause_of(clause_bytes(c)->Ok_0) == Ok::<ClauseView, FormatError>(c),
{
    let names = seq![c.attribute] + c.values;
    let parts = encoded(names);
    let b = clause_bytes(c)->Ok_0;
    stream_round_trip(tag::CLAUSES, parts, (MAX_VALUES + 1) as nat);
    assert(b.skip(1) =~= stream_bytes(tag::CLAUSES, parts)->Ok_0);
    assert forall|i: int| 0 <= i < parts.len() implies valid_utf8(#[trigger] parts[i]) by {
        encode_utf8_valid_utf8(names[i]);
    }
    assert forall|i: int| 0 <= i < parts.len() implies decode_utf8(#[trigger] parts[i])
        == names[i] by {
        encode_utf8_decode_utf8(names[i]);
    }
    assert(decoded(parts) =~= names);
    assert(names.drop_first() =~= c.values);
}

/// Write a condition.
fn encode_clause(c: &Clause) -> (r: Result<Vec<u8>, FormatError>)
    ensures
        tlv::agrees(r, clause_bytes(c@)),
{
    let ghost names = seq![c@.attribute] + c@.values;
    let mut parts: Vec<Vec<u8>> = Vec::new();
    parts.push(owned(c.attribute.as_str().as_bytes()));
    let mut i: usize = 0;
    while i < c.values.len()
        invariant
            i <= c.values@.len(),
            parts@.len() == i + 1,
            names == seq![c@.attribute] + c@.values,
            forall|j: int| 0 <= j <= i ==> (#[trigger] parts@[j])@ == encode_utf8(names[j]),
        decreases c.values@.len() - i,
    {
        assert(names[i + 1] == c.values@[i as int]@);
        parts.push(owned(c.values[i].as_str().as_bytes()));
        i = i + 1;
    }
    assert(bytes::blobs(parts@) =~= encoded(names));
    let b = stream(tag::CLAUSES, &parts)?;
    let mut out = one(c.mode.as_u8());
    append(&mut out, b.as_slice());
    Ok(out)
}

/// Read a condition.
fn decode_clause(item: &[u8]) -> (r: Result<Clause, FormatError>)
    ensures
        tlv::agrees(r, clause_of(item@)),
{
    if item.len() == 0 {
        return Err(bad(tag::CLAUSES, 0));
    }
    let mode = match Mode::from_u8(item[0]) {
        Some(mode) => mode,
        None => {
            return Err(FormatError::UnknownCriticalField { tag: tag::CLAUSES });
        },
    };
    let rest = part(item, 1, item.len());
    assert(rest@ =~= item@.skip(1));
    let parts = unstream(tag::CLAUSES, rest, MAX_VALUES + 1)?;
    let ghost all = bytes::blobs(parts@);
    if parts.len() == 0 {
        return Err(bad(tag::CLAUSES, 0));
    }
    assert(all[0] == parts@[0]@);
    let attribute = match text_of(parts[0].as_slice()) {
        Some(s) => s,
        None => {
            assert(!all_text(all));
            return Err(FormatError::UnknownCriticalField { tag: tag::CLAUSES });
        },
    };
    let mut values: Vec<String> = Vec::new();
    let mut i: usize = 1;
    while i < parts.len()
        invariant
            1 <= i <= parts@.len(),
            all == bytes::blobs(parts@),
            values@.len() == i - 1,
            items_of(tag::CLAUSES, item@.skip(1), (MAX_VALUES + 1) as nat) == Ok::<
                Seq<Seq<u8>>,
                FormatError,
            >(all),
            item@.len() > 0,
            Mode::numbered(item@[0]) is Some,
            forall|j: int| 0 <= j < i ==> valid_utf8(#[trigger] all[j]),
            forall|j: int| 0 <= j < i - 1 ==> (#[trigger] values@[j])@ == decode_utf8(all[j + 1]),
        decreases parts@.len() - i,
    {
        assert(all[i as int] == parts@[i as int]@);
        match text_of(parts[i].as_slice()) {
            Some(s) => {
                values.push(s);
            },
            None => {
                assert(!all_text(all));
                return Err(FormatError::UnknownCriticalField { tag: tag::CLAUSES });
            },
        }
        i = i + 1;
    }
    assert(text::texts(values@) =~= decoded(all).drop_first());
    Ok(Clause { attribute, mode, values })
}

/// The bytes of several conditions.
pub open spec fn clause_items(cs: Seq<ClauseView>) -> Result<Seq<Seq<u8>>, FormatError>
    decreases cs.len(),
{
    if cs.len() == 0 {
        Ok(Seq::empty())
    } else {
        match clause_items(cs.drop_last()) {
            Err(e) => Err(e),
            Ok(items) => match clause_bytes(cs.last()) {
                Err(e) => Err(e),
                Ok(b) => Ok(items.push(b)),
            },
        }
    }
}

/// The bytes of a tightening: a stream of its condition and its profile.
pub open spec fn tightening_bytes(t: TighteningView) -> Result<Seq<u8>, FormatError> {
    match clause_bytes(t.unless) {
        Err(e) => Err(e),
        Ok(unless) => stream_bytes(tag::TIGHTENINGS, seq![unless, t.profile]),
    }
}

/// The bytes of several tightenings.
pub open spec fn tightening_items(ts: Seq<TighteningView>) -> Result<Seq<Seq<u8>>, FormatError>
    decreases ts.len(),
{
    if ts.len() == 0 {
        Ok(Seq::empty())
    } else {
        match tightening_items(ts.drop_last()) {
            Err(e) => Err(e),
            Ok(items) => match tightening_bytes(ts.last()) {
                Err(e) => Err(e),
                Ok(b) => Ok(items.push(b)),
            },
        }
    }
}

/// The bytes of the conditions of a rule.
pub open spec fn clauses_bytes(cs: Seq<ClauseView>) -> Result<Seq<u8>, FormatError> {
    match clause_items(cs) {
        Err(e) => Err(e),
        Ok(items) => stream_bytes(tag::CLAUSES, items),
    }
}

/// The bytes of the tightenings of a rule.
pub open spec fn tightenings_bytes(ts: Seq<TighteningView>) -> Result<Seq<u8>, FormatError> {
    match tightening_items(ts) {
        Err(e) => Err(e),
        Ok(items) => stream_bytes(tag::TIGHTENINGS, items),
    }
}

/// The records of a rule, where conditions and tightenings have the given bytes.
pub open spec fn rule_recs(rule: RuleView, clauses: Seq<u8>, tightenings: Seq<u8>) -> Seq<Rec> {
    let rs = tlv::with_opt(
        Seq::<Rec>::empty(),
        tag::MAX_LEASE,
        match rule.max_lease_seconds {
            Some(s) => Some(bytes::le64s(s)),
            None => None,
        },
    );
    let rs = rs.push((tag::CLAUSES, clauses));
    tlv::with_opt(
        rs,
        tag::TIGHTENINGS,
        if rule.tightenings.len() == 0 {
            None
        } else {
            Some(tightenings)
        },
    )
}

/// The bytes of a rule.
pub open spec fn rule_bytes(rule: RuleView) -> Result<Seq<u8>, FormatError> {
    if rule.fault() is Some {
        Err(rule.fault()->0)
    } else {
        match clauses_bytes(rule.clauses) {
            Err(e) => Err(e),
            Ok(clauses) => match tightenings_bytes(rule.tightenings) {
                Err(e) => Err(e),
                Ok(tightenings) => tlv::sealed(rule_recs(rule, clauses, tightenings)),
            },
        }
    }
}

/// The conditions in items.
pub open spec fn clauses_in(items: Seq<Seq<u8>>) -> Result<Seq<ClauseView>, FormatError>
    decreases items.len(),
{
    if items.len() == 0 {
        Ok(Seq::empty())
    } else {
        match clauses_in(items.drop_last()) {
            Err(e) => Err(e),
            Ok(cs) => match clause_of(items.last()) {
                Err(e) => Err(e),
                Ok(c) => Ok(cs.push(c)),
            },
        }
    }
}

/// The conditions that the bytes hold.
pub open spec fn clauses_of(b: Seq<u8>) -> Result<Seq<ClauseView>, FormatError> {
    match items_of(tag::CLAUSES, b, MAX_CLAUSES as nat) {
        Err(e) => Err(e),
        Ok(items) => clauses_in(items),
    }
}

/// The tightening in an item. `refused` is what the codec of policies has against the
/// profile.
pub open spec fn tightening_of(item: Seq<u8>, refused: Option<FormatError>) -> Result<
    TighteningView,
    FormatError,
> {
    match items_of(tag::TIGHTENINGS, item, 2) {
        Err(e) => Err(e),
        Ok(parts) => if parts.len() != 2 {
            Err(FormatError::BadFieldLength { tag: tag::TIGHTENINGS, len: parts.len() as usize })
        } else {
            match clause_of(parts[0]) {
                Err(e) => Err(e),
                Ok(unless) => match refused {
                    Some(e) => Err(e),
                    None => Ok(TighteningView { unless, profile: parts[1] }),
                },
            }
        },
    }
}

/// What the codec has against the profile with an index, where `refused` is the first
/// profile that it refuses.
pub open spec fn refusal_at(refused: Option<(usize, FormatError)>, i: int) -> Option<FormatError> {
    match refused {
        Some((at, e)) => if at == i {
            Some(e)
        } else {
            None
        },
        None => None,
    }
}

/// The tightenings in items.
pub open spec fn tightenings_in(
    items: Seq<Seq<u8>>,
    refused: Option<(usize, FormatError)>,
) -> Result<
    Seq<TighteningView>,
    FormatError,
>
    decreases items.len(),
{
    if items.len() == 0 {
        Ok(Seq::empty())
    } else {
        match tightenings_in(items.drop_last(), refused) {
            Err(e) => Err(e),
            Ok(ts) => match tightening_of(items.last(), refusal_at(refused, items.len() - 1)) {
                Err(e) => Err(e),
                Ok(t) => Ok(ts.push(t)),
            },
        }
    }
}

/// The tightenings that the bytes hold: at least one.
pub open spec fn tightenings_of(b: Seq<u8>, refused: Option<(usize, FormatError)>) -> Result<
    Seq<TighteningView>,
    FormatError,
> {
    match items_of(tag::TIGHTENINGS, b, MAX_TIGHTENINGS as nat) {
        Err(e) => Err(e),
        Ok(items) => if items.len() == 0 {
            Err(FormatError::BadFieldLength { tag: tag::TIGHTENINGS, len: 0 })
        } else {
            tightenings_in(items, refused)
        },
    }
}

/// The verdict on bytes that should hold conditions.
pub open spec fn clauses_fault(b: Seq<u8>) -> Option<FormatError> {
    match clauses_of(b) {
        Ok(_) => None,
        Err(e) => Some(e),
    }
}

/// The verdict on bytes that should hold tightenings.
pub open spec fn tightenings_fault(b: Seq<u8>, refused: Option<(usize, FormatError)>) -> Option<
    FormatError,
> {
    match tightenings_of(b, refused) {
        Ok(_) => None,
        Err(e) => Some(e),
    }
}

/// The rule for the fields of a rule.
pub struct RuleSchema {
    /// The first profile that the codec of policies refuses: its index, and why.
    pub refused: Option<(usize, FormatError)>,
}

impl Schema for RuleSchema {
    open spec fn fault(&self, tag: u16, value: Seq<u8>) -> Option<FormatError> {
        if tag == self::tag::MAX_LEASE {
            tlv::length_fault(tag, value, 8)
        } else if tag == self::tag::CLAUSES {
            clauses_fault(value)
        } else if tag == self::tag::TIGHTENINGS {
            tightenings_fault(value, self.refused)
        } else {
            unknown::unknown_fault(tag)
        }
    }

    fn check(&self, tag: u16, value: &[u8]) -> (r: Option<FormatError>) {
        if tag == self::tag::MAX_LEASE {
            check_length(tag, value, 8)
        } else if tag == self::tag::CLAUSES {
            check_clause_stream(value)
        } else if tag == self::tag::TIGHTENINGS {
            check_tightening_stream(value, self.refused)
        } else {
            unknown_verdict(tag)
        }
    }
}

/// The rule that the records hold.
pub open spec fn rule_in(rs: Seq<Rec>, refused: Option<(usize, FormatError)>) -> Result<
    RuleView,
    FormatError,
> {
    if tlv::lookup(rs, tag::CLAUSES) is None {
        Err(FormatError::MissingField { tag: tag::CLAUSES })
    } else {
        Ok(
            RuleView {
                clauses: clauses_of(tlv::lookup(rs, tag::CLAUSES)->0)->Ok_0,
                max_lease_seconds: match tlv::lookup(rs, tag::MAX_LEASE) {
                    Some(v) => Some(bytes::num64s(v)),
                    None => None,
                },
                tightenings: match tlv::lookup(rs, tag::TIGHTENINGS) {
                    Some(v) => tightenings_of(v, refused)->Ok_0,
                    None => Seq::empty(),
                },
            },
        )
    }
}

/// The rule that the bytes hold. `refused` is the first profile that the codec of
/// policies refuses.
pub open spec fn rule_of(b: Seq<u8>, refused: Option<(usize, FormatError)>) -> Result<
    RuleView,
    FormatError,
> {
    match tlv::read(RuleSchema { refused }, b) {
        Err(e) => Err(e),
        Ok(rs) => match rule_in(rs, refused) {
            Err(e) => Err(e),
            Ok(rule) => match rule.fault() {
                Some(e) => Err(e),
                None => Ok(rule),
            },
        },
    }
}

/// An optional field that is not known changes nothing in the rule that is read.
pub proof fn rule_reads_past_optional_fields(b: Seq<u8>, refused: Option<(usize, FormatError)>)
    requires
        rule_of(b, refused) is Ok,
    ensures
        rule_of(unknown::without_optional(b), refused) == rule_of(b, refused),
{
    unknown::optional_records_are_skipped(RuleSchema { refused }, b);
}

proof fn small_clause(cs: Seq<ClauseView>, i: int)
    requires
        first_clause_fault(cs) is None,
        0 <= i < cs.len(),
    ensures
        clause_fault(cs[i], tag::CLAUSES) is None,
    decreases cs.len(),
{
    if i > 0 {
        small_clause(cs.drop_first(), i - 1);
    }
}

proof fn small_unless(ts: Seq<TighteningView>, i: int)
    requires
        first_unless_fault(ts) is None,
        0 <= i < ts.len(),
    ensures
        clause_fault(ts[i].unless, tag::TIGHTENINGS) is None,
    decreases ts.len(),
{
    if i > 0 {
        small_unless(ts.drop_first(), i - 1);
    }
}

proof fn clauses_in_items(cs: Seq<ClauseView>)
    requires
        forall|i: int| 0 <= i < cs.len() ==> (#[trigger] cs[i]).values.len() <= MAX_VALUES,
        clause_items(cs) is Ok,
    ensures
        clauses_in(clause_items(cs)->Ok_0) == Ok::<Seq<ClauseView>, FormatError>(cs),
        clause_items(cs)->Ok_0.len() == cs.len(),
    decreases cs.len(),
{
    if cs.len() > 0 {
        let head = cs.drop_last();
        assert forall|i: int| 0 <= i < head.len() implies (#[trigger] head[i]).values.len()
            <= MAX_VALUES by {
            assert(cs[i].values.len() <= MAX_VALUES);
        }
        clauses_in_items(head);
        assert(cs[cs.len() - 1].values.len() <= MAX_VALUES);
        clause_round_trip(cs.last());
        assert(clause_items(cs)->Ok_0.drop_last() =~= clause_items(head)->Ok_0);
        assert(head.push(cs.last()) =~= cs);
    } else {
        assert(cs =~= Seq::empty());
    }
}

proof fn tightenings_in_items(ts: Seq<TighteningView>)
    requires
        forall|i: int| 0 <= i < ts.len() ==> (#[trigger] ts[i]).unless.values.len() <= MAX_VALUES,
        tightening_items(ts) is Ok,
    ensures
        tightenings_in(tightening_items(ts)->Ok_0, None) == Ok::<Seq<TighteningView>, FormatError>(
            ts,
        ),
        tightening_items(ts)->Ok_0.len() == ts.len(),
    decreases ts.len(),
{
    if ts.len() > 0 {
        let head = ts.drop_last();
        let t = ts.last();
        assert forall|i: int| 0 <= i < head.len() implies (#[trigger] head[i]).unless.values.len()
            <= MAX_VALUES by {
            assert(ts[i].unless.values.len() <= MAX_VALUES);
        }
        tightenings_in_items(head);
        assert(ts[ts.len() - 1].unless.values.len() <= MAX_VALUES);
        clause_round_trip(t.unless);
        stream_round_trip(tag::TIGHTENINGS, seq![clause_bytes(t.unless)->Ok_0, t.profile], 2);
        assert(tightening_items(ts)->Ok_0.drop_last() =~= tightening_items(head)->Ok_0);
        assert(head.push(t) =~= ts);
    } else {
        assert(ts =~= Seq::empty());
    }
}

/// A rule survives being written and read back.
pub proof fn rule_round_trip(rule: RuleView)
    requires
        rule_bytes(rule) is Ok,
    ensures
        rule_of(rule_bytes(rule)->Ok_0, None) == Ok::<RuleView, FormatError>(rule),
{
    broadcast use {tlv::group_records, bytes::group_numbers};

    let cs = rule.clauses;
    let ts = rule.tightenings;
    assert forall|i: int| 0 <= i < cs.len() implies (#[trigger] cs[i]).values.len()
        <= MAX_VALUES by {
        small_clause(cs, i);
    }
    assert forall|i: int| 0 <= i < ts.len() implies (#[trigger] ts[i]).unless.values.len()
        <= MAX_VALUES by {
        small_unless(ts, i);
    }
    clauses_in_items(cs);
    tightenings_in_items(ts);
    stream_round_trip(tag::CLAUSES, clause_items(cs)->Ok_0, MAX_CLAUSES as nat);
    stream_round_trip(tag::TIGHTENINGS, tightening_items(ts)->Ok_0, MAX_TIGHTENINGS as nat);
    if ts.len() == 0 {
        assert(ts =~= Seq::empty());
    }
    let rs = rule_recs(rule, clauses_bytes(cs)->Ok_0, tightenings_bytes(ts)->Ok_0);
    tlv::read_wire(RuleSchema { refused: None }, rs);
}

/// What is read passes the same checks as what is written, so no condition is met by
/// everybody: each names a value.
pub proof fn no_condition_is_empty(b: Seq<u8>, refused: Option<(usize, FormatError)>, i: int)
    requires
        rule_of(b, refused) is Ok,
        0 <= i < rule_of(b, refused)->Ok_0.clauses.len(),
    ensures
        rule_of(b, refused)->Ok_0.clauses[i].values.len() > 0,
{
    small_clause(rule_of(b, refused)->Ok_0.clauses, i);
}

/// A rule without tightenings has no third tag: it is written as it was before there
/// were any.
pub proof fn no_tightenings_no_tag(rule: RuleView)
    requires
        rule_bytes(rule) is Ok,
        rule.tightenings.len() == 0,
    ensures
        tlv::lookup(tlv::scan(rule_bytes(rule)->Ok_0, None).0, tag::TIGHTENINGS) is None,
{
    broadcast use tlv::group_records;

    let rs = rule_recs(
        rule,
        clauses_bytes(rule.clauses)->Ok_0,
        tightenings_bytes(rule.tightenings)->Ok_0,
    );
    tlv::scan_wire(rs);
}

proof fn clause_items_prefix(cs: Seq<ClauseView>, n: int)
    requires
        0 <= n <= cs.len(),
        clause_items(cs.take(n)) is Err,
    ensures
        clause_items(cs) == clause_items(cs.take(n)),
    decreases cs.len() - n,
{
    if n == cs.len() {
        assert(cs.take(n) =~= cs);
    } else {
        assert(cs.take(n + 1).drop_last() =~= cs.take(n));
        clause_items_prefix(cs, n + 1);
    }
}

proof fn tightening_items_prefix(ts: Seq<TighteningView>, n: int)
    requires
        0 <= n <= ts.len(),
        tightening_items(ts.take(n)) is Err,
    ensures
        tightening_items(ts) == tightening_items(ts.take(n)),
    decreases ts.len() - n,
{
    if n == ts.len() {
        assert(ts.take(n) =~= ts);
    } else {
        assert(ts.take(n + 1).drop_last() =~= ts.take(n));
        tightening_items_prefix(ts, n + 1);
    }
}

proof fn clauses_in_prefix(items: Seq<Seq<u8>>, n: int)
    requires
        0 <= n <= items.len(),
        clauses_in(items.take(n)) is Err,
    ensures
        clauses_in(items) == clauses_in(items.take(n)),
    decreases items.len() - n,
{
    if n == items.len() {
        assert(items.take(n) =~= items);
    } else {
        assert(items.take(n + 1).drop_last() =~= items.take(n));
        clauses_in_prefix(items, n + 1);
    }
}

proof fn tightenings_in_prefix(items: Seq<Seq<u8>>, refused: Option<(usize, FormatError)>, n: int)
    requires
        0 <= n <= items.len(),
        tightenings_in(items.take(n), refused) is Err,
    ensures
        tightenings_in(items, refused) == tightenings_in(items.take(n), refused),
    decreases items.len() - n,
{
    if n == items.len() {
        assert(items.take(n) =~= items);
    } else {
        assert(items.take(n + 1).drop_last() =~= items.take(n));
        tightenings_in_prefix(items, refused, n + 1);
    }
}

/// Write the conditions of a rule.
fn encode_clauses(cs: &Vec<Clause>) -> (r: Result<Vec<u8>, FormatError>)
    ensures
        tlv::agrees(r, clauses_bytes(clause_views(cs@))),
{
    let ghost all = clause_views(cs@);
    let mut items: Vec<Vec<u8>> = Vec::new();
    let mut i: usize = 0;
    assert(all.take(0) =~= Seq::empty());
    assert(bytes::blobs(items@) =~= Seq::empty());
    while i < cs.len()
        invariant
            i <= cs@.len(),
            all == clause_views(cs@),
            clause_items(all.take(i as int))
                == Ok::<Seq<Seq<u8>>, FormatError>(bytes::blobs(items@)),
        decreases cs@.len() - i,
    {
        proof {
            assert(all.take(i as int + 1).drop_last() =~= all.take(i as int));
            assert(all.take(i as int + 1).last() == cs@[i as int]@);
        }
        match encode_clause(&cs[i]) {
            Ok(b) => {
                let ghost prior = bytes::blobs(items@);
                items.push(b);
                assert(bytes::blobs(items@) =~= prior.push(b@));
            },
            Err(e) => {
                proof {
                    clause_items_prefix(all, i as int + 1);
                }
                return Err(e);
            },
        }
        i = i + 1;
    }
    assert(all.take(i as int) =~= all);
    stream(tag::CLAUSES, &items)
}

/// Write a tightening.
fn encode_tightening(t: &Tightening) -> (r: Result<Vec<u8>, FormatError>)
    ensures
        tlv::agrees(r, tightening_bytes(t@)),
{
    let unless = encode_clause(&t.unless)?;
    let ghost first = unless@;
    let mut parts: Vec<Vec<u8>> = Vec::new();
    parts.push(unless);
    parts.push(owned(t.profile.as_slice()));
    assert(bytes::blobs(parts@) =~= seq![first, t@.profile]);
    stream(tag::TIGHTENINGS, &parts)
}

/// Write the tightenings of a rule.
fn encode_tightenings(ts: &Vec<Tightening>) -> (r: Result<Vec<u8>, FormatError>)
    ensures
        tlv::agrees(r, tightenings_bytes(tightening_views(ts@))),
{
    let ghost all = tightening_views(ts@);
    let mut items: Vec<Vec<u8>> = Vec::new();
    let mut i: usize = 0;
    assert(all.take(0) =~= Seq::empty());
    assert(bytes::blobs(items@) =~= Seq::empty());
    while i < ts.len()
        invariant
            i <= ts@.len(),
            all == tightening_views(ts@),
            tightening_items(all.take(i as int))
                == Ok::<Seq<Seq<u8>>, FormatError>(bytes::blobs(items@)),
        decreases ts@.len() - i,
    {
        proof {
            assert(all.take(i as int + 1).drop_last() =~= all.take(i as int));
            assert(all.take(i as int + 1).last() == ts@[i as int]@);
        }
        match encode_tightening(&ts[i]) {
            Ok(b) => {
                let ghost prior = bytes::blobs(items@);
                items.push(b);
                assert(bytes::blobs(items@) =~= prior.push(b@));
            },
            Err(e) => {
                proof {
                    tightening_items_prefix(all, i as int + 1);
                }
                return Err(e);
            },
        }
        i = i + 1;
    }
    assert(all.take(i as int) =~= all);
    stream(tag::TIGHTENINGS, &items)
}

/// Read the conditions of a rule.
fn decode_clauses(b: &[u8]) -> (r: Result<Vec<Clause>, FormatError>)
    ensures
        match r {
            Ok(cs) => clauses_of(b@) == Ok::<Seq<ClauseView>, FormatError>(clause_views(cs@)),
            Err(e) => clauses_of(b@) == Err::<Seq<ClauseView>, FormatError>(e),
        },
{
    let items = unstream(tag::CLAUSES, b, MAX_CLAUSES)?;
    let ghost all = bytes::blobs(items@);
    let mut cs: Vec<Clause> = Vec::new();
    let mut i: usize = 0;
    assert(all.take(0) =~= Seq::empty());
    assert(clause_views(cs@) =~= Seq::empty());
    while i < items.len()
        invariant
            i <= items@.len(),
            all == bytes::blobs(items@),
            items_of(tag::CLAUSES, b@, MAX_CLAUSES as nat) == Ok::<Seq<Seq<u8>>, FormatError>(all),
            clauses_in(all.take(i as int)) == Ok::<Seq<ClauseView>, FormatError>(clause_views(cs@)),
        decreases items@.len() - i,
    {
        proof {
            assert(all.take(i as int + 1).drop_last() =~= all.take(i as int));
            assert(all.take(i as int + 1).last() == items@[i as int]@);
        }
        match decode_clause(items[i].as_slice()) {
            Ok(c) => {
                let ghost prior = clause_views(cs@);
                cs.push(c);
                assert(clause_views(cs@) =~= prior.push(c@));
            },
            Err(e) => {
                proof {
                    clauses_in_prefix(all, i as int + 1);
                }
                return Err(e);
            },
        }
        i = i + 1;
    }
    assert(all.take(i as int) =~= all);
    Ok(cs)
}

/// Read a tightening.
fn decode_tightening(item: &[u8], refused: Option<FormatError>) -> (r: Result<
    Tightening,
    FormatError,
>)
    ensures
        tlv::agrees(r, tightening_of(item@, refused)),
{
    let mut parts = unstream(tag::TIGHTENINGS, item, 2)?;
    let ghost all = bytes::blobs(parts@);
    if parts.len() != 2 {
        return Err(bad(tag::TIGHTENINGS, parts.len()));
    }
    assert(all[0] == parts@[0]@);
    assert(all[1] == parts@[1]@);
    let unless = decode_clause(parts[0].as_slice())?;
    if let Some(e) = refused {
        return Err(e);
    }
    Ok(Tightening { unless, profile: owned(parts[1].as_slice()) })
}

/// Read the tightenings of a rule.
fn decode_tightenings(b: &[u8], refused: Option<(usize, FormatError)>) -> (r: Result<
    Vec<Tightening>,
    FormatError,
>)
    ensures
        match r {
            Ok(ts) => tightenings_of(b@, refused) == Ok::<Seq<TighteningView>, FormatError>(
                tightening_views(ts@),
            ),
            Err(e) => tightenings_of(b@, refused) == Err::<Seq<TighteningView>, FormatError>(e),
        },
{
    let items = unstream(tag::TIGHTENINGS, b, MAX_TIGHTENINGS)?;
    let ghost all = bytes::blobs(items@);
    if items.len() == 0 {
        return Err(bad(tag::TIGHTENINGS, 0));
    }
    let mut ts: Vec<Tightening> = Vec::new();
    let mut i: usize = 0;
    assert(all.take(0) =~= Seq::empty());
    assert(tightening_views(ts@) =~= Seq::empty());
    while i < items.len()
        invariant
            i <= items@.len(),
            0 < items@.len(),
            all == bytes::blobs(items@),
            items_of(tag::TIGHTENINGS, b@, MAX_TIGHTENINGS as nat) == Ok::<
                Seq<Seq<u8>>,
                FormatError,
            >(all),
            tightenings_in(all.take(i as int), refused) == Ok::<Seq<TighteningView>, FormatError>(
                tightening_views(ts@),
            ),
        decreases items@.len() - i,
    {
        proof {
            assert(all.take(i as int + 1).drop_last() =~= all.take(i as int));
            assert(all.take(i as int + 1).last() == items@[i as int]@);
        }
        let against = match refused {
            Some((at, e)) => if at == i {
                Some(e)
            } else {
                None
            },
            None => None,
        };
        match decode_tightening(items[i].as_slice(), against) {
            Ok(t) => {
                let ghost prior = tightening_views(ts@);
                ts.push(t);
                assert(tightening_views(ts@) =~= prior.push(t@));
            },
            Err(e) => {
                proof {
                    tightenings_in_prefix(all, refused, i as int + 1);
                }
                return Err(e);
            },
        }
        i = i + 1;
    }
    assert(all.take(i as int) =~= all);
    Ok(ts)
}

/// The verdict on bytes that should hold conditions.
fn check_clause_stream(b: &[u8]) -> (r: Option<FormatError>)
    ensures
        r == clauses_fault(b@),
{
    match decode_clauses(b) {
        Ok(_) => None,
        Err(e) => Some(e),
    }
}

/// The verdict on bytes that should hold tightenings.
fn check_tightening_stream(b: &[u8], refused: Option<(usize, FormatError)>) -> (r: Option<
    FormatError,
>)
    ensures
        r == tightenings_fault(b@, refused),
{
    match decode_tightenings(b, refused) {
        Ok(_) => None,
        Err(e) => Some(e),
    }
}

/// Write a rule. What would not be read is not written.
pub fn encode(rule: &Rule) -> (r: Result<Vec<u8>, FormatError>)
    ensures
        tlv::agrees(r, rule_bytes(rule@)),
{
    broadcast use {tlv::group_records, bytes::group_numbers};

    refuse(check(rule))?;
    let clauses = encode_clauses(&rule.clauses)?;
    let tightenings = encode_tightenings(&rule.tightenings)?;
    let mut w = TlvWriter::new();
    if let Some(seconds) = rule.max_lease_seconds {
        w.put(tag::MAX_LEASE, write64s(seconds).as_slice())?;
    }
    w.put(tag::CLAUSES, clauses.as_slice())?;
    if rule.tightenings.len() > 0 {
        w.put(tag::TIGHTENINGS, tightenings.as_slice())?;
    }
    Ok(w.finish())
}

/// The profiles in the items of tightenings, up to the first item that has not two parts.
pub open spec fn profiles_in(items: Seq<Seq<u8>>) -> Seq<Seq<u8>>
    decreases items.len(),
{
    if items.len() == 0 {
        Seq::empty()
    } else {
        let prior = profiles_in(items.drop_last());
        let parts = items_of(tag::TIGHTENINGS, items.last(), 2);
        if prior.len() == items.len() - 1 && parts is Ok && parts->Ok_0.len() == 2 {
            prior.push(parts->Ok_0[1])
        } else {
            prior
        }
    }
}

/// The profiles in the bytes of a rule, as far as they can be told apart.
pub open spec fn profiles_of(b: Seq<u8>) -> Seq<Seq<u8>> {
    match tlv::lookup(tlv::scan(b, None).0, tag::TIGHTENINGS) {
        None => Seq::empty(),
        Some(v) => match items_of(tag::TIGHTENINGS, v, MAX_TIGHTENINGS as nat) {
            Err(_) => Seq::empty(),
            Ok(items) => profiles_in(items),
        },
    }
}

proof fn profiles_in_prefix(items: Seq<Seq<u8>>, n: int)
    requires
        0 <= n <= items.len(),
        profiles_in(items.take(n)).len() < n,
    ensures
        profiles_in(items) == profiles_in(items.take(n)),
    decreases items.len() - n,
{
    if n == items.len() {
        assert(items.take(n) =~= items);
    } else {
        assert(items.take(n + 1).drop_last() =~= items.take(n));
        profiles_in_prefix(items, n + 1);
    }
}

/// The profiles in the bytes of a rule, in the bytes of the codec of policies: what the
/// codec is asked about before the rule is read.
pub fn profiles(bytes: &[u8]) -> (r: Vec<Vec<u8>>)
    ensures
        bytes::blobs(r@) == profiles_of(bytes@),
{
    let mut out: Vec<Vec<u8>> = Vec::new();
    assert(bytes::blobs(out@) =~= Seq::empty());
    let stream = match value_in(bytes, tag::TIGHTENINGS) {
        Some(v) => v,
        None => return out,
    };
    let items = match unstream(tag::TIGHTENINGS, stream.as_slice(), MAX_TIGHTENINGS) {
        Ok(items) => items,
        Err(_) => return out,
    };
    let ghost all = bytes::blobs(items@);
    let mut i: usize = 0;
    assert(all.take(0) =~= Seq::empty());
    while i < items.len()
        invariant
            i <= items@.len(),
            all == bytes::blobs(items@),
            profiles_of(bytes@) == profiles_in(all),
            out@.len() == i,
            bytes::blobs(out@) == profiles_in(all.take(i as int)),
        decreases items@.len() - i,
    {
        let ghost head = all.take(i as int + 1);
        proof {
            assert(head.drop_last() =~= all.take(i as int));
            assert(head.last() == items@[i as int]@);
        }
        match unstream(tag::TIGHTENINGS, items[i].as_slice(), 2) {
            Ok(parts) if parts.len() == 2 => {
                let ghost prior = bytes::blobs(out@);
                let profile = owned(parts[1].as_slice());
                out.push(profile);
                assert(bytes::blobs(out@) =~= prior.push(profile@));
            },
            _ => {
                proof {
                    profiles_in_prefix(all, i as int + 1);
                }
                return out;
            },
        }
        i = i + 1;
    }
    assert(all.take(i as int) =~= all);
    out
}

/// The profile of every tightening that is read is one that the codec was asked about, at
/// the same index.
pub proof fn profiles_are_asked_about(b: Seq<u8>, refused: Option<(usize, FormatError)>)
    requires
        rule_of(b, refused) is Ok,
    ensures
        ({
            let ts = rule_of(b, refused)->Ok_0.tightenings;
            &&& profiles_of(b).len() == ts.len()
            &&& forall|i: int| 0 <= i < ts.len() ==> (#[trigger] ts[i]).profile == profiles_of(b)[i]
        }),
{
    if let Some(v) = tlv::lookup(tlv::scan(b, None).0, tag::TIGHTENINGS) {
        tlv::looked_up_is_sound(RuleSchema { refused }, tlv::scan(b, None).0, tag::TIGHTENINGS);
        profiles_match(items_of(tag::TIGHTENINGS, v, MAX_TIGHTENINGS as nat)->Ok_0, refused);
    }
}

proof fn profiles_match(items: Seq<Seq<u8>>, refused: Option<(usize, FormatError)>)
    requires
        tightenings_in(items, refused) is Ok,
    ensures
        tightenings_in(items, refused)->Ok_0.len() == items.len(),
        profiles_in(items).len() == items.len(),
        forall|i: int|
            0 <= i < items.len() ==> (#[trigger] tightenings_in(items, refused)->Ok_0[i]).profile
                == profiles_in(items)[i],
    decreases items.len(),
{
    if items.len() > 0 {
        profiles_match(items.drop_last(), refused);
    }
}

/// Read a rule. `refused` is the first of its [`profiles`] that the codec of policies
/// refuses: the index of its tightening, and why.
pub fn decode(bytes: &[u8], refused: Option<(usize, FormatError)>) -> (r: Result<Rule, FormatError>)
    ensures
        tlv::agrees(r, rule_of(bytes@, refused)),
{
    let fs = read_fields(&RuleSchema { refused }, bytes)?;
    let clauses = decode_clauses(need(&fs, tag::CLAUSES)?)?;
    let tightenings = match find(&fs, tag::TIGHTENINGS) {
        Some(v) => decode_tightenings(v, refused)?,
        None => Vec::new(),
    };
    assert(tlv::lookup(tlv::records(fs@), tag::TIGHTENINGS) is None ==> tightening_views(tightenings@)
        =~= Seq::empty());
    let rule = Rule {
        clauses,
        max_lease_seconds: match find(&fs, tag::MAX_LEASE) {
            Some(v) => Some(read64s(v)),
            None => None,
        },
        tightenings,
    };
    refuse(check(&rule))?;
    Ok(rule)
}

/// How many characters stand before the first `>=`; all, where there is none.
pub open spec fn rank_sign(s: Seq<char>) -> nat
    decreases s.len(),
{
    if s.len() < 2 {
        s.len()
    } else if s[0] == '>' && s[1] == '=' {
        0
    } else {
        1 + rank_sign(s.drop_first())
    }
}

/// How many characters stand before the first of the given kind; all, where there is
/// none.
pub open spec fn first_sign(s: Seq<char>, c: char) -> nat
    decreases s.len(),
{
    if s.len() == 0 || s[0] == c {
        0
    } else {
        1 + first_sign(s.drop_first(), c)
    }
}

/// The pieces between the separators of a text.
pub open spec fn cut(s: Seq<char>, c: char) -> Seq<Seq<char>>
    decreases s.len(),
{
    if s.len() == 0 {
        seq![Seq::empty()]
    } else {
        let prior = cut(s.drop_last(), c);
        if s.last() == c {
            prior.push(Seq::empty())
        } else {
            prior.drop_last().push(prior.last().push(s.last()))
        }
    }
}

/// The condition that a text says: `name=a|b` any of them, `name=a&b` all of them,
/// `name>=a` at least. A text that mixes the two separators says none, wherever they
/// stand.
pub open spec fn parsed(text: Seq<char>) -> Result<ClauseView, &'static str> {
    let rank = rank_sign(text);
    let equals = first_sign(text, '=');
    if !text.contains('=') {
        Err("ожидалось имя=значение")
    } else if text.contains('|') && text.contains('&') {
        Err("«любое из» и «все» в одном условии не смешиваются")
    } else if rank < text.len() {
        Ok(
            ClauseView {
                attribute: text.take(rank as int),
                mode: Mode::AtLeast,
                values: seq![text.skip(rank as int + 2)],
            },
        )
    } else {
        let values = text.skip(equals as int + 1);
        let all = values.contains('&');
        Ok(
            ClauseView {
                attribute: text.take(equals as int),
                mode: if all {
                    Mode::AllOf
                } else {
                    Mode::AnyOf
                },
                values: cut(
                    values,
                    if all {
                        '&'
                    } else {
                        '|'
                    },
                ),
            },
        )
    }
}

/// How many characters stand before the first `>=`.
fn find_rank(s: &str) -> (r: usize)
    ensures
        r == rank_sign(s@),
{
    let n: usize = s.unicode_len();
    let mut i: usize = 0;
    assert(s@.skip(0) =~= s@);
    while n - i >= 2
        invariant
            i <= n,
            n == s@.len(),
            rank_sign(s@) == i + rank_sign(s@.skip(i as int)),
        decreases n - i,
    {
        assert(s@.skip(i as int).drop_first() =~= s@.skip(i as int + 1));
        if s.get_char(i) == '>' && s.get_char(i + 1) == '=' {
            return i;
        }
        i = i + 1;
    }
    n
}

/// How many characters stand before the first of the given kind.
fn find_sign(s: &str, c: char) -> (r: usize)
    ensures
        r == first_sign(s@, c),
        r <= s@.len(),
        r == s@.len() <==> !s@.contains(c),
{
    let n: usize = s.unicode_len();
    let mut i: usize = 0;
    assert(s@.skip(0) =~= s@);
    while i < n
        invariant
            i <= n,
            n == s@.len(),
            first_sign(s@, c) == i + first_sign(s@.skip(i as int), c),
            forall|j: int| 0 <= j < i ==> s@[j] != c,
        decreases n - i,
    {
        assert(s@.skip(i as int).drop_first() =~= s@.skip(i as int + 1));
        if s.get_char(i) == c {
            return i;
        }
        i = i + 1;
    }
    n
}

/// The pieces between the separators of a text.
fn split_text(s: &str, c: char) -> (r: Vec<String>)
    ensures
        text::texts(r@) == cut(s@, c),
{
    let n: usize = s.unicode_len();
    let mut out: Vec<String> = Vec::new();
    let mut from: usize = 0;
    let mut i: usize = 0;
    proof {
        assert(s@.take(0) =~= Seq::empty());
        assert(text::texts(out@).push(s@.subrange(0, 0)) =~= seq![Seq::empty()]);
    }
    while i < n
        invariant
            from <= i <= n,
            n == s@.len(),
            cut(s@.take(i as int), c) == text::texts(out@).push(s@.subrange(from as int, i as int)),
        decreases n - i,
    {
        let ghost head = s@.take(i as int + 1);
        let ghost prior = text::texts(out@);
        proof {
            assert(head.drop_last() =~= s@.take(i as int));
            assert(head.last() == s@[i as int]);
            assert(prior.push(s@.subrange(from as int, i as int)).drop_last() =~= prior);
            assert(s@.subrange(from as int, i as int + 1) =~= s@.subrange(
                from as int,
                i as int,
            ).push(s@[i as int]));
        }
        if s.get_char(i) == c {
            let piece = s.substring_char(from, i);
            out.push(piece.to_owned());
            assert(text::texts(out@) =~= prior.push(piece@));
            from = i + 1;
            assert(s@.subrange(from as int, i as int + 1) =~= Seq::empty());
        }
        i = i + 1;
    }
    let ghost prior = text::texts(out@);
    let last = s.substring_char(from, n);
    out.push(last.to_owned());
    proof {
        assert(s@.take(n as int) =~= s@);
        assert(text::texts(out@) =~= prior.push(last@));
    }
    out
}

/// Read a condition as it is typed: `name=a|b` any of them, `name=a&b` all of them,
/// `name>=a` at least. A text without `=` is refused, and so is one that mixes `|` and
/// `&`. Whether the names are identifiers is seen when it is written.
pub fn parse_clause(text: &str) -> (r: Result<Clause, &'static str>)
    ensures
        tlv::agrees(r, parsed(text@)),
{
    let n: usize = text.unicode_len();
    let equals = find_sign(text, '=');
    if equals == n {
        return Err("ожидалось имя=значение");
    }
    if find_sign(text, '|') < n && find_sign(text, '&') < n {
        return Err("«любое из» и «все» в одном условии не смешиваются");
    }
    let rank = find_rank(text);
    proof {
        rank_fits(text@);
    }
    if rank < n {
        let attribute = text.substring_char(0, rank);
        let value = text.substring_char(rank + 2, n);
        let mut values: Vec<String> = Vec::new();
        values.push(value.to_owned());
        proof {
            assert(attribute@ =~= text@.take(rank as int));
            assert(value@ =~= text@.skip(rank + 2));
            assert(text::texts(values@) =~= seq![value@]);
        }
        return Ok(Clause { attribute: attribute.to_owned(), mode: Mode::AtLeast, values });
    }
    let attribute = text.substring_char(0, equals);
    let values = text.substring_char(equals + 1, n);
    proof {
        assert(attribute@ =~= text@.take(equals as int));
        assert(values@ =~= text@.skip(equals + 1));
    }
    if find_sign(values, '&') < values.unicode_len() {
        Ok(
            Clause {
                attribute: attribute.to_owned(),
                mode: Mode::AllOf,
                values: split_text(values, '&'),
            },
        )
    } else {
        Ok(
            Clause {
                attribute: attribute.to_owned(),
                mode: Mode::AnyOf,
                values: split_text(values, '|'),
            },
        )
    }
}

proof fn rank_fits(s: Seq<char>)
    ensures
        rank_sign(s) <= s.len(),
        rank_sign(s) < s.len() ==> rank_sign(s) + 2 <= s.len(),
    decreases s.len(),
{
    if s.len() >= 2 {
        rank_fits(s.drop_first());
    }
}

/// A condition as it is typed.
pub open spec fn typed(c: ClauseView) -> Seq<char> {
    match c.mode {
        Mode::AnyOf => c.attribute + seq!['='] + joined(c.values, '|'),
        Mode::AllOf => c.attribute + seq!['='] + joined(c.values, '&'),
        Mode::AtLeast => c.attribute + seq!['>', '='] + joined(c.values, '|'),
    }
}

/// Texts with a separator between them.
pub open spec fn joined(ss: Seq<Seq<char>>, c: char) -> Seq<char>
    decreases ss.len(),
{
    if ss.len() == 0 {
        Seq::empty()
    } else if ss.len() == 1 {
        ss[0]
    } else {
        joined(ss.drop_last(), c) + seq![c] + ss.last()
    }
}

/// A text without the signs that part a condition.
pub open spec fn signless(s: Seq<char>) -> bool {
    forall|i: int|
        0 <= i < s.len() ==> (#[trigger] s[i]) != '=' && s[i] != '>' && s[i] != '&' && s[i] != '|'
}

proof fn identifier_bytes_are_signless(s: Seq<char>)
    requires
        forall|i: int| 0 <= i < encode_utf8(s).len()
            ==> identifier_byte(#[trigger] encode_utf8(s)[i]),
    ensures
        signless(s),
    decreases s.len(),
{
    if s.len() > 0 {
        let first = encode_scalar(s[0] as u32);
        let rest = encode_utf8(s.drop_first());
        assert(encode_utf8(s) == first + rest);
        assert forall|i: int| 0 <= i < rest.len() implies identifier_byte(#[trigger] rest[i]) by {
            assert(encode_utf8(s)[first.len() + i] == rest[i]);
        }
        identifier_bytes_are_signless(s.drop_first());
        assert(s[0] != '=' && s[0] != '>' && s[0] != '&' && s[0] != '|') by {
            assert(encode_utf8(s)[0] == first[0]);
            assert(0x3du32 & 0x7f == 0x3d && 0x3eu32 & 0x7f == 0x3e && 0x26u32 & 0x7f == 0x26 && 0x7cu32
                & 0x7f == 0x7c) by (bit_vector);
        }
        assert(s =~= seq![s[0]] + s.drop_first());
    }
}

/// The signs that part a condition stand in no identifier.
pub proof fn identifiers_are_signless(s: Seq<char>)
    requires
        identifier(s),
    ensures
        signless(s),
{
    identifier_bytes_are_signless(s);
}

proof fn joined_has_no_other_sign(ss: Seq<Seq<char>>, c: char, d: char)
    requires
        forall|i: int| 0 <= i < ss.len() ==> !(#[trigger] ss[i]).contains(d),
        c != d,
    ensures
        !joined(ss, c).contains(d),
    decreases ss.len(),
{
    if ss.len() > 1 {
        joined_has_no_other_sign(ss.drop_last(), c, d);
    }
}

proof fn joined_has_its_separator(ss: Seq<Seq<char>>, c: char)
    requires
        ss.len() > 1,
    ensures
        joined(ss, c).contains(c),
{
    let head = joined(ss.drop_last(), c);
    assert(joined(ss, c)[head.len() as int] == c);
}

proof fn cut_behind(s: Seq<char>, t: Seq<char>, c: char)
    requires
        !t.contains(c),
    ensures
        cut(s + seq![c] + t, c) == cut(s, c).push(t),
    decreases t.len(),
{
    let all = s + seq![c] + t;
    if t.len() == 0 {
        assert(all.drop_last() =~= s);
        assert(t =~= Seq::empty());
    } else {
        let head = t.drop_last();
        assert(!head.contains(c)) by {
            if head.contains(c) {
                let i = head.index_of(c);
                assert(t[i] == c);
            }
        }
        cut_behind(s, head, c);
        assert(all.drop_last() =~= s + seq![c] + head);
        assert(all.last() == t.last());
        assert(t.last() != c) by {
            assert(t.contains(t.last()));
        }
        assert(cut(s, c).push(head).drop_last() =~= cut(s, c));
        assert(head.push(t.last()) =~= t);
    }
}

proof fn cut_whole(t: Seq<char>, c: char)
    requires
        !t.contains(c),
    ensures
        cut(t, c) == seq![t],
    decreases t.len(),
{
    if t.len() == 0 {
        assert(t =~= Seq::empty());
    } else {
        let head = t.drop_last();
        assert(!head.contains(c)) by {
            if head.contains(c) {
                let i = head.index_of(c);
                assert(t[i] == c);
            }
        }
        cut_whole(head, c);
        assert(t.contains(t.last()));
        assert(head.push(t.last()) =~= t);
        assert(seq![head].drop_last().push(t) =~= seq![t]);
    }
}

/// Joined texts are cut into the same texts, where none of them has the separator.
pub proof fn cut_undoes_joined(ss: Seq<Seq<char>>, c: char)
    requires
        ss.len() > 0,
        forall|i: int| 0 <= i < ss.len() ==> !(#[trigger] ss[i]).contains(c),
    ensures
        cut(joined(ss, c), c) == ss,
    decreases ss.len(),
{
    if ss.len() == 1 {
        cut_whole(ss[0], c);
        assert(seq![ss[0]] =~= ss);
    } else {
        cut_undoes_joined(ss.drop_last(), c);
        cut_behind(joined(ss.drop_last(), c), ss.last(), c);
        assert(ss.drop_last().push(ss.last()) =~= ss);
    }
}

proof fn first_sign_behind(s: Seq<char>, t: Seq<char>, c: char)
    requires
        !s.contains(c),
    ensures
        first_sign(s + seq![c] + t, c) == s.len(),
    decreases s.len(),
{
    let all = s + seq![c] + t;
    if s.len() > 0 {
        let rest = s.drop_first();
        assert(!rest.contains(c)) by {
            if rest.contains(c) {
                let i = rest.index_of(c);
                assert(s[i + 1] == c);
            }
        }
        first_sign_behind(rest, t, c);
        assert(all.drop_first() =~= rest + seq![c] + t);
        assert(s.contains(s[0]));
    }
}

proof fn rank_sign_behind(s: Seq<char>, t: Seq<char>)
    requires
        !s.contains('>'),
    ensures
        rank_sign(s + seq!['>', '='] + t) == s.len(),
    decreases s.len(),
{
    let all = s + seq!['>', '='] + t;
    if s.len() > 0 {
        let rest = s.drop_first();
        assert(!rest.contains('>')) by {
            if rest.contains('>') {
                let i = rest.index_of('>');
                assert(s[i + 1] == '>');
            }
        }
        rank_sign_behind(rest, t);
        assert(all.drop_first() =~= rest + seq!['>', '='] + t);
        assert(s.contains(s[0]));
    }
}

proof fn no_rank_sign(s: Seq<char>)
    requires
        !s.contains('>'),
    ensures
        rank_sign(s) == s.len(),
    decreases s.len(),
{
    if s.len() >= 2 {
        let rest = s.drop_first();
        assert(!rest.contains('>')) by {
            if rest.contains('>') {
                let i = rest.index_of('>');
                assert(s[i + 1] == '>');
            }
        }
        no_rank_sign(rest);
        assert(s.contains(s[0]));
    }
}

/// A condition on identifiers, however many, is read from the command line as it was
/// typed: the signs between its parts stand in no identifier. Only all of a single value
/// comes back in another mode, as any of that value; at least takes one value.
pub proof fn typed_clause_is_read(c: ClauseView)
    requires
        identifier(c.attribute),
        all_identifiers(c.values),
        c.values.len() > 0,
        c.mode == Mode::AllOf ==> c.values.len() > 1,
        c.mode == Mode::AtLeast ==> c.values.len() == 1,
    ensures
        parsed(typed(c)) == Ok::<ClauseView, &'static str>(c),
{
    identifiers_are_signless(c.attribute);
    assert forall|i: int| 0 <= i < c.values.len() implies signless(#[trigger] c.values[i]) by {
        identifiers_are_signless(c.values[i]);
    }
    let text = typed(c);
    if c.mode == Mode::AtLeast {
        let value = joined(c.values, '|');
        rank_sign_behind(c.attribute, value);
        assert(text[c.attribute.len() as int + 1] == '=');
        assert(!text.contains('&'));
        assert(text.take(c.attribute.len() as int) =~= c.attribute);
        assert(text.skip(c.attribute.len() as int + 2) =~= value);
        assert(seq![value] =~= c.values);
    } else {
        let sign = if c.mode == Mode::AllOf {
            '&'
        } else {
            '|'
        };
        let values = joined(c.values, sign);
        joined_has_no_other_sign(c.values, sign, '>');
        assert(!text.contains('>'));
        no_rank_sign(text);
        first_sign_behind(c.attribute, values, '=');
        assert(text.take(c.attribute.len() as int) =~= c.attribute);
        assert(text.skip(c.attribute.len() as int + 1) =~= values);
        if c.mode == Mode::AllOf {
            joined_has_its_separator(c.values, '&');
            joined_has_no_other_sign(c.values, '&', '|');
        } else {
            joined_has_no_other_sign(c.values, '|', '&');
        }
        assert(text[c.attribute.len() as int] == '=');
        assert(!text.contains('|') || !text.contains('&')) by {
            if c.mode == Mode::AllOf {
                assert(!text.contains('|'));
            } else {
                assert(!text.contains('&'));
            }
        }
        cut_undoes_joined(c.values, sign);
    }
}

/// A text without `=`, and one that mixes the two separators, says no condition; every
/// other text says one.
pub proof fn two_errors_of_a_typed_clause(text: Seq<char>)
    ensures
        parsed(text) is Ok <==> text.contains('=') && !(text.contains('|') && text.contains('&')),
{
}

} // verus!
