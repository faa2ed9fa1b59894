//! Records of a tag, a length and a value: `tag u16 ‖ len u32 ‖ value`, numbers
//! least significant byte first, tags strictly ascending.
//!
//! A document is the sequence of its records. Tags ascend, so no tag occurs twice
//! and [`lookup`] names the one value that a tag has.

use crate::bytes::{self, append, owned, part, read16, read32, write16, write32};
use crate::error::FormatError;
use vstd::prelude::*;

pub mod laws;

verus! {

/// The bytes before a value: its tag and its length.
pub const HEAD_LEN: usize = 6;

/// The longest header of a container, and with it the longest document.
pub const MAX_HEADER_LEN: usize = 1024 * 1024;

/// A record in the mathematical model of a document.
pub type Rec = (u16, Seq<u8>);

/// A record as it stands in the bytes of a document.
#[derive(Debug, Clone, Copy)]
pub struct Field<'a> {
    pub tag: u16,
    pub value: &'a [u8],
}

/// What the records of a document hold.
pub open spec fn records(fs: Seq<Field>) -> Seq<Rec> {
    fs.map_values(|f: Field| (f.tag, f.value@))
}

/// The bytes of one record.
pub open spec fn record_bytes(r: Rec) -> Seq<u8> {
    bytes::le16(r.0) + bytes::le32(r.1.len() as u32) + r.1
}

/// The bytes of a document.
pub open spec fn wire(rs: Seq<Rec>) -> Seq<u8>
    decreases rs.len(),
{
    if rs.len() == 0 {
        Seq::empty()
    } else {
        wire(rs.drop_last()) + record_bytes(rs.last())
    }
}

/// The length of a value fits the record's head.
pub open spec fn fits(r: Rec) -> bool {
    r.1.len() <= u32::MAX
}

/// The lengths of all values fit.
pub open spec fn fit(rs: Seq<Rec>) -> bool {
    forall|i: int| 0 <= i < rs.len() ==> fits(#[trigger] rs[i])
}

/// Every tag is below the given one.
pub open spec fn below(rs: Seq<Rec>, tag: u16) -> bool {
    forall|i: int| 0 <= i < rs.len() ==> (#[trigger] rs[i]).0 < tag
}

/// The tags strictly ascend.
pub open spec fn ascending(rs: Seq<Rec>) -> bool {
    forall|i: int, j: int| 0 <= i < j < rs.len() ==> (#[trigger] rs[i]).0 < (#[trigger] rs[j]).0
}

/// A sequence of records that can be written: tags strictly ascend and every
/// length fits.
pub open spec fn writable(rs: Seq<Rec>) -> bool {
    fit(rs) && ascending(rs)
}

/// The bytes that ascending records are written to; there are none where a value
/// is too long for its head.
pub open spec fn sealed(rs: Seq<Rec>) -> Result<Seq<u8>, FormatError> {
    if fit(rs) {
        Ok(wire(rs))
    } else {
        Err(FormatError::OffsetOverflow)
    }
}

/// What a function returns is what the model says, values taken by their view.
pub open spec fn agrees<T: View, E>(r: Result<T, E>, s: Result<T::V, E>) -> bool {
    match r {
        Ok(t) => s == Ok::<T::V, E>(t@),
        Err(e) => s == Err::<T::V, E>(e),
    }
}

/// What the bytes hold from the front: the whole records up to the first place
/// where the layout is broken, and what is wrong there. `above` is the tag that
/// the first record has to exceed.
pub open spec fn scan(bytes: Seq<u8>, above: Option<u16>) -> (Seq<Rec>, Option<FormatError>)
    decreases bytes.len(),
{
    if bytes.len() == 0 {
        (Seq::empty(), None)
    } else if bytes.len() < HEAD_LEN {
        (
            Seq::empty(),
            Some(FormatError::Truncated { need: HEAD_LEN as u64, have: bytes.len() as u64 }),
        )
    } else {
        let tag = bytes::num16(bytes.subrange(0, 2));
        let len = bytes::num32(bytes.subrange(2, 6));
        if above is Some && tag <= above->0 {
            (Seq::empty(), Some(FormatError::FieldsOutOfOrder { previous: above->0, found: tag }))
        } else if bytes.len() - HEAD_LEN < len {
            (
                Seq::empty(),
                Some(
                    FormatError::Truncated {
                        need: len as u64,
                        have: (bytes.len() - HEAD_LEN) as u64,
                    },
                ),
            )
        } else {
            let tail = scan(bytes.skip(HEAD_LEN + len), Some(tag));
            (seq![(tag, bytes.subrange(HEAD_LEN as int, HEAD_LEN + len))] + tail.0, tail.1)
        }
    }
}

/// The value that a tag has.
pub open spec fn lookup(rs: Seq<Rec>, tag: u16) -> Option<Seq<u8>>
    decreases rs.len(),
{
    if rs.len() == 0 {
        None
    } else if rs.last().0 == tag {
        Some(rs.last().1)
    } else {
        lookup(rs.drop_last(), tag)
    }
}

/// The records followed by one more, where there is one.
pub open spec fn with_opt(rs: Seq<Rec>, tag: u16, value: Option<Seq<u8>>) -> Seq<Rec> {
    match value {
        Some(v) => rs.push((tag, v)),
        None => rs,
    }
}

/// The rule by which one kind of document judges its fields, each by itself.
pub trait Schema {
    /// What is wrong with a value under a tag.
    spec fn fault(&self, tag: u16, value: Seq<u8>) -> Option<FormatError>;

    /// What is wrong with a value under a tag.
    fn check(&self, tag: u16, value: &[u8]) -> (r: Option<FormatError>)
        ensures
            r == self.fault(tag, value@),
    ;
}

/// What is wrong with the first record that its schema refuses.
pub open spec fn first_fault<S: Schema>(s: S, rs: Seq<Rec>) -> Option<FormatError>
    decreases rs.len(),
{
    if rs.len() == 0 {
        None
    } else {
        match first_fault(s, rs.drop_last()) {
            Some(e) => Some(e),
            None => s.fault(rs.last().0, rs.last().1),
        }
    }
}

/// The records of a document that its schema admits. A record is judged before
/// the bytes behind it are looked at.
pub open spec fn read<S: Schema>(s: S, bytes: Seq<u8>) -> Result<Seq<Rec>, FormatError> {
    let (rs, torn) = scan(bytes, None);
    match first_fault(s, rs) {
        Some(e) => Err(e),
        None => match torn {
            Some(e) => Err(e),
            None => Ok(rs),
        },
    }
}

/// Looking a tag up behind one more record.
pub broadcast proof fn lookup_push(rs: Seq<Rec>, r: Rec, tag: u16)
    ensures
        #[trigger] lookup(rs.push(r), tag) == if r.0 == tag {
            Some(r.1)
        } else {
            lookup(rs, tag)
        },
{
    assert(rs.push(r).drop_last() =~= rs);
}

/// A tag of a record has the record's value.
proof fn lookup_is_some(rs: Seq<Rec>, i: int)
    requires
        ascending(rs),
        0 <= i < rs.len(),
    ensures
        lookup(rs, rs[i].0) == Some(rs[i].1),
    decreases rs.len(),
{
    if i < rs.len() - 1 {
        assert(rs.drop_last()[i] == rs[i]);
        assert forall|a: int, b: int| 0 <= a < b < rs.drop_last().len() implies (
        #[trigger] rs.drop_last()[a]).0 < (#[trigger] rs.drop_last()[b]).0 by {
            assert(rs[a].0 < rs[b].0);
        }
        lookup_is_some(rs.drop_last(), i);
        assert(rs[i].0 < rs[rs.len() - 1].0);
    }
}

/// A tag with a value stands among the records.
proof fn lookup_index(rs: Seq<Rec>, tag: u16) -> (i: int)
    requires
        lookup(rs, tag) is Some,
    ensures
        0 <= i < rs.len(),
        rs[i].0 == tag,
    decreases rs.len(),
{
    if rs.last().0 == tag {
        rs.len() - 1
    } else {
        lookup_index(rs.drop_last(), tag)
    }
}

/// Two documents in which every tag has the same value are one document.
pub proof fn same_values_same_records(a: Seq<Rec>, b: Seq<Rec>)
    requires
        ascending(a),
        ascending(b),
        forall|tag: u16| #[trigger] lookup(a, tag) == lookup(b, tag),
    ensures
        a == b,
    decreases a.len(),
{
    if a.len() == 0 {
        if b.len() > 0 {
            lookup_is_some(b, 0);
            assert(lookup(a, b[0].0) == lookup(b, b[0].0));
        }
        assert(a =~= b);
    } else {
        let t = a.last().0;
        lookup_is_some(a, a.len() - 1);
        assert(lookup(a, t) == lookup(b, t));
        let i = lookup_index(b, t);
        let u = b.last().0;
        lookup_is_some(b, b.len() - 1);
        assert(lookup(a, u) == lookup(b, u));
        let j = lookup_index(a, u);
        assert(t == u) by {
            if i < b.len() - 1 {
                assert(b[i].0 < b[b.len() - 1].0);
            }
            if j < a.len() - 1 {
                assert(a[j].0 < a[a.len() - 1].0);
            }
        }
        let da = a.drop_last();
        let db = b.drop_last();
        assert forall|x: int, y: int| 0 <= x < y < da.len() implies (#[trigger] da[x]).0 < (
        #[trigger] da[y]).0 by {
            assert(a[x].0 < a[y].0);
        }
        assert forall|x: int, y: int| 0 <= x < y < db.len() implies (#[trigger] db[x]).0 < (
        #[trigger] db[y]).0 by {
            assert(b[x].0 < b[y].0);
        }
        assert forall|tag: u16| #[trigger] lookup(da, tag) == lookup(db, tag) by {
            assert(lookup(a, tag) == lookup(b, tag));
            if tag == t {
                if lookup(da, tag) is Some {
                    let k = lookup_index(da, tag);
                    assert(a[k].0 < a[a.len() - 1].0);
                }
                if lookup(db, tag) is Some {
                    let k = lookup_index(db, tag);
                    assert(b[k].0 < b[b.len() - 1].0);
                }
            }
        }
        same_values_same_records(da, db);
        assert(a =~= da.push(a.last()));
        assert(b =~= db.push(b.last()));
    }
}

/// The first fault behind one more record.
pub broadcast proof fn first_fault_push<S: Schema>(s: S, rs: Seq<Rec>, r: Rec)
    ensures
        #[trigger] first_fault(s, rs.push(r)) == match first_fault(s, rs) {
            Some(e) => Some(e),
            None => s.fault(r.0, r.1),
        },
{
    assert(rs.push(r).drop_last() =~= rs);
}

/// The bytes of one more record stand behind the bytes of the others.
pub broadcast proof fn wire_push(rs: Seq<Rec>, r: Rec)
    ensures
        #[trigger] wire(rs.push(r)) == wire(rs) + record_bytes(r),
{
    assert(rs.push(r).drop_last() =~= rs);
}

/// How long a document is with one more record.
pub broadcast proof fn wire_len_push(rs: Seq<Rec>, r: Rec)
    ensures
        #[trigger] wire(rs.push(r)).len() == wire(rs).len() + HEAD_LEN + r.1.len(),
{
    broadcast use {wire_push, bytes::group_numbers};

}

/// In an empty document no tag has a value.
pub broadcast proof fn lookup_empty(tag: u16)
    ensures
        #[trigger] lookup(Seq::<Rec>::empty(), tag) == None::<Seq<u8>>,
{
}

/// An empty document has no fault.
pub broadcast proof fn first_fault_empty<S: Schema>(s: S)
    ensures
        #[trigger] first_fault(s, Seq::<Rec>::empty()) == None::<FormatError>,
{
}

/// One more record fits and ascends, or not.
pub broadcast proof fn fit_push(rs: Seq<Rec>, r: Rec)
    ensures
        #[trigger] fit(rs.push(r)) == (fit(rs) && fits(r)),
{
    assert forall|i: int| 0 <= i < rs.len() implies rs.push(r)[i] == #[trigger] rs[i] by {}
    assert(rs.push(r)[rs.len() as int] == r);
    if fit(rs.push(r)) {
        assert forall|i: int| 0 <= i < rs.len() implies fits(#[trigger] rs[i]) by {
            assert(fits(rs.push(r)[i]));
        }
    }
}

/// One more tag is below the given one, or not.
pub broadcast proof fn below_push(rs: Seq<Rec>, r: Rec, tag: u16)
    ensures
        #[trigger] below(rs.push(r), tag) == (below(rs, tag) && r.0 < tag),
{
    assert(rs.push(r)[rs.len() as int] == r);
    if below(rs.push(r), tag) {
        assert forall|i: int| 0 <= i < rs.len() implies (#[trigger] rs[i]).0 < tag by {
            assert(rs.push(r)[i].0 < tag);
        }
    }
}

/// What is below a tag is below every greater one.
pub proof fn below_is_monotone(rs: Seq<Rec>, a: u16, b: u16)
    requires
        below(rs, a),
        a <= b,
    ensures
        below(rs, b),
{
}

/// One more record ascends where its tag exceeds all others.
pub broadcast proof fn ascending_push(rs: Seq<Rec>, r: Rec)
    ensures
        #[trigger] ascending(rs.push(r)) == (ascending(rs) && below(rs, r.0)),
{
    let more = rs.push(r);
    assert(more[rs.len() as int] == r);
    if ascending(more) {
        assert forall|i: int| 0 <= i < rs.len() implies (#[trigger] rs[i]).0 < r.0 by {
            assert(more[i].0 < more[rs.len() as int].0);
        }
        assert forall|i: int, j: int| 0 <= i < j < rs.len() implies (#[trigger] rs[i]).0 < (
        #[trigger] rs[j]).0 by {
            assert(more[i].0 < more[j].0);
        }
    }
}

/// Without records there is nothing to object to.
pub broadcast proof fn fit_empty()
    ensures
        #[trigger] fit(Seq::<Rec>::empty()),
{
}

/// Without records there is nothing to object to.
pub broadcast proof fn below_empty(tag: u16)
    ensures
        #[trigger] below(Seq::<Rec>::empty(), tag),
{
}

/// Without records there is nothing to object to.
pub broadcast proof fn ascending_empty()
    ensures
        #[trigger] ascending(Seq::<Rec>::empty()),
{
}

/// Looking a tag up behind a record that may be absent.
pub broadcast proof fn lookup_with_opt(rs: Seq<Rec>, t: u16, v: Option<Seq<u8>>, tag: u16)
    ensures
        #[trigger] lookup(with_opt(rs, t, v), tag) == if t == tag && v is Some {
            v
        } else {
            lookup(rs, tag)
        },
{
    broadcast use lookup_push;

}

/// The first fault behind a record that may be absent.
pub broadcast proof fn first_fault_with_opt<S: Schema>(
    s: S,
    rs: Seq<Rec>,
    t: u16,
    v: Option<Seq<u8>>,
)
    ensures
        #[trigger] first_fault(s, with_opt(rs, t, v)) == match first_fault(s, rs) {
            Some(e) => Some(e),
            None => if v is Some {
                s.fault(t, v->0)
            } else {
                None
            },
        },
{
    broadcast use first_fault_push;

}

/// A record that may be absent fits, or not.
pub broadcast proof fn fit_with_opt(rs: Seq<Rec>, t: u16, v: Option<Seq<u8>>)
    ensures
        #[trigger] fit(with_opt(rs, t, v)) == (fit(rs) && (v is Some ==> fits((t, v->0)))),
{
    broadcast use fit_push;

}

/// The tag of a record that may be absent is below the given one, or not.
pub broadcast proof fn below_with_opt(rs: Seq<Rec>, t: u16, v: Option<Seq<u8>>, tag: u16)
    ensures
        #[trigger] below(with_opt(rs, t, v), tag) == (below(rs, tag) && (v is Some ==> t < tag)),
{
    broadcast use below_push;

}

/// A record that may be absent ascends where its tag exceeds all others.
pub broadcast proof fn ascending_with_opt(rs: Seq<Rec>, t: u16, v: Option<Seq<u8>>)
    ensures
        #[trigger] ascending(with_opt(rs, t, v)) == (ascending(rs) && (v is Some ==> below(rs, t))),
{
    broadcast use ascending_push;

}

pub broadcast group group_records {
    lookup_push,
    lookup_empty,
    lookup_with_opt,
    first_fault_push,
    first_fault_empty,
    first_fault_with_opt,
    fit_push,
    fit_empty,
    fit_with_opt,
    below_push,
    below_empty,
    below_with_opt,
    ascending_push,
    ascending_empty,
    ascending_with_opt,
}

/// The verdict on a value that has to have a fixed length.
pub open spec fn length_fault(tag: u16, value: Seq<u8>, len: nat) -> Option<FormatError> {
    if value.len() == len {
        None
    } else {
        Some(FormatError::BadFieldLength { tag, len: value.len() as usize })
    }
}

/// The verdict on a value that has to have a fixed length.
pub fn check_length(tag: u16, value: &[u8], len: usize) -> (r: Option<FormatError>)
    ensures
        r == length_fault(tag, value@, len as nat),
{
    if value.len() == len {
        None
    } else {
        Some(FormatError::BadFieldLength { tag, len: value.len() })
    }
}

/// A value that a schema let pass has no fault.
pub proof fn looked_up_is_sound<S: Schema>(s: S, rs: Seq<Rec>, tag: u16)
    requires
        first_fault(s, rs) is None,
        lookup(rs, tag) is Some,
    ensures
        s.fault(tag, lookup(rs, tag)->0) is None,
    decreases rs.len(),
{
    if rs.last().0 != tag {
        looked_up_is_sound(s, rs.drop_last(), tag);
    }
}

/// The bytes of a document begin with the bytes of its first record.
proof fn wire_first(rs: Seq<Rec>)
    requires
        rs.len() > 0,
    ensures
        wire(rs) == record_bytes(rs[0]) + wire(rs.drop_first()),
    decreases rs.len(),
{
    if rs.len() == 1 {
        assert(rs.drop_last() =~= Seq::empty());
        assert(rs.drop_first() =~= Seq::empty());
        assert(wire(rs) =~= record_bytes(rs[0]) + wire(rs.drop_first()));
    } else {
        wire_first(rs.drop_last());
        assert(rs.drop_last().drop_first() =~= rs.drop_first().drop_last());
        assert(wire(rs) =~= record_bytes(rs[0]) + wire(rs.drop_first()));
    }
}

proof fn scan_wire_above(rs: Seq<Rec>, above: Option<u16>)
    requires
        writable(rs),
        above is Some && rs.len() > 0 ==> above->0 < rs[0].0,
    ensures
        scan(wire(rs), above) == (rs, None::<FormatError>),
    decreases rs.len(),
{
    broadcast use bytes::group_numbers;

    if rs.len() > 0 {
        wire_first(rs);
        let b = wire(rs);
        let r = rs[0];
        let n = r.1.len() as u32;
        assert(fits(r));
        assert(b.subrange(0, 2) =~= bytes::le16(r.0));
        assert(b.subrange(2, 6) =~= bytes::le32(n));
        assert(b.subrange(6, 6 + n) =~= r.1);
        assert(b.skip(HEAD_LEN + n) =~= wire(rs.drop_first()));
        scan_wire_above(rs.drop_first(), Some(r.0));
        assert(seq![r] + rs.drop_first() =~= rs);
    }
}

/// Reading a document gives back the records that were written.
pub proof fn scan_wire(rs: Seq<Rec>)
    requires
        writable(rs),
    ensures
        scan(wire(rs), None) == (rs, None::<FormatError>),
{
    scan_wire_above(rs, None);
}

proof fn wire_scan_above(bytes: Seq<u8>, above: Option<u16>)
    requires
        scan(bytes, above).1 is None,
    ensures
        wire(scan(bytes, above).0) == bytes,
        writable(scan(bytes, above).0),
        above is Some ==> forall|i: int|
            0 <= i < scan(bytes, above).0.len() ==> above->0 < (#[trigger] scan(
                bytes,
                above,
            ).0[i]).0,
    decreases bytes.len(),
{
    broadcast use bytes::group_numbers;

    if bytes.len() > 0 {
        let tag = bytes::num16(bytes.subrange(0, 2));
        let len = bytes::num32(bytes.subrange(2, 6));
        let rest = bytes.skip(HEAD_LEN + len);
        wire_scan_above(rest, Some(tag));
        let rs = scan(bytes, above).0;
        let tail = scan(rest, Some(tag)).0;
        assert(rs.drop_first() =~= tail);
        wire_first(rs);
        assert(bytes =~= record_bytes(rs[0]) + rest);
        assert forall|i: int, j: int| 0 <= i < j < rs.len() implies (#[trigger] rs[i]).0 < (
        #[trigger] rs[j]).0 by {
            assert(rs[j] == tail[j - 1]);
            if i > 0 {
                assert(rs[i] == tail[i - 1]);
            }
        }
        assert forall|i: int| 0 <= i < rs.len() implies fits(#[trigger] rs[i]) by {
            if i > 0 {
                assert(rs[i] == tail[i - 1]);
            }
        }
        if above is Some {
            assert forall|i: int| 0 <= i < rs.len() implies above->0 < (#[trigger] rs[i]).0 by {
                if i > 0 {
                    assert(rs[i] == tail[i - 1]);
                }
            }
        }
    }
}

proof fn scan_ascends_above(bytes: Seq<u8>, above: Option<u16>)
    ensures
        ascending(scan(bytes, above).0),
        above is Some ==> forall|i: int|
            0 <= i < scan(bytes, above).0.len() ==> above->0 < (#[trigger] scan(
                bytes,
                above,
            ).0[i]).0,
    decreases bytes.len(),
{
    let rs = scan(bytes, above).0;
    if rs.len() > 0 {
        let tag = bytes::num16(bytes.subrange(0, 2));
        let len = bytes::num32(bytes.subrange(2, 6));
        let rest = bytes.skip(HEAD_LEN + len);
        scan_ascends_above(rest, Some(tag));
        let tail = scan(rest, Some(tag)).0;
        assert(rs.drop_first() =~= tail);
        assert forall|i: int, j: int| 0 <= i < j < rs.len() implies (#[trigger] rs[i]).0 < (
        #[trigger] rs[j]).0 by {
            assert(rs[j] == tail[j - 1]);
            if i > 0 {
                assert(rs[i] == tail[i - 1]);
            }
        }
        if above is Some {
            assert forall|i: int| 0 <= i < rs.len() implies above->0 < (#[trigger] rs[i]).0 by {
                if i > 0 {
                    assert(rs[i] == tail[i - 1]);
                }
            }
        }
    }
}

/// The tags of the records that are read ascend, whatever is wrong behind them.
pub proof fn scan_ascends(bytes: Seq<u8>)
    ensures
        ascending(scan(bytes, None).0),
{
    scan_ascends_above(bytes, None);
}

/// A document has one form only: the bytes that were read without a fault are
/// those that the records found in them are written to.
pub proof fn wire_scan(bytes: Seq<u8>)
    requires
        scan(bytes, None).1 is None,
    ensures
        wire(scan(bytes, None).0) == bytes,
        writable(scan(bytes, None).0),
{
    wire_scan_above(bytes, None);
}

/// A document whose records its schema admits is read back whole.
pub proof fn read_wire<S: Schema>(s: S, rs: Seq<Rec>)
    requires
        writable(rs),
        first_fault(s, rs) is None,
    ensures
        read(s, wire(rs)) == Ok::<Seq<Rec>, FormatError>(rs),
{
    scan_wire(rs);
}

/// The verdict on a value that may not be empty, nor longer than a limit.
pub open spec fn bounded_fault(tag: u16, value: Seq<u8>, limit: nat) -> Option<FormatError> {
    if value.len() == 0 || value.len() > limit {
        Some(FormatError::BadFieldLength { tag, len: value.len() as usize })
    } else {
        None
    }
}

/// The verdict on a value that may not be empty, nor longer than a limit.
pub fn check_bounded(tag: u16, value: &[u8], limit: usize) -> (r: Option<FormatError>)
    ensures
        r == bounded_fault(tag, value@, limit as nat),
{
    if value.len() == 0 || value.len() > limit {
        Some(FormatError::BadFieldLength { tag, len: value.len() })
    } else {
        None
    }
}

/// The first of two objections.
pub open spec fn or_else(a: Option<FormatError>, b: Option<FormatError>) -> Option<FormatError> {
    match a {
        Some(e) => Some(e),
        None => b,
    }
}

/// Refuse with the objection, where there is one.
pub fn refuse(fault: Option<FormatError>) -> (r: Result<(), FormatError>)
    ensures
        match fault {
            Some(e) => r == Err::<(), FormatError>(e),
            None => r == Ok::<(), FormatError>(()),
        },
{
    match fault {
        Some(e) => Err(e),
        None => Ok(()),
    }
}

/// The verdict on a value that is a flag: exactly zero or one.
pub open spec fn flag_fault(tag: u16, value: Seq<u8>) -> Option<FormatError> {
    if value.len() != 1 {
        Some(FormatError::BadFieldLength { tag, len: value.len() as usize })
    } else if value[0] > 1 {
        Some(FormatError::BadFieldLength { tag, len: 1 })
    } else {
        None
    }
}

/// The verdict on a value that is a flag.
pub fn check_flag(tag: u16, value: &[u8]) -> (r: Option<FormatError>)
    ensures
        r == flag_fault(tag, value@),
{
    if value.len() != 1 {
        Some(FormatError::BadFieldLength { tag, len: value.len() })
    } else if value[0] > 1 {
        Some(FormatError::BadFieldLength { tag, len: 1 })
    } else {
        None
    }
}

/// One whole record, or what is wrong where it should begin.
fn next_record<'a>(
    bytes: &'a [u8],
    above: Option<u16>,
) -> (r: Result<(Field<'a>, &'a [u8]), FormatError>)
    requires
        bytes@.len() > 0,
    ensures
        match r {
            Ok((f, rest)) => {
                let tail = scan(rest@, Some(f.tag));
                &&& rest@.len() < bytes@.len()
                &&& scan(bytes@, above) == (seq![(f.tag, f.value@)] + tail.0, tail.1)
            },
            Err(e) => scan(bytes@, above) == (Seq::<Rec>::empty(), Some(e)),
        },
{
    if bytes.len() < HEAD_LEN {
        return Err(FormatError::Truncated { need: HEAD_LEN as u64, have: bytes.len() as u64 });
    }
    let tag: u16 = read16(part(bytes, 0, 2));
    let len: u32 = read32(part(bytes, 2, 6));
    if let Some(previous) = above {
        if tag <= previous {
            return Err(FormatError::FieldsOutOfOrder { previous, found: tag });
        }
    }
    let have: usize = bytes.len() - HEAD_LEN;
    if (have as u64) < (len as u64) {
        return Err(FormatError::Truncated { need: len as u64, have: have as u64 });
    }
    let end: usize = HEAD_LEN + len as usize;
    let value = part(bytes, HEAD_LEN, end);
    let rest = part(bytes, end, bytes.len());
    assert(rest@ =~= bytes@.skip(HEAD_LEN + len));
    Ok((Field { tag, value }, rest))
}

/// A document being read, record by record.
pub struct TlvReader<'a> {
    rest: &'a [u8],
    above: Option<u16>,
}

impl<'a> View for TlvReader<'a> {
    type V = (Seq<Rec>, Option<FormatError>);

    /// The records that are still to come, and what is wrong behind them.
    closed spec fn view(&self) -> (Seq<Rec>, Option<FormatError>) {
        scan(self.rest@, self.above)
    }
}

impl<'a> TlvReader<'a> {
    /// How many bytes are still to come.
    pub closed spec fn left(&self) -> nat {
        self.rest@.len()
    }

    /// Begin to read a document.
    pub fn new(bytes: &'a [u8]) -> (r: TlvReader<'a>)
        ensures
            r@ == scan(bytes@, None),
    {
        TlvReader { rest: bytes, above: None }
    }

    /// The next record; none at the end of the document.
    pub fn next_field(&mut self) -> (r: Result<Option<Field<'a>>, FormatError>)
        ensures
            match r {
                Ok(Some(f)) => {
                    &&& old(self)@ == (seq![(f.tag, f.value@)] + final(self)@.0, final(self)@.1)
                    &&& final(self).left() < old(self).left()
                },
                Ok(None) => old(self)@ == (Seq::<Rec>::empty(), None::<FormatError>)
                    && final(self)@ == old(self)@,
                Err(e) => old(self)@ == (Seq::<Rec>::empty(), Some(e))
                    && final(self)@ == old(self)@,
            },
    {
        if self.rest.len() == 0 {
            return Ok(None);
        }
        let (field, rest) = next_record(self.rest, self.above)?;
        self.rest = rest;
        self.above = Some(field.tag);
        Ok(Some(field))
    }
}

/// The records of a document that its schema admits.
pub fn read_fields<'a, S: Schema>(
    s: &S,
    bytes: &'a [u8],
) -> (r: Result<Vec<Field<'a>>, FormatError>)
    ensures
        match r {
            Ok(fs) => {
                &&& read(*s, bytes@) == Ok::<Seq<Rec>, FormatError>(records(fs@))
                &&& writable(records(fs@))
                &&& wire(records(fs@)) == bytes@
                &&& forall|tag: u16|
                    (#[trigger] lookup(records(fs@), tag)) is Some ==> s.fault(
                        tag,
                        lookup(records(fs@), tag)->0,
                    ) is None
            },
            Err(e) => read(*s, bytes@) == Err::<Seq<Rec>, FormatError>(e),
        },
{
    broadcast use group_records;

    let mut fs: Vec<Field<'a>> = Vec::new();
    let mut reader = TlvReader::new(bytes);
    assert(records(fs@) =~= Seq::<Rec>::empty());
    assert(scan(bytes@, None).0 =~= records(fs@) + reader@.0);
    loop
        invariant
            scan(bytes@, None).0 == records(fs@) + reader@.0,
            scan(bytes@, None).1 == reader@.1,
            first_fault(*s, records(fs@)) is None,
        decreases reader.left(),
    {
        let ghost done = records(fs@);
        match reader.next_field() {
            Ok(Some(f)) => {
                let ghost rec: Rec = (f.tag, f.value@);
                proof {
                    assert(done + (seq![rec] + reader@.0) =~= done.push(rec) + reader@.0);
                    first_fault_push(*s, done, rec);
                }
                if let Some(e) = s.check(f.tag, f.value) {
                    proof {
                        first_fault_prefix(*s, done.push(rec), reader@.0);
                    }
                    return Err(e);
                }
                fs.push(f);
                assert(records(fs@) =~= done.push(rec));
            },
            Ok(None) => {
                proof {
                    assert(done + Seq::<Rec>::empty() =~= done);
                    wire_scan(bytes@);
                    assert forall|tag: u16| (#[trigger] lookup(records(fs@), tag)) is Some implies s.fault(
                        tag,
                        lookup(records(fs@), tag)->0,
                    ) is None by {
                        looked_up_is_sound(*s, records(fs@), tag);
                    }
                }
                return Ok(fs);
            },
            Err(e) => {
                assert(done + Seq::<Rec>::empty() =~= done);
                return Err(e);
            },
        }
    }
}

/// The value of a tag in a document, whatever else is wrong with the document: the tag
/// stands before the first place where the layout is broken.
pub fn value_in(bytes: &[u8], tag: u16) -> (r: Option<Vec<u8>>)
    ensures
        match r {
            Some(v) => lookup(scan(bytes@, None).0, tag) == Some(v@),
            None => lookup(scan(bytes@, None).0, tag) is None,
        },
{
    broadcast use group_records;

    let ghost all = scan(bytes@, None).0;
    let ghost mut done: Seq<Rec> = Seq::empty();
    let mut reader = TlvReader::new(bytes);
    assert(all =~= done + reader@.0);
    loop
        invariant
            all == scan(bytes@, None).0,
            all == done + reader@.0,
            lookup(done, tag) is None,
        decreases reader.left(),
    {
        match reader.next_field() {
            Ok(Some(f)) => {
                let ghost rec: Rec = (f.tag, f.value@);
                let ghost more = done.push(rec);
                assert(done + (seq![rec] + reader@.0) =~= more + reader@.0);
                if f.tag == tag {
                    proof {
                        scan_ascends(bytes@);
                        assert(all[done.len() as int] == rec);
                        lookup_is_some(all, done.len() as int);
                    }
                    return Some(owned(f.value));
                }
                proof {
                    lookup_push(done, rec, tag);
                    done = more;
                }
            },
            _ => {
                assert(done + Seq::<Rec>::empty() =~= done);
                return None;
            },
        }
    }
}

/// A fault among the first records is the first fault of all.
proof fn first_fault_prefix<S: Schema>(s: S, a: Seq<Rec>, b: Seq<Rec>)
    requires
        first_fault(s, a) is Some,
    ensures
        first_fault(s, a + b) == first_fault(s, a),
    decreases b.len(),
{
    if b.len() == 0 {
        assert(a + b =~= a);
    } else {
        first_fault_prefix(s, a, b.drop_last());
        assert((a + b).drop_last() =~= a + b.drop_last());
    }
}

/// The value that a tag has.
pub fn find<'a>(fs: &Vec<Field<'a>>, tag: u16) -> (r: Option<&'a [u8]>)
    ensures
        match r {
            Some(v) => lookup(records(fs@), tag) == Some(v@),
            None => lookup(records(fs@), tag) is None,
        },
{
    let mut i: usize = fs.len();
    assert(records(fs@).take(i as int) =~= records(fs@));
    while i > 0
        invariant
            i <= fs@.len(),
            lookup(records(fs@), tag) == lookup(records(fs@).take(i as int), tag),
        decreases i,
    {
        i = i - 1;
        let ghost head = records(fs@).take(i as int + 1);
        assert(head.drop_last() =~= records(fs@).take(i as int));
        assert(head.last() == (fs@[i as int].tag, fs@[i as int].value@));
        if fs[i].tag == tag {
            return Some(fs[i].value);
        }
    }
    None
}

/// The value that a required tag has.
pub fn need<'a>(fs: &Vec<Field<'a>>, tag: u16) -> (r: Result<&'a [u8], FormatError>)
    ensures
        match r {
            Ok(v) => lookup(records(fs@), tag) == Some(v@),
            Err(e) => lookup(records(fs@), tag) is None && e == (FormatError::MissingField { tag }),
        },
{
    match find(fs, tag) {
        Some(v) => Ok(v),
        None => Err(FormatError::MissingField { tag }),
    }
}

/// A document being written.
pub struct TlvWriter {
    out: Vec<u8>,
    last: Option<u16>,
    rs: Ghost<Seq<Rec>>,
}

impl View for TlvWriter {
    type V = Seq<Rec>;

    closed spec fn view(&self) -> Seq<Rec> {
        self.rs@
    }
}

impl TlvWriter {
    #[verifier::type_invariant]
    spec fn inv(&self) -> bool {
        &&& self.out@ == wire(self.rs@)
        &&& writable(self.rs@)
        &&& self.last is Some <==> self.rs@.len() > 0
        &&& self.last is Some ==> self.rs@.last().0 == self.last->0
    }

    /// A document without records.
    pub fn new() -> (w: TlvWriter)
        ensures
            w@ == Seq::<Rec>::empty(),
    {
        TlvWriter { out: Vec::new(), last: None, rs: Ghost(Seq::empty()) }
    }

    /// Write one more record. Its tag has to exceed the last one, and the length
    /// of its value has to fit the head; otherwise nothing is written.
    pub fn put(&mut self, tag: u16, value: &[u8]) -> (r: Result<(), FormatError>)
        ensures
            put_fault(old(self)@, tag, value@) is None
                ==> r is Ok && final(self)@ == old(self)@.push(
                (tag, value@),
            ),
            put_fault(old(self)@, tag, value@) is Some ==> r == Err::<(), FormatError>(
                put_fault(old(self)@, tag, value@)->0,
            ) && final(self)@ == old(self)@,
    {
        proof {
            use_type_invariant(&*self);
        }
        if let Some(previous) = self.last {
            if tag <= previous {
                return Err(FormatError::FieldsOutOfOrder { previous, found: tag });
            }
        }
        if value.len() as u64 > u32::MAX as u64 {
            return Err(FormatError::OffsetOverflow);
        }
        let mut before = TlvWriter::new();
        std::mem::swap(&mut before, self);
        let ghost prior = before@;
        let mut out = before.finish();
        let tag_bytes = write16(tag);
        let len_bytes = write32(value.len() as u32);
        append(&mut out, tag_bytes.as_slice());
        append(&mut out, len_bytes.as_slice());
        append(&mut out, value);
        proof {
            wire_push(prior, (tag, value@));
            assert(out@ =~= wire(prior) + record_bytes((tag, value@)));
        }
        *self = TlvWriter { out, last: Some(tag), rs: Ghost(prior.push((tag, value@))) };
        Ok(())
    }

    /// The bytes of the document.
    pub fn finish(self) -> (r: Vec<u8>)
        ensures
            r@ == wire(self@),
            writable(self@),
    {
        proof {
            use_type_invariant(&self);
        }
        self.out
    }
}

/// Why a record cannot be written behind the others.
pub open spec fn put_fault(rs: Seq<Rec>, tag: u16, value: Seq<u8>) -> Option<FormatError> {
    if !below(rs, tag) {
        Some(FormatError::FieldsOutOfOrder { previous: rs.last().0, found: tag })
    } else if value.len() > u32::MAX {
        Some(FormatError::OffsetOverflow)
    } else {
        None
    }
}

} // verus!
