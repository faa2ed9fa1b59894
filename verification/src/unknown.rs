//! What a reader does with a tag that it does not know.

use crate::error::FormatError;
use crate::tlv::{self, Field, Rec, Schema, TlvWriter};
use vstd::prelude::*;

pub mod laws;

verus! {

/// Tags up to this one are critical: who does not know such a tag may not go on.
pub const LAST_CRITICAL_TAG: u16 = 0x7FFF;

/// The verdict on a tag that the reader does not know.
pub open spec fn unknown_fault(tag: u16) -> Option<FormatError> {
    if tag <= LAST_CRITICAL_TAG {
        Some(FormatError::UnknownCriticalField { tag })
    } else {
        None
    }
}

/// The verdict on a tag that the reader does not know.
pub fn unknown_verdict(tag: u16) -> (r: Option<FormatError>)
    ensures
        r == unknown_fault(tag),
{
    if tag <= LAST_CRITICAL_TAG {
        Some(FormatError::UnknownCriticalField { tag })
    } else {
        None
    }
}

/// Refuse an unknown critical tag; let an unknown optional one pass.
pub fn refuse_if_critical(tag: u16) -> (r: Result<(), FormatError>)
    ensures
        match unknown_fault(tag) {
            Some(e) => r == Err::<(), FormatError>(e),
            None => r == Ok::<(), FormatError>(()),
        },
{
    match unknown_verdict(tag) {
        Some(e) => Err(e),
        None => Ok(()),
    }
}

/// The records that a reader keeps: the critical ones, and the optional ones whose tag it
/// knows.
pub open spec fn kept(rs: Seq<Rec>, known: Set<u16>) -> Seq<Rec>
    decreases rs.len(),
{
    if rs.len() == 0 {
        Seq::empty()
    } else if rs.last().0 <= LAST_CRITICAL_TAG || known.contains(rs.last().0) {
        kept(rs.drop_last(), known).push(rs.last())
    } else {
        kept(rs.drop_last(), known)
    }
}

/// The records of a document without the optional ones.
pub open spec fn critical(rs: Seq<Rec>) -> Seq<Rec> {
    kept(rs, Set::empty())
}

proof fn kept_stays_below(rs: Seq<Rec>, known: Set<u16>, tag: u16)
    requires
        tlv::below(rs, tag),
    ensures
        tlv::below(kept(rs, known), tag),
    decreases rs.len(),
{
    broadcast use tlv::group_records;

    if rs.len() > 0 {
        assert(rs =~= rs.drop_last().push(rs.last()));
        kept_stays_below(rs.drop_last(), known, tag);
    }
}

/// What can be written can be written without the records that a reader skips.
pub proof fn kept_is_writable(rs: Seq<Rec>, known: Set<u16>)
    requires
        tlv::writable(rs),
    ensures
        tlv::writable(kept(rs, known)),
    decreases rs.len(),
{
    broadcast use tlv::group_records;

    if rs.len() > 0 {
        assert(rs =~= rs.drop_last().push(rs.last()));
        kept_is_writable(rs.drop_last(), known);
        kept_stays_below(rs.drop_last(), known, rs.last().0);
    }
}

/// A document without the optional records whose tag is not known.
pub open spec fn without_unknown(bytes: Seq<u8>, known: Set<u16>) -> Seq<u8> {
    tlv::wire(kept(tlv::scan(bytes, None).0, known))
}

/// A document without its optional records.
pub open spec fn without_optional(bytes: Seq<u8>) -> Seq<u8> {
    without_unknown(bytes, Set::empty())
}

/// The schema has nothing against an optional field whose tag is not known.
pub open spec fn skips_unknown<S: Schema>(s: S, known: Set<u16>) -> bool {
    forall|tag: u16, value: Seq<u8>|
        tag > LAST_CRITICAL_TAG && !known.contains(tag) ==> (#[trigger] s.fault(tag, value)) is None
}

/// The schema has nothing against an optional field.
pub open spec fn skips_optional<S: Schema>(s: S) -> bool {
    skips_unknown(s, Set::empty())
}

/// What a reader skips changes nothing in the value of a tag that it keeps.
pub proof fn kept_keeps_values(rs: Seq<Rec>, known: Set<u16>, tag: u16)
    requires
        tag <= LAST_CRITICAL_TAG || known.contains(tag),
    ensures
        tlv::lookup(kept(rs, known), tag) == tlv::lookup(rs, tag),
    decreases rs.len(),
{
    broadcast use tlv::group_records;

    if rs.len() > 0 {
        assert(rs =~= rs.drop_last().push(rs.last()));
        kept_keeps_values(rs.drop_last(), known, tag);
    }
}

proof fn kept_keeps_faults<S: Schema>(s: S, rs: Seq<Rec>, known: Set<u16>)
    requires
        skips_unknown(s, known),
    ensures
        tlv::first_fault(s, kept(rs, known)) == tlv::first_fault(s, rs),
    decreases rs.len(),
{
    broadcast use tlv::group_records;

    if rs.len() > 0 {
        assert(rs =~= rs.drop_last().push(rs.last()));
        kept_keeps_faults(s, rs.drop_last(), known);
    }
}

/// Leaving out twice what a reader skips is leaving it out once.
pub proof fn kept_is_idempotent(rs: Seq<Rec>, known: Set<u16>)
    ensures
        kept(kept(rs, known), known) == kept(rs, known),
    decreases rs.len(),
{
    if rs.len() > 0 {
        kept_is_idempotent(rs.drop_last(), known);
        let head = kept(rs.drop_last(), known);
        assert(head.push(rs.last()).drop_last() =~= head);
    }
}

proof fn kept_is_shorter(rs: Seq<Rec>, known: Set<u16>)
    ensures
        tlv::wire(kept(rs, known)).len() <= tlv::wire(rs).len(),
    decreases rs.len(),
{
    broadcast use tlv::wire_len_push;

    if rs.len() > 0 {
        assert(rs =~= rs.drop_last().push(rs.last()));
        kept_is_shorter(rs.drop_last(), known);
    }
}

/// A reader reads a document without the optional records that it does not know as it
/// reads the whole: every tag that it knows has the value that it had.
pub proof fn unknown_records_are_skipped<S: Schema>(s: S, bytes: Seq<u8>, known: Set<u16>)
    requires
        skips_unknown(s, known),
        tlv::read(s, bytes) is Ok,
    ensures
        tlv::read(s, without_unknown(bytes, known)) == Ok::<Seq<Rec>, FormatError>(
            kept(tlv::read(s, bytes)->Ok_0, known),
        ),
        without_unknown(bytes, known).len() <= bytes.len(),
        forall|tag: u16|
            tag <= LAST_CRITICAL_TAG || known.contains(tag) ==> #[trigger] tlv::lookup(
                kept(tlv::read(s, bytes)->Ok_0, known),
                tag,
            ) == tlv::lookup(tlv::read(s, bytes)->Ok_0, tag),
{
    let rs = tlv::read(s, bytes)->Ok_0;
    tlv::wire_scan(bytes);
    kept_is_writable(rs, known);
    kept_is_shorter(rs, known);
    kept_keeps_faults(s, rs, known);
    tlv::read_wire(s, kept(rs, known));
    assert forall|tag: u16| tag <= LAST_CRITICAL_TAG
        || known.contains(tag) implies #[trigger] tlv::lookup(
        kept(rs, known),
        tag,
    ) == tlv::lookup(rs, tag) by {
        kept_keeps_values(rs, known, tag);
    }
}

/// A reader that skips optional fields reads a document without its optional records as
/// it reads the whole: every critical tag has the value that it had.
pub proof fn optional_records_are_skipped<S: Schema>(s: S, bytes: Seq<u8>)
    requires
        skips_optional(s),
        tlv::read(s, bytes) is Ok,
    ensures
        tlv::read(s, without_optional(bytes)) == Ok::<Seq<Rec>, FormatError>(
            critical(tlv::read(s, bytes)->Ok_0),
        ),
        without_optional(bytes).len() <= bytes.len(),
        forall|tag: u16|
            tag <= LAST_CRITICAL_TAG ==> #[trigger] tlv::lookup(
                critical(tlv::read(s, bytes)->Ok_0),
                tag,
            ) == tlv::lookup(tlv::read(s, bytes)->Ok_0, tag),
{
    unknown_records_are_skipped(s, bytes, Set::empty());
}

/// A reader that skips optional fields lets one more of them pass.
pub proof fn an_optional_record_passes<S: Schema>(s: S, rs: Seq<Rec>, r: Rec)
    requires
        skips_optional(s),
        tlv::read(s, tlv::wire(rs)) == Ok::<Seq<Rec>, FormatError>(rs),
        tlv::fits(r),
        tlv::below(rs, r.0),
        r.0 > LAST_CRITICAL_TAG,
    ensures
        tlv::read(s, tlv::wire(rs.push(r))) == Ok::<Seq<Rec>, FormatError>(rs.push(r)),
{
    broadcast use tlv::group_records;

    tlv::wire_scan(tlv::wire(rs));
    tlv::read_wire(s, rs.push(r));
}

/// A document with a field that its schema refuses is not read, wherever the field
/// stands.
pub proof fn a_refused_field_refuses_the_document<S: Schema>(s: S, bytes: Seq<u8>, i: int)
    requires
        0 <= i < tlv::scan(bytes, None).0.len(),
        ({
            let (tag, value) = tlv::scan(bytes, None).0[i];
            s.fault(tag, value) is Some
        }),
    ensures
        tlv::read(s, bytes) is Err,
{
    a_fault_is_found(s, tlv::scan(bytes, None).0, i);
}

proof fn a_fault_is_found<S: Schema>(s: S, rs: Seq<Rec>, i: int)
    requires
        0 <= i < rs.len(),
        s.fault(rs[i].0, rs[i].1) is Some,
    ensures
        tlv::first_fault(s, rs) is Some,
    decreases rs.len(),
{
    if i < rs.len() - 1 {
        assert(rs.drop_last()[i] == rs[i]);
        a_fault_is_found(s, rs.drop_last(), i);
    }
}

/// The bytes of a document without its optional records.
pub fn strip<'a>(fs: &Vec<Field<'a>>) -> (r: Vec<u8>)
    requires
        tlv::writable(tlv::records(fs@)),
    ensures
        r@ == tlv::wire(critical(tlv::records(fs@))),
{
    broadcast use tlv::group_records;

    let ghost all = tlv::records(fs@);
    let mut w = TlvWriter::new();
    let mut i: usize = 0;
    assert(all.take(0) =~= Seq::<Rec>::empty());
    while i < fs.len()
        invariant
            i <= fs@.len(),
            all == tlv::records(fs@),
            tlv::writable(all),
            w@ == critical(all.take(i as int)),
        decreases fs@.len() - i,
    {
        let ghost head = all.take(i as int + 1);
        proof {
            assert(head.drop_last() =~= all.take(i as int));
            assert(head.last() == all[i as int]);
            assert forall|k: int| 0 <= k < i implies (#[trigger] all.take(i as int)[k]).0
                < all[i as int].0 by {
                assert(all[k].0 < all[i as int].0);
            }
            kept_stays_below(all.take(i as int), Set::empty(), all[i as int].0);
            assert(tlv::fits(all[i as int]));
        }
        if fs[i].tag <= LAST_CRITICAL_TAG {
            let written = w.put(fs[i].tag, fs[i].value);
            assert(written is Ok);
        }
        i = i + 1;
    }
    assert(all.take(i as int) =~= all);
    w.finish()
}

} // verus!
