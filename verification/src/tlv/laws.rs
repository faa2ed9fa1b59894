//! How records are laid out, found and judged.

use crate::error::FormatError;
use crate::tlv::{self, Rec, Schema};
use vstd::bytes::*;
use vstd::prelude::*;

verus! {

/// Records stand one behind the other: the tag in two bytes, the length of the value in four,
/// and the value.
pub proof fn records_stand_one_behind_the_other(r: Rec, a: Seq<Rec>, b: Seq<Rec>)
    ensures
        tlv::wire(Seq::empty()).len() == 0,
        tlv::wire(seq![r]) == spec_u16_to_le_bytes(r.0) + spec_u32_to_le_bytes(r.1.len() as u32)
            + r.1,
        tlv::wire(a + b) == tlv::wire(a) + tlv::wire(b),
    decreases b.len(),
{
    assert(seq![r].drop_last() =~= Seq::empty());
    assert(tlv::wire(Seq::<Rec>::empty()) =~= Seq::empty());
    assert(tlv::wire(seq![r]) =~= spec_u16_to_le_bytes(r.0) + spec_u32_to_le_bytes(
        r.1.len() as u32,
    ) + r.1);
    if b.len() == 0 {
        assert(a + b =~= a);
        assert(tlv::wire(a + b) =~= tlv::wire(a) + tlv::wire(b));
    } else {
        records_stand_one_behind_the_other(r, a, b.drop_last());
        assert((a + b).drop_last() =~= a + b.drop_last());
        assert(tlv::wire(a + b) =~= tlv::wire(a) + tlv::wire(b));
    }
}

/// Records are written exactly where the length of each value fits into four bytes.
pub proof fn records_that_are_written(rs: Seq<Rec>)
    ensures
        tlv::sealed(rs) is Ok <==> (forall|i: int|
            0 <= i < rs.len() ==> (#[trigger] rs[i]).1.len() <= 4_294_967_295),
        tlv::sealed(rs) matches Ok(b) ==> b == tlv::wire(rs),
        tlv::sealed(rs) is Err ==> tlv::sealed(rs) == Err::<Seq<u8>, FormatError>(
            FormatError::OffsetOverflow,
        ),
{
    if tlv::fit(rs) {
        assert forall|i: int| 0 <= i < rs.len() implies (#[trigger] rs[i]).1.len()
            <= 4_294_967_295 by {
            assert(tlv::fits(rs[i]));
        }
    }
    if forall|i: int| 0 <= i < rs.len() ==> (#[trigger] rs[i]).1.len() <= 4_294_967_295 {
        assert forall|i: int| 0 <= i < rs.len() implies tlv::fits(#[trigger] rs[i]) by {}
    }
}

/// Of records whose tags ascend, the value under a tag is that of the record with the tag.
pub proof fn what_stands_under_a_tag(rs: Seq<Rec>, tag: u16)
    requires
        forall|i: int, j: int|
            0 <= i < j < rs.len() ==> (#[trigger] rs[i]).0 < (#[trigger] rs[j]).0,
    ensures
        forall|v: Seq<u8>| tlv::lookup(rs, tag) == Some(v) <==> #[trigger] rs.contains((tag, v)),
        tlv::lookup(rs, tag) is None <==> (forall|i: int|
            0 <= i < rs.len() ==> (#[trigger] rs[i]).0 != tag),
    decreases rs.len(),
{
    if rs.len() > 0 {
        let front = rs.drop_last();
        assert forall|i: int, j: int| 0 <= i < j < front.len() implies (#[trigger] front[i]).0 < (
        #[trigger] front[j]).0 by {
            assert(front[i] == rs[i] && front[j] == rs[j]);
        }
        what_stands_under_a_tag(front, tag);
        let last = rs.len() - 1;
        assert forall|v: Seq<u8>|
            tlv::lookup(rs, tag) == Some(v) <==> #[trigger] rs.contains((tag, v)) by {
            if tlv::lookup(rs, tag) == Some(v) {
                if rs.last().0 == tag {
                    assert(rs[last] == (tag, v));
                } else {
                    assert(front.contains((tag, v)));
                    let i = front.index_of((tag, v));
                    assert(rs[i] == (tag, v));
                }
            }
            if rs.contains((tag, v)) {
                let i = rs.index_of((tag, v));
                if i < last {
                    assert(rs[i].0 < rs[last].0);
                    assert(front[i] == (tag, v));
                    assert(front.contains((tag, v)));
                }
            }
        }
        if tlv::lookup(rs, tag) is None {
            assert forall|i: int| 0 <= i < rs.len() implies (#[trigger] rs[i]).0 != tag by {
                if i < last {
                    assert(front[i].0 != tag);
                }
            }
        }
        if forall|i: int| 0 <= i < rs.len() ==> (#[trigger] rs[i]).0 != tag {
            assert forall|i: int| 0 <= i < front.len() implies (#[trigger] front[i]).0 != tag by {
                assert(front[i] == rs[i]);
            }
            assert(rs[last].0 != tag);
        }
    }
}

/// The objection to records is that to the first that is objected to.
pub proof fn the_first_objection_decides<S: Schema>(s: S, rs: Seq<Rec>)
    ensures
        tlv::first_fault(s, rs) is None <==> (forall|i: int|
            0 <= i < rs.len() ==> s.fault((#[trigger] rs[i]).0, rs[i].1) is None),
        forall|i: int|
            0 <= i < rs.len() && s.fault((#[trigger] rs[i]).0, rs[i].1) is Some && (forall|j: int|
                0 <= j < i ==> s.fault((#[trigger] rs[j]).0, rs[j].1) is None) ==> tlv::first_fault(
                s,
                rs,
            ) == s.fault(rs[i].0, rs[i].1),
    decreases rs.len(),
{
    if rs.len() > 0 {
        let front = rs.drop_last();
        let last = rs.len() - 1;
        the_first_objection_decides(s, front);
        if tlv::first_fault(s, rs) is None {
            assert forall|i: int| 0 <= i < rs.len() implies s.fault((#[trigger] rs[i]).0, rs[i].1)
                is None by {
                if i < last {
                    assert(front[i] == rs[i]);
                    assert(s.fault(front[i].0, front[i].1) is None);
                }
            }
        }
        if forall|i: int| 0 <= i < rs.len() ==> s.fault((#[trigger] rs[i]).0, rs[i].1) is None {
            assert forall|i: int| 0 <= i < front.len() implies s.fault(
                (#[trigger] front[i]).0,
                front[i].1,
            ) is None by {
                assert(front[i] == rs[i]);
            }
            assert(s.fault(rs[last].0, rs[last].1) is None);
        }
        assert forall|i: int|
            0 <= i < rs.len() && s.fault((#[trigger] rs[i]).0, rs[i].1) is Some && (forall|j: int|
                0 <= j < i ==> s.fault((#[trigger] rs[j]).0, rs[j].1)
                    is None) implies tlv::first_fault(s, rs) == s.fault(rs[i].0, rs[i].1) by {
            assert forall|j: int| 0 <= j < i && j < front.len() implies s.fault(
                (#[trigger] front[j]).0,
                front[j].1,
            ) is None by {
                assert(front[j] == rs[j]);
            }
            if i < last {
                assert(front[i] == rs[i]);
            }
        }
    }
}

/// A document is read exactly where its bytes are the records that are found, all of them in
/// ascending order, and none of them is objected to.
pub proof fn documents_that_are_read<S: Schema>(s: S, b: Seq<u8>)
    ensures
        tlv::read(s, b) matches Ok(rs) ==> {
            &&& tlv::wire(rs) == b
            &&& forall|i: int, j: int|
                0 <= i < j < rs.len() ==> (#[trigger] rs[i]).0 < (#[trigger] rs[j]).0
            &&& forall|i: int| 0 <= i < rs.len() ==> s.fault((#[trigger] rs[i]).0, rs[i].1) is None
        },
        forall|rs: Seq<Rec>|
            {
                &&& #[trigger] tlv::wire(rs) == b
                &&& tlv::sealed(rs) is Ok
                &&& forall|i: int, j: int|
                    0 <= i < j < rs.len() ==> (#[trigger] rs[i]).0 < (#[trigger] rs[j]).0
                &&& forall|i: int|
                    0 <= i < rs.len() ==> s.fault((#[trigger] rs[i]).0, rs[i].1) is None
            } ==> tlv::read(s, b) == Ok::<Seq<Rec>, FormatError>(rs),
{
    let (found, torn) = tlv::scan(b, None);
    the_first_objection_decides(s, found);
    if tlv::read(s, b) is Ok {
        tlv::wire_scan(b);
    }
    assert forall|rs: Seq<Rec>|
        {
            &&& #[trigger] tlv::wire(rs) == b
            &&& tlv::sealed(rs) is Ok
            &&& forall|i: int, j: int|
                0 <= i < j < rs.len() ==> (#[trigger] rs[i]).0 < (#[trigger] rs[j]).0
            &&& forall|i: int| 0 <= i < rs.len() ==> s.fault((#[trigger] rs[i]).0, rs[i].1) is None
        } implies tlv::read(s, b) == Ok::<Seq<Rec>, FormatError>(rs) by {
        assert(tlv::ascending(rs));
        the_first_objection_decides(s, rs);
        tlv::read_wire(s, rs);
    }
}

/// When a value has the wrong length.
pub proof fn lengths_of_values(tag: u16, v: Seq<u8>, len: nat)
    ensures
        tlv::length_fault(tag, v, len) is None <==> v.len() == len,
        tlv::bounded_fault(tag, v, len) is None <==> 1 <= v.len() <= len,
        tlv::flag_fault(tag, v) is None <==> v == seq![0u8] || v == seq![1u8],
        v.len() != len ==> tlv::length_fault(tag, v, len) == Some(
            FormatError::BadFieldLength { tag, len: v.len() as usize },
        ),
{
    if v.len() == 1 {
        assert(v[0] == 0 ==> v =~= seq![0u8]);
        assert(v[0] == 1 ==> v =~= seq![1u8]);
    }
}

/// A record may be put behind others exactly where its tag is above all of theirs and the length
/// of its value fits into four bytes.
pub proof fn records_that_may_follow(rs: Seq<Rec>, tag: u16, v: Seq<u8>)
    ensures
        tlv::put_fault(rs, tag, v) is None <==> (forall|i: int|
            0 <= i < rs.len() ==> (#[trigger] rs[i]).0 < tag) && v.len() <= 4_294_967_295,
{
}

} // verus!
