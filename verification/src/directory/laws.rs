//! Which records of the directory are accepted, and which answers prove one.

use crate::bytes;
use crate::directory::{self, KeyState, LookupError, LookupView, RecordView};
use crate::error::FormatError;
use crate::kem::{self, KemAlg};
use crate::text;
use crate::tlv::{self, Rec};
use crate::unknown;
use crate::witness;
use vstd::bytes::*;
use vstd::prelude::*;
use vstd::utf8::*;

verus! {

/// A record is accepted exactly where the organisation has a name, the member has one of at most
/// 128 characters and the origin one of at most 512, the version is at least one, and the
/// fingerprint is that of the key.
pub proof fn records_that_are_accepted(r: RecordView, hashed: Option<Seq<u8>>)
    ensures
        directory::record_fault(r, hashed) is None <==> {
            &&& text::tenant_fault(1, r.tenant) is None
            &&& text::phrase_fault(2, r.name, 128) is None
            &&& text::phrase_fault(8, r.origin, 512) is None
            &&& r.version >= 1
            &&& kem::key_print(r.kem, r.public, hashed) == Some(r.fpr)
        },
        directory::record_bytes(r, hashed) matches Ok(b) ==> directory::record_fault(r, hashed)
            is None && b.len() <= 8192 && b == tlv::wire(r.recs()),
        directory::record_fault(r, hashed) is None && tlv::sealed(r.recs()) is Ok && tlv::wire(
            r.recs(),
        ).len() <= 8192 ==> directory::record_bytes(r, hashed) is Ok,
{
}

/// A record that is made has what was given, and the fingerprint of its key.
pub proof fn records_that_are_made(r: RecordView, hashed: Option<Seq<u8>>)
    ensures
        ({
            let made = directory::new_record(r, hashed);
            &&& made is Ok <==> {
                &&& text::tenant_fault(1, r.tenant) is None
                &&& text::phrase_fault(2, r.name, 128) is None
                &&& text::phrase_fault(8, r.origin, 512) is None
                &&& r.version >= 1
                &&& kem::key_print(r.kem, r.public, hashed) is Some
            }
            &&& made matches Ok(m) ==> {
                &&& m.tenant == r.tenant && m.name == r.name && m.kem == r.kem
                &&& m.public == r.public && m.version == r.version && m.state == r.state
                &&& m.origin == r.origin && m.at == r.at
                &&& kem::key_print(r.kem, r.public, hashed) == Some(m.fpr)
            }
        }),
{
}

/// The nine fields of a record stand under their tags from the first on without a gap, and only
/// fields of the upper half of the tags may follow.
pub proof fn where_fields_may_stand(rs: Seq<Rec>)
    ensures
        directory::place_fault(rs) is None <==> (forall|i: int|
            0 <= i < rs.len() ==> (#[trigger] rs[i]).0 >= 32_768 || (rs[i].0 == i + 1 && rs[i].0
                <= 9)),
    decreases rs.len(),
{
    if rs.len() > 0 {
        let front = rs.drop_last();
        let last = rs.len() - 1;
        where_fields_may_stand(front);
        if directory::place_fault(rs) is None {
            assert forall|i: int| 0 <= i < rs.len() implies (#[trigger] rs[i]).0 >= 32_768 || (
            rs[i].0 == i + 1 && rs[i].0 <= 9) by {
                if i < last {
                    assert(front[i] == rs[i]);
                }
            }
        }
        if forall|i: int|
            0 <= i < rs.len() ==> (#[trigger] rs[i]).0 >= 32_768 || (rs[i].0 == i + 1 && rs[i].0
                <= 9) {
            assert forall|i: int| 0 <= i < front.len() implies (#[trigger] front[i]).0 >= 32_768
                || (front[i].0 == i + 1 && front[i].0 <= 9) by {
                assert(front[i] == rs[i]);
            }
            assert(rs[last].0 >= 32_768 || (rs[last].0 == last + 1 && rs[last].0 <= 9));
        }
    }
}

/// An answer proves a record exactly where the head is signed, its numbers are not too large,
/// the record is included, can be read, and is about the member of the organisation that was
/// asked for.
pub proof fn answers_that_prove_a_record(
    l: LookupView,
    signed: bool,
    included: bool,
    hashed: Option<Seq<u8>>,
    tenant: Seq<char>,
    name: Seq<char>,
)
    ensures
        ({
            let r = directory::proven_record(l, signed, included, hashed, tenant, name);
            let small = l.index <= 4_294_967_295 && l.head.size <= 4_294_967_295;
            let read = directory::record_of(l.record, hashed);
            &&& r is Ok <==> signed && small && included
                && (read matches Ok(x) && x.tenant == tenant
                && x.name == name)
            &&& r matches Ok(x) ==> read == Ok::<RecordView, FormatError>(x)
            &&& (r == Err::<RecordView, LookupError>(LookupError::ServerSignature) <==> !signed)
            &&& (r == Err::<RecordView, LookupError>(LookupError::NotIncluded) <==> signed
                && !(small && included))
            &&& (r == Err::<RecordView, LookupError>(LookupError::Malformed) <==> signed && small
                && included && read is Err)
            &&& (r == Err::<RecordView, LookupError>(LookupError::OtherEntry) <==> signed && small
                && included && (read matches Ok(x) && (x.tenant != tenant || x.name != name)))
        }),
{
}

/// A request for a record is written exactly where both names are accepted and the member's fits
/// into 65535 bytes: the organisation behind its length in a byte, the member behind its length
/// in two, and the size that is known in eight.
pub proof fn requests_for_a_record(tenant: Seq<char>, name: Seq<char>, size: u64)
    ensures
        ({
            let t = encode_utf8(tenant);
            let n = encode_utf8(name);
            let r = directory::lookup_request_bytes(tenant, name, size);
            &&& r is Ok <==> text::tenant_fault(1, tenant) is None
                && text::phrase_fault(2, name, 128)
                is None && n.len() <= 65_535
            &&& r matches Ok(b) ==> b == seq![t.len() as u8] + t + spec_u16_to_le_bytes(
                n.len() as u16,
            ) + n + spec_u64_to_le_bytes(size)
        }),
{
}

/// A request for a record that is read has both names accepted, and its bytes are no more and no
/// fewer than its parts.
pub proof fn requests_that_are_read(b: Seq<u8>)
    ensures
        directory::lookup_request_of(b) matches Ok((tenant, name, size)) ==> {
            let t = b[0] as int;
            let n = b.len() - t - 11;
            &&& n >= 0
            &&& text::tenant_fault(1, tenant) is None
            &&& text::phrase_fault(2, name, 128) is None
            &&& valid_utf8(b.subrange(1, 1 + t)) && tenant == decode_utf8(b.subrange(1, 1 + t))
            &&& spec_u16_from_le_bytes(b.subrange(1 + t, 3 + t)) == n
            &&& valid_utf8(b.subrange(3 + t, 3 + t + n)) && name == decode_utf8(
                b.subrange(3 + t, 3 + t + n),
            )
            &&& size == spec_u64_from_le_bytes(b.subrange(3 + t + n, b.len() as int))
        },
{
}

/// An answer is written exactly where the record has at most 8192 bytes and the path at most 64
/// steps: the head, the place in eight bytes, the record behind its length in four, and the path.
pub proof fn answers_that_are_written(l: LookupView)
    ensures
        directory::lookup_bytes(l) is Ok <==> l.record.len() <= 8192 && l.path.len() <= 64,
        directory::lookup_bytes(l) matches Ok(b) ==> b == witness::head_bytes(l.head)
            + spec_u64_to_le_bytes(l.index) + spec_u32_to_le_bytes(l.record.len() as u32) + l.record
            + bytes::joined(l.path),
{
}

/// An answer that is read has a record of one byte to 8192 and a path of at most 64 steps, and
/// its bytes are no more and no fewer than its parts.
pub proof fn answers_that_are_read(b: Seq<u8>)
    ensures
        directory::lookup_of(b) matches Ok(l) ==> {
            &&& 1 <= l.record.len() <= 8192
            &&& l.path.len() <= 64
            &&& b.len() == 116 + l.record.len() + 32 * l.path.len()
            &&& witness::head_of(b.subrange(0, 104)) == Ok::<witness::HeadView, FormatError>(l.head)
            &&& l.index == spec_u64_from_le_bytes(b.subrange(104, 112))
            &&& l.record.len() == spec_u32_from_le_bytes(b.subrange(112, 116))
            &&& l.record == b.subrange(116, 116 + l.record.len() as int)
            &&& bytes::joined(l.path) == b.skip(116 + l.record.len() as int)
        },
{
    if let Ok(l) = directory::lookup_of(b) {
        let path = b.skip(116 + l.record.len() as int);
        bytes::laws::pieces_of_a_length(path, 32, 0);
        bytes::joined_chunks(path, 32);
    }
}

/// A page is written exactly where it has at most 256 records of one byte to 8192 each.
pub proof fn pages_that_are_written(ps: Seq<Seq<u8>>)
    ensures
        directory::page_bytes(ps) is Ok <==> ps.len() <= 256 && (forall|i: int|
            0 <= i < ps.len() ==> 1 <= (#[trigger] ps[i]).len() <= 8192),
        directory::page_bytes(ps) matches Ok(b) ==> b == bytes::framed(ps),
{
    no_record_of_a_page_at_fault(ps);
}

proof fn no_record_of_a_page_at_fault(ps: Seq<Seq<u8>>)
    ensures
        directory::page_fault(ps) is None <==> (forall|i: int|
            0 <= i < ps.len() ==> 1 <= (#[trigger] ps[i]).len() <= 8192),
    decreases ps.len(),
{
    if ps.len() > 0 {
        let rest = ps.drop_first();
        no_record_of_a_page_at_fault(rest);
        if directory::page_fault(ps) is None {
            assert forall|i: int| 0 <= i < ps.len() implies 1 <= (#[trigger] ps[i]).len()
                <= 8192 by {
                if i > 0 {
                    assert(rest[i - 1] == ps[i]);
                }
            }
        }
        if forall|i: int| 0 <= i < ps.len() ==> 1 <= (#[trigger] ps[i]).len() <= 8192 {
            assert(1 <= ps[0].len() <= 8192);
            assert forall|i: int| 0 <= i < rest.len() implies 1 <= (#[trigger] rest[i]).len()
                <= 8192 by {
                assert(rest[i] == ps[i + 1]);
            }
        }
    }
}

/// A page that is read has at most 256 records, each of them readable under the fingerprint in
/// its own place, and its bytes are the records, each behind its length.
pub proof fn pages_that_are_read(b: Seq<u8>, prints: Seq<Option<[u8; 32]>>)
    ensures
        directory::page_behind(b, 0, prints) matches Ok(ps) ==> {
            &&& ps.len() <= 256
            &&& b == bytes::framed(ps)
            &&& forall|i: int|
                0 <= i < ps.len() ==> directory::record_of(
                    #[trigger] ps[i],
                    if i < prints.len() {
                        bytes::opt_array(prints[i])
                    } else {
                        None
                    },
                ) is Ok
        },
{
    if directory::page_behind(b, 0, prints) is Ok {
        page_from(b, 0, prints);
    }
}

proof fn page_from(b: Seq<u8>, taken: nat, prints: Seq<Option<[u8; 32]>>)
    requires
        directory::page_behind(b, taken, prints) is Ok,
        taken <= 256,
    ensures
        ({
            let ps = directory::page_behind(b, taken, prints)->Ok_0;
            &&& taken + ps.len() <= 256
            &&& b == bytes::framed(ps)
            &&& forall|i: int|
                0 <= i < ps.len() ==> directory::record_of(
                    #[trigger] ps[i],
                    directory::print_at(prints, (taken + i) as nat),
                ) is Ok
        }),
    decreases b.len(),
{
    let ps = directory::page_behind(b, taken, prints)->Ok_0;
    if b.len() == 0 {
        assert(b =~= bytes::framed(ps));
    } else {
        let len = bytes::num32(b.subrange(0, 4)) as int;
        let record = b.subrange(4, 4 + len);
        let tail = b.skip(4 + len);
        page_from(tail, taken + 1, prints);
        let rest = directory::page_behind(tail, taken + 1, prints)->Ok_0;
        assert(ps.drop_first() =~= rest);
        bytes::num32_round_trip(b.subrange(0, 4));
        assert(b =~= bytes::framed(ps));
        assert forall|i: int| 0 <= i < ps.len() implies directory::record_of(
            #[trigger] ps[i],
            directory::print_at(prints, (taken + i) as nat),
        ) is Ok by {
            if i > 0 {
                assert(ps[i] == rest[i - 1]);
            }
        }
    }
}

/// A key is active or withdrawn.
pub proof fn numbers_of_states()
    ensures
        KeyState::Active.number() == 0,
        KeyState::Withdrawn.number() == 1,
{
}

/// A record is read exactly where it has at most 8192 bytes, its fields stand in their places,
/// hold what it needs, and are, but for those that may be passed over, what would be written.
pub proof fn records_that_are_read(b: Seq<u8>, hashed: Option<Seq<u8>>)
    ensures
        directory::record_of(b, hashed) is Ok <==> {
            let (rs, torn) = tlv::scan(b, None);
            &&& b.len() <= 8192
            &&& torn is None
            &&& directory::place_fault(rs) is None
            &&& directory::record_in(rs) matches Ok(r) && directory::record_bytes(r, hashed)
                == Ok::<Seq<u8>, FormatError>(tlv::wire(unknown::critical(rs)))
        },
        directory::record_of(b, hashed) matches Ok(r) ==> directory::record_in(
            tlv::scan(b, None).0,
        ) == Ok::<RecordView, FormatError>(r),
{
}

/// Where the fields of a record stand, and which of them have to be there.
pub proof fn where_the_fields_of_a_record_stand(rs: Seq<Rec>)
    ensures
        directory::record_in(rs) matches Ok(v) ==> {
            &&& v.tenant == directory::text_at(rs, 1)->Ok_0
            &&& v.name == directory::text_at(rs, 2)->Ok_0
            &&& v.kem == KemAlg::numbered(directory::exact_at(rs, 3, 1)->Ok_0[0])->0
            &&& v.public == directory::value_at(rs, 4)->Ok_0
            &&& v.fpr == directory::exact_at(rs, 5, 32)->Ok_0
            &&& v.version == bytes::num64(directory::exact_at(rs, 6, 8)->Ok_0)
            &&& v.state == if directory::exact_at(rs, 7, 1)->Ok_0[0] == 0 {
                KeyState::Active
            } else {
                KeyState::Withdrawn
            }
            &&& v.origin == directory::text_at(rs, 8)->Ok_0
            &&& v.at == bytes::num64s(directory::exact_at(rs, 9, 8)->Ok_0)
        },
        directory::record_in(rs) is Ok <==> {
            &&& tlv::lookup(rs, 3) matches Some(b) && b.len() == 1 && 1 <= b[0] <= 5
            &&& tlv::lookup(rs, 7) matches Some(b) && b.len() == 1 && b[0] <= 1
            &&& tlv::lookup(rs, 1) matches Some(b) && valid_utf8(b)
            &&& tlv::lookup(rs, 2) matches Some(b) && valid_utf8(b)
            &&& tlv::lookup(rs, 8) matches Some(b) && valid_utf8(b)
            &&& tlv::lookup(rs, 4) is Some
            &&& tlv::lookup(rs, 5) matches Some(b) && b.len() == 32
            &&& tlv::lookup(rs, 6) matches Some(b) && b.len() == 8
            &&& tlv::lookup(rs, 9) matches Some(b) && b.len() == 8
        },
{
}

} // verus!
