//! How numbers and lists are laid out, and how byte strings are ordered.

use crate::bytes;
use vstd::bytes::*;
use vstd::prelude::*;

verus! {

/// Numbers are written least significant byte first, a signed one in two's complement; only
/// where it is said so, the most significant byte comes first.
pub proof fn numbers_are_little_endian(a: u16, b: u32, c: u64, d: i64, s: Seq<u8>)
    ensures
        bytes::le16(a) == spec_u16_to_le_bytes(a),
        bytes::le32(b) == spec_u32_to_le_bytes(b),
        bytes::le64(c) == spec_u64_to_le_bytes(c),
        bytes::le64s(d) == spec_u64_to_le_bytes(d as u64),
        bytes::be16(a) == spec_u16_to_le_bytes(a).reverse(),
        bytes::num16(s) == spec_u16_from_le_bytes(s),
        bytes::num32(s) == spec_u32_from_le_bytes(s),
        bytes::num64(s) == spec_u64_from_le_bytes(s),
        s.len() == 2 ==> bytes::num16be(s) == spec_u16_from_le_bytes(s.reverse()),
{
    bytes::le16_round_trip(a);
    assert(bytes::be16(a) =~= spec_u16_to_le_bytes(a).reverse());
    if s.len() == 2 {
        assert(seq![s[1], s[0]] =~= s.reverse());
    }
}

/// A flag is one byte: one for yes, nought for no.
pub proof fn a_flag_is_one_byte(b: bool)
    ensures
        bytes::flag(b).len() == 1,
        bytes::flag(true)[0] == 1,
        bytes::flag(false)[0] == 0,
{
}

/// One string stands before another exactly where it is smaller at the first byte in which they
/// differ, or is a proper beginning of it.
pub proof fn strings_are_ordered_by_the_first_difference(a: Seq<u8>, b: Seq<u8>)
    ensures
        bytes::before(a, b) <==> {
            ||| exists|i: int|
                0 <= i < a.len() && i < b.len() && #[trigger] a[i] < b[i] && (forall|j: int|
                    0 <= j < i ==> a[j] == b[j])
            ||| a.len() < b.len() && (forall|j: int| 0 <= j < a.len() ==> a[j] == b[j])
        },
{
    if bytes::before(a, b) {
        let i = choose|i: int| #[trigger]
            bytes::differ_first_at(a, b, i) && (i == a.len() || a[i] < b[i]);
        assert forall|j: int| 0 <= j < i implies a[j] == b[j] by {
            assert(a.subrange(0, i)[j] == b.subrange(0, i)[j]);
        }
        if i < a.len() {
            assert(a[i] < b[i]);
        }
    }
    if exists|i: int|
        0 <= i < a.len() && i < b.len() && #[trigger] a[i] < b[i] && (forall|j: int|
            0 <= j < i ==> a[j] == b[j]) {
        let i = choose|i: int|
            0 <= i < a.len() && i < b.len() && #[trigger] a[i] < b[i] && (forall|j: int|
                0 <= j < i ==> a[j] == b[j]);
        assert(a.subrange(0, i) =~= b.subrange(0, i));
        assert(bytes::differ_first_at(a, b, i));
    }
    if a.len() < b.len() && (forall|j: int| 0 <= j < a.len() ==> a[j] == b[j]) {
        let i = a.len() as int;
        assert(a.subrange(0, i) =~= b.subrange(0, i));
        assert(bytes::differ_first_at(a, b, i));
    }
}

/// Of two strings that differ, exactly one stands before the other.
pub proof fn strings_are_totally_ordered(a: Seq<u8>, b: Seq<u8>)
    requires
        a != b,
    ensures
        bytes::before(a, b) <==> !bytes::before(b, a),
{
    if bytes::before(a, b) && bytes::before(b, a) {
        bytes::before_is_transitive(a, b, a);
        bytes::before_is_irreflexive(a);
    }
    one_stands_before(a, b, 0);
}

proof fn one_stands_before(a: Seq<u8>, b: Seq<u8>, i: int)
    requires
        0 <= i <= a.len() && i <= b.len(),
        forall|j: int| 0 <= j < i ==> a[j] == b[j],
    ensures
        a == b || bytes::before(a, b) || bytes::before(b, a),
    decreases a.len() - i,
{
    assert(a.subrange(0, i) =~= b.subrange(0, i));
    if i < a.len() && i < b.len() && a[i] == b[i] {
        one_stands_before(a, b, i + 1);
    } else {
        if i < b.len() {
            assert(bytes::differ_first_at(a, b, i));
        }
        if i < a.len() {
            assert(bytes::differ_first_at(b, a, i));
        }
        if i == a.len() && i == b.len() {
            assert(a =~= b);
        }
    }
}

/// Joined strings stand one behind the other with nothing between them.
pub proof fn joined_strings(p: Seq<u8>, a: Seq<Seq<u8>>, b: Seq<Seq<u8>>)
    ensures
        bytes::joined(Seq::empty()).len() == 0,
        bytes::joined(seq![p]) == p,
        bytes::joined(a + b) == bytes::joined(a) + bytes::joined(b),
    decreases a.len(),
{
    assert(seq![p].drop_first() =~= Seq::empty());
    assert(bytes::joined(Seq::<Seq<u8>>::empty()) =~= Seq::empty());
    assert(bytes::joined(seq![p]) =~= p);
    if a.len() == 0 {
        assert(a + b =~= b);
        assert(bytes::joined(a + b) =~= bytes::joined(a) + bytes::joined(b));
    } else {
        joined_strings(p, a.drop_first(), b);
        assert((a + b).drop_first() =~= a.drop_first() + b);
        assert(bytes::joined(a + b) =~= bytes::joined(a) + bytes::joined(b));
    }
}

/// Framed strings stand one behind the other, each behind its length in four bytes.
pub proof fn framed_strings(p: Seq<u8>, a: Seq<Seq<u8>>, b: Seq<Seq<u8>>)
    ensures
        bytes::framed(Seq::empty()).len() == 0,
        bytes::framed(seq![p]) == spec_u32_to_le_bytes(p.len() as u32) + p,
        bytes::framed(a + b) == bytes::framed(a) + bytes::framed(b),
    decreases a.len(),
{
    assert(seq![p].drop_first() =~= Seq::empty());
    assert(bytes::framed(Seq::<Seq<u8>>::empty()) =~= Seq::empty());
    assert(bytes::framed(seq![p]) =~= spec_u32_to_le_bytes(p.len() as u32) + p);
    if a.len() == 0 {
        assert(a + b =~= b);
        assert(bytes::framed(a + b) =~= bytes::framed(a) + bytes::framed(b));
    } else {
        framed_strings(p, a.drop_first(), b);
        assert((a + b).drop_first() =~= a.drop_first() + b);
        assert(bytes::framed(a + b) =~= bytes::framed(a) + bytes::framed(b));
    }
}

/// A string falls into as many pieces of a length as fit into it, the first first.
pub proof fn pieces_of_a_length(s: Seq<u8>, n: nat, i: int)
    requires
        n > 0,
    ensures
        bytes::chunks(s, n).len() == s.len() / n,
        0 <= i < bytes::chunks(s, n).len() ==> n * i + n <= s.len() && bytes::chunks(s, n)[i]
            == s.subrange(n * i, n * i + n),
    decreases s.len(),
{
    let all = bytes::chunks(s, n);
    if s.len() < n {
        vstd::arithmetic::div_mod::lemma_basic_div(s.len() as int, n as int);
    } else {
        let tail = s.skip(n as int);
        pieces_of_a_length(tail, n, i - 1);
        let rest = bytes::chunks(tail, n);
        assert(s.len() / n == 1 + tail.len() / n) by (nonlinear_arith)
            requires
                n > 0,
                s.len() == tail.len() + n,
        ;
        if 0 < i < all.len() {
            assert(all[i] == rest[i - 1]);
            assert(n * (i - 1) + n == n * i) by (nonlinear_arith);
            assert(tail.subrange(n * (i - 1), n * (i - 1) + n) =~= s.subrange(n * i, n * i + n));
        } else if i == 0 {
            assert(n * 0 == 0) by (nonlinear_arith);
            assert(s.take(n as int) =~= s.subrange(0, n as int));
        }
    }
}

} // verus!
