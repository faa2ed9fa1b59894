//! Integers, fixed arrays and comparisons over byte slices.

use vstd::bytes::*;
use vstd::prelude::*;
use vstd::slice::{slice_subrange, slice_to_vec};

pub mod laws;

verus! {

/// The bytes of a 16-bit number, least significant first.
pub open spec fn le16(x: u16) -> Seq<u8> {
    spec_u16_to_le_bytes(x)
}

/// The bytes of a 32-bit number, least significant first.
pub open spec fn le32(x: u32) -> Seq<u8> {
    spec_u32_to_le_bytes(x)
}

/// The bytes of a 64-bit number, least significant first.
pub open spec fn le64(x: u64) -> Seq<u8> {
    spec_u64_to_le_bytes(x)
}

/// The bytes of a signed 64-bit number in two's complement, least significant first.
pub open spec fn le64s(x: i64) -> Seq<u8> {
    spec_u64_to_le_bytes(x as u64)
}

/// The 16-bit number that two bytes hold.
pub open spec fn num16(s: Seq<u8>) -> u16 {
    spec_u16_from_le_bytes(s)
}

/// The 32-bit number that four bytes hold.
pub open spec fn num32(s: Seq<u8>) -> u32 {
    spec_u32_from_le_bytes(s)
}

/// The 64-bit number that eight bytes hold.
pub open spec fn num64(s: Seq<u8>) -> u64 {
    spec_u64_from_le_bytes(s)
}

/// The signed 64-bit number that eight bytes hold in two's complement.
pub open spec fn num64s(s: Seq<u8>) -> i64 {
    spec_u64_from_le_bytes(s) as i64
}

/// A number survives being written to bytes and read back.
pub broadcast proof fn le16_round_trip(x: u16)
    ensures
        (#[trigger] le16(x)).len() == 2,
        num16(le16(x)) == x,
{
    lemma_auto_spec_u16_to_from_le_bytes();
    assert(spec_u16_to_le_bytes(x).len() == 2);
}

/// Two bytes survive being read as a number and written back.
pub broadcast proof fn num16_round_trip(s: Seq<u8>)
    requires
        s.len() == 2,
    ensures
        le16(#[trigger] num16(s)) == s,
{
    lemma_auto_spec_u16_to_from_le_bytes();
}

/// A number survives being written to bytes and read back.
pub broadcast proof fn le32_round_trip(x: u32)
    ensures
        (#[trigger] le32(x)).len() == 4,
        num32(le32(x)) == x,
{
    lemma_auto_spec_u32_to_from_le_bytes();
    assert(spec_u32_to_le_bytes(x).len() == 4);
}

/// Four bytes survive being read as a number and written back.
pub broadcast proof fn num32_round_trip(s: Seq<u8>)
    requires
        s.len() == 4,
    ensures
        le32(#[trigger] num32(s)) == s,
{
    lemma_auto_spec_u32_to_from_le_bytes();
}

/// A number survives being written to bytes and read back.
pub broadcast proof fn le64_round_trip(x: u64)
    ensures
        (#[trigger] le64(x)).len() == 8,
        num64(le64(x)) == x,
{
    lemma_auto_spec_u64_to_from_le_bytes();
}

/// Eight bytes survive being read as a number and written back.
pub broadcast proof fn num64_round_trip(s: Seq<u8>)
    requires
        s.len() == 8,
    ensures
        le64(#[trigger] num64(s)) == s,
{
    lemma_auto_spec_u64_to_from_le_bytes();
}

/// A signed number survives being written to bytes and read back.
pub broadcast proof fn le64s_round_trip(x: i64)
    ensures
        (#[trigger] le64s(x)).len() == 8,
        num64s(le64s(x)) == x,
{
    lemma_auto_spec_u64_to_from_le_bytes();
    assert((x as u64) as i64 == x) by (bit_vector);
}

/// Eight bytes survive being read as a signed number and written back.
pub broadcast proof fn num64s_round_trip(s: Seq<u8>)
    requires
        s.len() == 8,
    ensures
        le64s(#[trigger] num64s(s)) == s,
{
    lemma_auto_spec_u64_to_from_le_bytes();
    let u: u64 = spec_u64_from_le_bytes(s);
    assert((u as i64) as u64 == u) by (bit_vector);
}

pub broadcast group group_numbers {
    le16_round_trip,
    num16_round_trip,
    le32_round_trip,
    num32_round_trip,
    le64_round_trip,
    num64_round_trip,
    le64s_round_trip,
    num64s_round_trip,
}

/// The bytes of a 16-bit number, most significant first.
pub open spec fn be16(x: u16) -> Seq<u8> {
    seq![le16(x)[1], le16(x)[0]]
}

/// The 16-bit number that two bytes hold, most significant first.
pub open spec fn num16be(s: Seq<u8>) -> u16 {
    num16(seq![s[1], s[0]])
}

/// A number survives being written most significant byte first and read back.
pub broadcast proof fn be16_round_trip(x: u16)
    ensures
        (#[trigger] be16(x)).len() == 2,
        num16be(be16(x)) == x,
{
    le16_round_trip(x);
    assert(seq![be16(x)[1], be16(x)[0]] =~= le16(x));
}

/// Two bytes survive being read most significant byte first and written back.
pub proof fn be16_of_num(s: Seq<u8>)
    requires
        s.len() == 2,
    ensures
        be16(num16be(s)) == s,
{
    let t = seq![s[1], s[0]];
    num16_round_trip(t);
    assert(be16(num16be(s)) =~= s);
}

/// What bytes that may be absent hold.
pub open spec fn opt_bytes(v: Option<Vec<u8>>) -> Option<Seq<u8>> {
    match v {
        Some(b) => Some(b@),
        None => None,
    }
}

/// What bytes of a fixed length that may be absent hold.
pub open spec fn opt_array<const N: usize>(v: Option<[u8; N]>) -> Option<Seq<u8>> {
    match v {
        Some(b) => Some(b@),
        None => None,
    }
}

/// What several byte strings hold.
pub open spec fn blobs(vs: Seq<Vec<u8>>) -> Seq<Seq<u8>> {
    vs.map_values(|v: Vec<u8>| v@)
}

/// What byte strings of a fixed length hold.
pub open spec fn arrays<const N: usize>(vs: Seq<[u8; N]>) -> Seq<Seq<u8>> {
    vs.map_values(|v: [u8; N]| v@)
}

/// Byte strings one behind the other.
pub open spec fn joined(ps: Seq<Seq<u8>>) -> Seq<u8>
    decreases ps.len(),
{
    if ps.len() == 0 {
        Seq::empty()
    } else {
        ps[0] + joined(ps.drop_first())
    }
}

/// Byte strings one behind the other, each behind its length.
pub open spec fn framed(ps: Seq<Seq<u8>>) -> Seq<u8>
    decreases ps.len(),
{
    if ps.len() == 0 {
        Seq::empty()
    } else {
        le32(ps[0].len() as u32) + ps[0] + framed(ps.drop_first())
    }
}

/// Framed pieces begin with the length of the first, and then the first; the others follow.
pub proof fn framed_first(ps: Seq<Seq<u8>>)
    requires
        ps.len() > 0,
        ps[0].len() <= u32::MAX,
    ensures
        ({
            let b = framed(ps);
            let n = ps[0].len() as int;
            &&& b.len() >= 4 + n
            &&& num32(b.subrange(0, 4)) == n
            &&& b.subrange(4, 4 + n) == ps[0]
            &&& b.skip(4 + n) == framed(ps.drop_first())
        }),
{
    broadcast use group_numbers;

    let b = framed(ps);
    let n = ps[0].len() as int;
    assert(b.subrange(0, 4) =~= le32(n as u32));
    assert(b.subrange(4, 4 + n) =~= ps[0]);
    assert(b.skip(4 + n) =~= framed(ps.drop_first()));
}

/// The pieces of `n` bytes that a string is cut into; a shorter rest is left out.
pub open spec fn chunks(s: Seq<u8>, n: nat) -> Seq<Seq<u8>>
    decreases s.len(),
{
    if n == 0 || s.len() < n {
        Seq::empty()
    } else {
        seq![s.take(n as int)] + chunks(s.skip(n as int), n)
    }
}

/// Every string has the same length.
pub open spec fn all_sized(ps: Seq<Seq<u8>>, n: nat) -> bool {
    forall|i: int| 0 <= i < ps.len() ==> (#[trigger] ps[i]).len() == n
}

/// Strings of one length, written one behind the other, are cut apart again.
pub proof fn chunks_of_joined(ps: Seq<Seq<u8>>, n: nat)
    requires
        n > 0,
        all_sized(ps, n),
    ensures
        chunks(joined(ps), n) == ps,
        joined(ps).len() == n * ps.len(),
        joined(ps).len() % n == 0,
    decreases ps.len(),
{
    if ps.len() == 0 {
        assert(ps =~= Seq::empty());
        assert(n * 0 == 0 && 0nat % n == 0) by (nonlinear_arith)
            requires
                n > 0,
        ;
    } else {
        let rest = ps.drop_first();
        assert(ps[0].len() == n);
        assert forall|i: int| 0 <= i < rest.len() implies (#[trigger] rest[i]).len() == n by {
            assert(rest[i] == ps[i + 1]);
        }
        chunks_of_joined(rest, n);
        let all = joined(ps);
        assert(all.take(n as int) =~= ps[0]);
        assert(all.skip(n as int) =~= joined(rest));
        assert(seq![ps[0]] + rest =~= ps);
        let k: int = rest.len() as int;
        assert(ps.len() == k + 1);
        assert(n * (k + 1) == n * k + n) by (nonlinear_arith);
        assert((n * (k + 1)) % (n as int) == 0) by (nonlinear_arith)
            requires
                n > 0,
        ;
    }
}

/// The pieces of a string have the length they were cut to.
pub proof fn chunks_are_sized(s: Seq<u8>, n: nat)
    ensures
        all_sized(chunks(s, n), n),
    decreases s.len(),
{
    if n > 0 && s.len() >= n {
        chunks_are_sized(s.skip(n as int), n);
        let cs = chunks(s, n);
        let tail = chunks(s.skip(n as int), n);
        assert forall|i: int| 0 <= i < cs.len() implies (#[trigger] cs[i]).len() == n by {
            if i > 0 {
                assert(cs[i] == tail[i - 1]);
            }
        }
    }
}

/// A string that is cut without a rest is the pieces one behind the other.
pub proof fn joined_chunks(s: Seq<u8>, n: nat)
    requires
        n > 0,
        s.len() % n == 0,
    ensures
        joined(chunks(s, n)) == s,
        n * chunks(s, n).len() == s.len(),
    decreases s.len(),
{
    if s.len() < n {
        assert(s.len() == 0) by (nonlinear_arith)
            requires
                s.len() < n,
                s.len() % n == 0,
        ;
        assert(n * 0 == 0) by (nonlinear_arith);
        assert(s =~= Seq::empty());
    } else {
        let rest = s.skip(n as int);
        let l = s.len() as int;
        assert((l - n) % (n as int) == 0) by (nonlinear_arith)
            requires
                l % (n as int) == 0,
                n > 0,
        ;
        joined_chunks(rest, n);
        let cs = chunks(s, n);
        assert(cs.drop_first() =~= chunks(rest, n));
        assert(s.take(n as int) + rest =~= s);
        let k: int = chunks(rest, n).len() as int;
        assert(cs.len() == k + 1);
        assert(n * (k + 1) == n * k + n) by (nonlinear_arith);
    }
}

/// The pieces of `N` bytes that a slice is cut into.
pub fn split_arrays<const N: usize>(s: &[u8]) -> (r: Vec<[u8; N]>)
    requires
        N > 0,
    ensures
        arrays(r@) == chunks(s@, N as nat),
{
    let mut out: Vec<[u8; N]> = Vec::new();
    let mut rest: &[u8] = s;
    assert(arrays(out@) + chunks(rest@, N as nat) =~= chunks(s@, N as nat));
    while rest.len() >= N
        invariant
            N > 0,
            arrays(out@) + chunks(rest@, N as nat) == chunks(s@, N as nat),
        decreases rest@.len(),
    {
        let ghost before = out@;
        let ghost whole = rest@;
        let piece = part(rest, 0, N);
        out.push(array(piece));
        rest = part(rest, N, rest.len());
        proof {
            assert(piece@ =~= whole.take(N as int));
            assert(rest@ =~= whole.skip(N as int));
            assert(arrays(out@) =~= arrays(before).push(piece@));
            assert(arrays(before) + (seq![piece@] + chunks(rest@, N as nat)) =~= arrays(out@)
                + chunks(rest@, N as nat));
        }
    }
    assert(arrays(out@) + Seq::<Seq<u8>>::empty() =~= arrays(out@));
    out
}

/// Arrays one behind the other.
pub fn join_arrays<const N: usize>(vs: &Vec<[u8; N]>) -> (r: Vec<u8>)
    ensures
        r@ == joined(arrays(vs@)),
{
    let ghost all = arrays(vs@);
    let mut out: Vec<u8> = Vec::new();
    let mut i: usize = 0;
    assert(all.skip(0) =~= all);
    assert(out@ + joined(all) =~= joined(all));
    while i < vs.len()
        invariant
            i <= vs@.len(),
            all == arrays(vs@),
            out@ + joined(all.skip(i as int)) == joined(all),
        decreases vs@.len() - i,
    {
        let ghost done = out@;
        let ghost rest = all.skip(i as int);
        assert(rest.drop_first() =~= all.skip(i as int + 1));
        assert(rest[0] == vs@[i as int]@);
        append(&mut out, vs[i].as_slice());
        assert(out@ + joined(rest.drop_first()) =~= done + joined(rest));
        i = i + 1;
    }
    assert(out@ + Seq::<u8>::empty() =~= out@);
    out
}

/// Append bytes to a vector.
pub fn append(out: &mut Vec<u8>, more: &[u8])
    ensures
        final(out)@ == old(out)@ + more@,
{
    out.extend_from_slice(more);
    assert(out@ =~= old(out)@ + more@);
}

/// A single byte.
pub fn one(b: u8) -> (r: Vec<u8>)
    ensures
        r@ == seq![b],
{
    let mut r: Vec<u8> = Vec::new();
    r.push(b);
    assert(r@ =~= seq![b]);
    r
}

/// The byte of a flag: exactly zero or one.
pub open spec fn flag(b: bool) -> Seq<u8> {
    seq![
        if b {
            1u8
        } else {
            0u8
        },
    ]
}

/// The byte of a flag.
pub fn flag_byte(b: bool) -> (r: Vec<u8>)
    ensures
        r@ == flag(b),
{
    if b {
        one(1)
    } else {
        one(0)
    }
}

/// The two bytes of a number.
pub fn write16(x: u16) -> (r: Vec<u8>)
    ensures
        r@ == le16(x),
{
    u16_to_le_bytes(x)
}

/// The two bytes of a number, most significant first.
pub fn write16be(x: u16) -> (r: Vec<u8>)
    ensures
        r@ == be16(x),
{
    proof {
        le16_round_trip(x);
    }
    let le = write16(x);
    let mut r: Vec<u8> = Vec::new();
    r.push(le[1]);
    r.push(le[0]);
    assert(r@ =~= be16(x));
    r
}

/// The number that two bytes hold, most significant first.
pub fn read16be(s: &[u8]) -> (r: u16)
    requires
        s@.len() == 2,
    ensures
        r == num16be(s@),
{
    let mut le: Vec<u8> = Vec::new();
    le.push(s[1]);
    le.push(s[0]);
    assert(le@ =~= seq![s@[1], s@[0]]);
    read16(le.as_slice())
}

/// The four bytes of a number.
pub fn write32(x: u32) -> (r: Vec<u8>)
    ensures
        r@ == le32(x),
{
    u32_to_le_bytes(x)
}

/// The eight bytes of a number.
pub fn write64(x: u64) -> (r: Vec<u8>)
    ensures
        r@ == le64(x),
{
    u64_to_le_bytes(x)
}

/// The eight bytes of a signed number.
pub fn write64s(x: i64) -> (r: Vec<u8>)
    ensures
        r@ == le64s(x),
{
    u64_to_le_bytes(x as u64)
}

/// The number that two bytes hold.
pub fn read16(s: &[u8]) -> (r: u16)
    requires
        s@.len() == 2,
    ensures
        r == num16(s@),
{
    u16_from_le_bytes(s)
}

/// The number that four bytes hold.
pub fn read32(s: &[u8]) -> (r: u32)
    requires
        s@.len() == 4,
    ensures
        r == num32(s@),
{
    u32_from_le_bytes(s)
}

/// The number that eight bytes hold.
pub fn read64(s: &[u8]) -> (r: u64)
    requires
        s@.len() == 8,
    ensures
        r == num64(s@),
{
    u64_from_le_bytes(s)
}

/// The signed number that eight bytes hold.
pub fn read64s(s: &[u8]) -> (r: i64)
    requires
        s@.len() == 8,
    ensures
        r == num64s(s@),
{
    u64_from_le_bytes(s) as i64
}

/// A copy of a slice as an array of the same length.
pub fn array<const N: usize>(s: &[u8]) -> (r: [u8; N])
    requires
        s@.len() == N,
    ensures
        r@ == s@,
{
    let mut r: [u8; N] = vstd::array::array_fill_for_copy_types::<u8, N>(0);
    let mut i: usize = 0;
    while i < N
        invariant
            i <= N,
            s@.len() == N,
            r@.len() == N,
            forall|j: int| 0 <= j < i ==> r@[j] == s@[j],
        decreases N - i,
    {
        r[i] = s[i];
        i = i + 1;
    }
    assert(r@ =~= s@);
    r
}

/// Whether two slices hold the same bytes.
pub fn same(a: &[u8], b: &[u8]) -> (r: bool)
    ensures
        r == (a@ == b@),
{
    if a.len() != b.len() {
        return false;
    }
    let mut i: usize = 0;
    while i < a.len()
        invariant
            i <= a@.len(),
            a@.len() == b@.len(),
            forall|j: int| 0 <= j < i ==> a@[j] == b@[j],
        decreases a@.len() - i,
    {
        if a[i] != b[i] {
            return false;
        }
        i = i + 1;
    }
    assert(a@ =~= b@);
    true
}

/// Lexicographic order on byte strings: `a` stands before `b`.
pub open spec fn before(a: Seq<u8>, b: Seq<u8>) -> bool {
    exists|i: int| #[trigger] differ_first_at(a, b, i) && (i == a.len() || a[i] < b[i])
}

/// The strings agree up to position `i`, where `b` goes on.
pub open spec fn differ_first_at(a: Seq<u8>, b: Seq<u8>, i: int) -> bool {
    &&& 0 <= i <= a.len()
    &&& i < b.len()
    &&& a.subrange(0, i) == b.subrange(0, i)
}

/// The order is transitive.
pub proof fn before_is_transitive(a: Seq<u8>, b: Seq<u8>, c: Seq<u8>)
    requires
        before(a, b),
        before(b, c),
    ensures
        before(a, c),
{
    let i = choose|i: int| #[trigger] differ_first_at(a, b, i) && (i == a.len() || a[i] < b[i]);
    let j = choose|j: int| #[trigger] differ_first_at(b, c, j) && (j == b.len() || b[j] < c[j]);
    let k = if i < j {
        i
    } else {
        j
    };
    assert forall|n: int| 0 <= n < k implies a[n] == c[n] by {
        assert(a.subrange(0, i)[n] == b.subrange(0, i)[n]);
        assert(b.subrange(0, j)[n] == c.subrange(0, j)[n]);
    }
    if i < j {
        assert(b.subrange(0, j)[i] == c.subrange(0, j)[i]);
    }
    if j < i {
        assert(a.subrange(0, i)[j] == b.subrange(0, i)[j]);
    }
    assert(a.subrange(0, k) =~= c.subrange(0, k));
    assert(differ_first_at(a, c, k));
}

/// Nothing stands before itself.
pub proof fn before_is_irreflexive(a: Seq<u8>)
    ensures
        !before(a, a),
{
}

/// Whether `a` stands before `b`.
pub fn is_before(a: &[u8], b: &[u8]) -> (r: bool)
    ensures
        r == before(a@, b@),
{
    let mut i: usize = 0;
    while i < a.len() && i < b.len()
        invariant
            i <= a@.len(),
            i <= b@.len(),
            forall|j: int| 0 <= j < i ==> a@[j] == b@[j],
        decreases a@.len() - i,
    {
        if a[i] != b[i] {
            assert(a@.subrange(0, i as int) =~= b@.subrange(0, i as int));
            assert(differ_first_at(a@, b@, i as int));
            assert(before(a@, b@) ==> a@[i as int] < b@[i as int]) by {
                if before(a@, b@) {
                    let k = choose|k: int| #[trigger] differ_first_at(a@, b@, k)
                        && (k == a@.len() || a@[k] < b@[k]);
                    if k < i {
                        assert(a@[k] == b@[k]);
                    }
                    if k > i {
                        assert(a@.subrange(0, k)[i as int] == b@.subrange(0, k)[i as int]);
                    }
                }
            }
            return a[i] < b[i];
        }
        i = i + 1;
    }
    assert(a@.subrange(0, i as int) =~= b@.subrange(0, i as int));
    if i < b.len() {
        assert(differ_first_at(a@, b@, i as int));
        true
    } else {
        assert(!before(a@, b@)) by {
            if before(a@, b@) {
                let k = choose|k: int| #[trigger] differ_first_at(a@, b@, k)
                    && (k == a@.len() || a@[k] < b@[k]);
                assert(k < i);
            }
        }
        false
    }
}

/// The bytes from `from` to `to`.
pub fn part<'a>(s: &'a [u8], from: usize, to: usize) -> (r: &'a [u8])
    requires
        from <= to <= s@.len(),
    ensures
        r@ == s@.subrange(from as int, to as int),
{
    slice_subrange(s, from, to)
}

/// A vector with the bytes of a slice.
pub fn owned(s: &[u8]) -> (r: Vec<u8>)
    ensures
        r@ == s@,
{
    slice_to_vec(s)
}

/// Whether every byte is zero.
pub fn all_zero(s: &[u8]) -> (r: bool)
    ensures
        r == (forall|i: int| 0 <= i < s@.len() ==> s@[i] == 0),
{
    let mut i: usize = 0;
    while i < s.len()
        invariant
            i <= s@.len(),
            forall|j: int| 0 <= j < i ==> s@[j] == 0,
        decreases s@.len() - i,
    {
        if s[i] != 0 {
            return false;
        }
        i = i + 1;
    }
    true
}

} // verus!
