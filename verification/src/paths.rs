//! Names, hosts and paths: their alphabets, their parts, and which path lies
//! under which.

use crate::bytes::same;
use crate::error::FormatError;
use vstd::prelude::*;
use vstd::utf8::*;

pub mod laws;

verus! {

/// The longest name, host or reference, in bytes.
pub const MAX_ACTION_NAME: usize = 128;

/// The longest path, in bytes.
pub const MAX_ACTION_PATH: usize = 512;

/// The byte between the parts of a path.
pub const SLASH: u8 = 0x2f;

/// The byte between the labels of a host.
pub const DOT: u8 = 0x2e;

/// The byte that a name may not begin with.
pub const DASH: u8 = 0x2d;

/// What a text may be written with.
#[derive(Debug, Clone, Copy, PartialEq, Eq, Structural)]
pub enum Alphabet {
    /// Letters, digits and `-_.`.
    Name,
    /// Small letters, digits and `-.`.
    Host,
    /// Capital letters, digits and `_`.
    Reference,
    /// A name's bytes and `/`.
    Tree,
    /// A name's bytes and `/~%`.
    Http,
}

/// A digit.
pub open spec fn digit(b: u8) -> bool {
    0x30 <= b <= 0x39
}

/// A small letter.
pub open spec fn small(b: u8) -> bool {
    0x61 <= b <= 0x7a
}

/// A capital letter.
pub open spec fn capital(b: u8) -> bool {
    0x41 <= b <= 0x5a
}

/// A byte of a name.
pub open spec fn name_byte(b: u8) -> bool {
    small(b) || capital(b) || digit(b) || b == DASH || b == 0x5f || b == DOT
}

impl Alphabet {
    /// Whether a byte belongs to the alphabet.
    pub open spec fn has(self, b: u8) -> bool {
        match self {
            Alphabet::Name => name_byte(b),
            Alphabet::Host => small(b) || digit(b) || b == DASH || b == DOT,
            Alphabet::Reference => capital(b) || digit(b) || b == 0x5f,
            Alphabet::Tree => name_byte(b) || b == SLASH,
            Alphabet::Http => name_byte(b) || b == SLASH || b == 0x7e || b == 0x25,
        }
    }

    /// Whether a byte belongs to the alphabet.
    fn holds(self, b: u8) -> (r: bool)
        ensures
            r == self.has(b),
    {
        let digit = 0x30 <= b && b <= 0x39;
        let small = 0x61 <= b && b <= 0x7a;
        let capital = 0x41 <= b && b <= 0x5a;
        let name = small || capital || digit || b == DASH || b == 0x5f || b == DOT;
        match self {
            Alphabet::Name => name,
            Alphabet::Host => small || digit || b == DASH || b == DOT,
            Alphabet::Reference => capital || digit || b == 0x5f,
            Alphabet::Tree => name || b == SLASH,
            Alphabet::Http => name || b == SLASH || b == 0x7e || b == 0x25,
        }
    }
}

/// The first byte outside an alphabet.
pub open spec fn first_outside(b: Seq<u8>, a: Alphabet) -> Option<u8>
    decreases b.len(),
{
    if b.len() == 0 {
        None
    } else if !a.has(b[0]) {
        Some(b[0])
    } else {
        first_outside(b.drop_first(), a)
    }
}

fn find_outside(b: &[u8], a: Alphabet) -> (r: Option<u8>)
    ensures
        r == first_outside(b@, a),
{
    let mut i: usize = 0;
    assert(b@.skip(0) =~= b@);
    while i < b.len()
        invariant
            i <= b@.len(),
            first_outside(b@, a) == first_outside(b@.skip(i as int), a),
        decreases b@.len() - i,
    {
        assert(b@.skip(i as int).drop_first() =~= b@.skip(i as int + 1));
        if !a.holds(b[i]) {
            return Some(b[i]);
        }
        i = i + 1;
    }
    None
}

/// The verdict on the length of a text and on its bytes.
pub open spec fn written_fault(tag: u16, b: Seq<u8>, a: Alphabet, max: nat) -> Option<FormatError> {
    if b.len() == 0 || b.len() > max {
        Some(FormatError::BadFieldLength { tag, len: b.len() as usize })
    } else {
        match first_outside(b, a) {
            Some(byte) => Some(FormatError::BadAddressByte { tag, byte }),
            None => None,
        }
    }
}

fn check_written(tag: u16, b: &[u8], a: Alphabet, max: usize) -> (r: Option<FormatError>)
    ensures
        r == written_fault(tag, b@, a, max as nat),
{
    if b.len() == 0 || b.len() > max {
        return Some(FormatError::BadFieldLength { tag, len: b.len() });
    }
    match find_outside(b, a) {
        Some(byte) => Some(FormatError::BadAddressByte { tag, byte }),
        None => None,
    }
}

/// The pieces between the separators of a string.
pub open spec fn pieces(b: Seq<u8>, sep: u8) -> Seq<Seq<u8>>
    decreases b.len(),
{
    if b.len() == 0 {
        seq![Seq::empty()]
    } else {
        let before = pieces(b.drop_last(), sep);
        if b.last() == sep {
            before.push(Seq::empty())
        } else {
            before.drop_last().push(before.last().push(b.last()))
        }
    }
}

/// There is always a last piece.
pub proof fn pieces_nonempty(b: Seq<u8>, sep: u8)
    ensures
        pieces(b, sep).len() > 0,
    decreases b.len(),
{
    if b.len() > 0 {
        pieces_nonempty(b.drop_last(), sep);
    }
}

/// Strings without the empty ones.
pub open spec fn nonempty(ps: Seq<Seq<u8>>) -> Seq<Seq<u8>>
    decreases ps.len(),
{
    if ps.len() == 0 {
        Seq::empty()
    } else if ps.last().len() > 0 {
        nonempty(ps.drop_last()).push(ps.last())
    } else {
        nonempty(ps.drop_last())
    }
}

/// The components of a path: its parts that are not empty.
pub open spec fn components(path: Seq<char>) -> Seq<Seq<u8>> {
    nonempty(pieces(encode_utf8(path), SLASH))
}

/// A path lies under a prefix: its components begin with those of the prefix.
pub open spec fn under(prefix: Seq<char>, path: Seq<char>) -> bool {
    components(prefix).is_prefix_of(components(path))
}

/// What lies under a path under a prefix lies under the prefix.
pub proof fn under_is_transitive(a: Seq<char>, b: Seq<char>, c: Seq<char>)
    requires
        under(a, b),
        under(b, c),
    ensures
        under(a, c),
{
    let x = components(a);
    let y = components(b);
    let z = components(c);
    assert(z.take(x.len() as int) =~= y.take(x.len() as int));
}

/// A path lies under itself.
pub proof fn under_is_reflexive(a: Seq<char>)
    ensures
        under(a, a),
{
    assert(components(a).take(components(a).len() as int) =~= components(a));
}

/// The pieces between the separators of a string.
fn split(b: &[u8], sep: u8) -> (r: Vec<Vec<u8>>)
    ensures
        crate::bytes::blobs(r@) == pieces(b@, sep),
        r@.len() > 0,
{
    let mut out: Vec<Vec<u8>> = Vec::new();
    let mut cur: Vec<u8> = Vec::new();
    let mut i: usize = 0;
    assert(b@.take(0) =~= Seq::empty());
    assert(crate::bytes::blobs(out@).push(cur@) =~= seq![Seq::empty()]);
    while i < b.len()
        invariant
            i <= b@.len(),
            crate::bytes::blobs(out@).push(cur@) == pieces(b@.take(i as int), sep),
        decreases b@.len() - i,
    {
        let ghost head = b@.take(i as int + 1);
        let ghost done = crate::bytes::blobs(out@);
        proof {
            assert(head.drop_last() =~= b@.take(i as int));
            assert(head.last() == b@[i as int]);
            assert(done.push(cur@).drop_last() =~= done);
        }
        if b[i] == sep {
            let ghost last = cur@;
            out.push(cur);
            cur = Vec::new();
            assert(crate::bytes::blobs(out@) =~= done.push(last));
        } else {
            cur.push(b[i]);
        }
        i = i + 1;
    }
    assert(b@.take(i as int) =~= b@);
    let ghost done = crate::bytes::blobs(out@);
    let ghost last = cur@;
    out.push(cur);
    assert(crate::bytes::blobs(out@) =~= done.push(last));
    out
}

fn keep_nonempty(ps: Vec<Vec<u8>>) -> (r: Vec<Vec<u8>>)
    ensures
        crate::bytes::blobs(r@) == nonempty(crate::bytes::blobs(ps@)),
{
    let ghost all = crate::bytes::blobs(ps@);
    let mut out: Vec<Vec<u8>> = Vec::new();
    let mut i: usize = 0;
    assert(all.take(0) =~= Seq::empty());
    assert(crate::bytes::blobs(out@) =~= Seq::empty());
    while i < ps.len()
        invariant
            i <= ps@.len(),
            all == crate::bytes::blobs(ps@),
            crate::bytes::blobs(out@) == nonempty(all.take(i as int)),
        decreases ps@.len() - i,
    {
        let ghost head = all.take(i as int + 1);
        let ghost done = crate::bytes::blobs(out@);
        proof {
            assert(head.drop_last() =~= all.take(i as int));
            assert(head.last() == ps@[i as int]@);
        }
        if ps[i].len() > 0 {
            let piece = crate::bytes::owned(ps[i].as_slice());
            out.push(piece);
            assert(crate::bytes::blobs(out@) =~= done.push(ps@[i as int]@));
        }
        i = i + 1;
    }
    assert(all.take(i as int) =~= all);
    out
}

/// Whether a path lies under a prefix.
pub fn path_under(prefix: &str, path: &str) -> (r: bool)
    ensures
        r == under(prefix@, path@),
{
    let want = keep_nonempty(split(prefix.as_bytes(), SLASH));
    let got = keep_nonempty(split(path.as_bytes(), SLASH));
    let ghost w = components(prefix@);
    let ghost g = components(path@);
    if want.len() > got.len() {
        return false;
    }
    let mut i: usize = 0;
    while i < want.len()
        invariant
            i <= want@.len() <= got@.len(),
            w == crate::bytes::blobs(want@),
            g == crate::bytes::blobs(got@),
            w == components(prefix@),
            g == components(path@),
            forall|j: int| 0 <= j < i ==> #[trigger] w[j] == g[j],
        decreases want@.len() - i,
    {
        if !same(want[i].as_slice(), got[i].as_slice()) {
            assert(w[i as int] != g[i as int]);
            assert(w.is_prefix_of(g) ==> w[i as int] == g.take(w.len() as int)[i as int]);
            return false;
        }
        assert(w[i as int] == g[i as int]);
        i = i + 1;
    }
    assert(g.take(w.len() as int) =~= w);
    true
}

/// A part that a path may not have: none at all, `.` or `..`.
pub open spec fn bad_part(p: Seq<u8>) -> bool {
    p.len() == 0 || p == seq![DOT] || p == seq![DOT, DOT]
}

/// The verdict on the parts of a path.
pub open spec fn parts_fault(tag: u16, b: Seq<u8>) -> Option<FormatError> {
    if exists|i: int| 0 <= i < pieces(b, SLASH).len() && bad_part(#[trigger] pieces(b, SLASH)[i]) {
        Some(FormatError::BadAddressByte { tag, byte: DOT })
    } else {
        None
    }
}

fn check_parts(tag: u16, b: &[u8]) -> (r: Option<FormatError>)
    ensures
        r == parts_fault(tag, b@),
{
    let ps = split(b, SLASH);
    let ghost all = pieces(b@, SLASH);
    let mut i: usize = 0;
    while i < ps.len()
        invariant
            i <= ps@.len(),
            all == crate::bytes::blobs(ps@),
            all == pieces(b@, SLASH),
            forall|j: int| 0 <= j < i ==> !bad_part(#[trigger] all[j]),
        decreases ps@.len() - i,
    {
        let p = &ps[i];
        assert(all[i as int] == p@);
        if p.len() == 0 || (p.len() == 1 && p[0] == DOT) || (p.len() == 2 && p[0] == DOT && p[1]
            == DOT) {
            assert(bad_part(all[i as int])) by {
                if p@.len() == 1 {
                    assert(p@ =~= seq![DOT]);
                } else if p@.len() == 2 {
                    assert(p@ =~= seq![DOT, DOT]);
                }
            }
            return Some(FormatError::BadAddressByte { tag, byte: DOT });
        }
        i = i + 1;
    }
    None
}

/// A label that a host may not have: none at all, or with a dash at an end.
pub open spec fn bad_label(p: Seq<u8>) -> bool {
    p.len() == 0 || p[0] == DASH || p.last() == DASH
}

/// The verdict on the labels of a host.
pub open spec fn labels_fault(tag: u16, b: Seq<u8>) -> Option<FormatError> {
    if exists|i: int| 0 <= i < pieces(b, DOT).len() && bad_label(#[trigger] pieces(b, DOT)[i]) {
        Some(FormatError::BadAddressByte { tag, byte: DOT })
    } else {
        None
    }
}

fn check_labels(tag: u16, b: &[u8]) -> (r: Option<FormatError>)
    ensures
        r == labels_fault(tag, b@),
{
    let ps = split(b, DOT);
    let ghost all = pieces(b@, DOT);
    let mut i: usize = 0;
    while i < ps.len()
        invariant
            i <= ps@.len(),
            all == crate::bytes::blobs(ps@),
            all == pieces(b@, DOT),
            forall|j: int| 0 <= j < i ==> !bad_label(#[trigger] all[j]),
        decreases ps@.len() - i,
    {
        let p = &ps[i];
        assert(all[i as int] == p@);
        if p.len() == 0 || p[0] == DASH || p[p.len() - 1] == DASH {
            assert(bad_label(all[i as int]));
            return Some(FormatError::BadAddressByte { tag, byte: DOT });
        }
        i = i + 1;
    }
    None
}

/// The verdict on a name.
pub open spec fn name_fault(tag: u16, s: Seq<char>) -> Option<FormatError> {
    let b = encode_utf8(s);
    match written_fault(tag, b, Alphabet::Name, MAX_ACTION_NAME as nat) {
        Some(e) => Some(e),
        None => if b[0] == DASH {
            Some(FormatError::BadAddressByte { tag, byte: DASH })
        } else {
            None
        },
    }
}

/// The verdict on a name.
pub fn check_name(tag: u16, s: &str) -> (r: Option<FormatError>)
    ensures
        r == name_fault(tag, s@),
{
    let b = s.as_bytes();
    if let Some(e) = check_written(tag, b, Alphabet::Name, MAX_ACTION_NAME) {
        return Some(e);
    }
    if b[0] == DASH {
        return Some(FormatError::BadAddressByte { tag, byte: DASH });
    }
    None
}

/// The verdict on a host.
pub open spec fn host_fault(tag: u16, s: Seq<char>) -> Option<FormatError> {
    let b = encode_utf8(s);
    match written_fault(tag, b, Alphabet::Host, MAX_ACTION_NAME as nat) {
        Some(e) => Some(e),
        None => labels_fault(tag, b),
    }
}

/// The verdict on a host.
pub fn check_host(tag: u16, s: &str) -> (r: Option<FormatError>)
    ensures
        r == host_fault(tag, s@),
{
    let b = s.as_bytes();
    if let Some(e) = check_written(tag, b, Alphabet::Host, MAX_ACTION_NAME) {
        return Some(e);
    }
    check_labels(tag, b)
}

/// The verdict on a reference to a secret.
pub open spec fn reference_fault(tag: u16, s: Seq<char>) -> Option<FormatError> {
    written_fault(tag, encode_utf8(s), Alphabet::Reference, MAX_ACTION_NAME as nat)
}

/// The verdict on a reference to a secret.
pub fn check_secret_ref(tag: u16, s: &str) -> (r: Option<FormatError>)
    ensures
        r == reference_fault(tag, s@),
{
    check_written(tag, s.as_bytes(), Alphabet::Reference, MAX_ACTION_NAME)
}

/// The verdict on a path in a tree: relative, and without `.` and `..`.
pub open spec fn tree_fault(tag: u16, s: Seq<char>) -> Option<FormatError> {
    let b = encode_utf8(s);
    match written_fault(tag, b, Alphabet::Tree, MAX_ACTION_PATH as nat) {
        Some(e) => Some(e),
        None => if b[0] == SLASH {
            Some(FormatError::BadAddressByte { tag, byte: SLASH })
        } else {
            parts_fault(tag, b)
        },
    }
}

/// The verdict on a path in a tree.
pub fn check_tree_path(tag: u16, s: &str) -> (r: Option<FormatError>)
    ensures
        r == tree_fault(tag, s@),
{
    let b = s.as_bytes();
    if let Some(e) = check_written(tag, b, Alphabet::Tree, MAX_ACTION_PATH) {
        return Some(e);
    }
    if b[0] == SLASH {
        return Some(FormatError::BadAddressByte { tag, byte: SLASH });
    }
    check_parts(tag, b)
}

/// The verdict on the path of an HTTP request: from the root, and without `.` and
/// `..`.
pub open spec fn http_fault(tag: u16, s: Seq<char>) -> Option<FormatError> {
    let b = encode_utf8(s);
    match written_fault(tag, b, Alphabet::Http, MAX_ACTION_PATH as nat) {
        Some(e) => Some(e),
        None => if b[0] != SLASH {
            Some(FormatError::BadAddressByte { tag, byte: SLASH })
        } else if b.len() == 1 {
            None
        } else {
            parts_fault(tag, b.skip(1))
        },
    }
}

/// The verdict on the path of an HTTP request.
pub fn check_http_path(tag: u16, s: &str) -> (r: Option<FormatError>)
    ensures
        r == http_fault(tag, s@),
{
    let b = s.as_bytes();
    if let Some(e) = check_written(tag, b, Alphabet::Http, MAX_ACTION_PATH) {
        return Some(e);
    }
    if b[0] != SLASH {
        return Some(FormatError::BadAddressByte { tag, byte: SLASH });
    }
    if b.len() == 1 {
        return None;
    }
    let rest = crate::bytes::part(b, 1, b.len());
    assert(rest@ =~= b@.skip(1));
    check_parts(tag, rest)
}

} // verus!
