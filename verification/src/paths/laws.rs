//! What the names, hosts and paths that are accepted look like, byte by byte.

use crate::error::FormatError;
use crate::paths;
use vstd::prelude::*;
use vstd::utf8::*;

verus! {

/// Strings with a separator between them.
pub open spec fn joined(ps: Seq<Seq<u8>>, sep: u8) -> Seq<u8>
    decreases ps.len(),
{
    if ps.len() == 0 {
        Seq::empty()
    } else if ps.len() == 1 {
        ps[0]
    } else {
        joined(ps.drop_last(), sep) + seq![sep] + ps.last()
    }
}

/// The pieces of a string, put together again, are the string, and the separator stands in
/// none of them.
pub proof fn pieces_are_what_stands_between_separators(b: Seq<u8>, sep: u8)
    ensures
        paths::pieces(b, sep).len() > 0,
        joined(paths::pieces(b, sep), sep) == b,
        forall|i: int|
            0 <= i < paths::pieces(b, sep).len()
                ==> !(#[trigger] paths::pieces(b, sep)[i]).contains(
                sep,
            ),
    decreases b.len(),
{
    if b.len() == 0 {
        assert(joined(seq![Seq::<u8>::empty()], sep) =~= b);
    } else {
        let head = b.drop_last();
        let prior = paths::pieces(head, sep);
        pieces_are_what_stands_between_separators(head, sep);
        let all = paths::pieces(b, sep);
        assert(b =~= head.push(b.last()));
        if b.last() == sep {
            assert(all.drop_last() =~= prior);
            assert(joined(all, sep) =~= head + seq![sep]);
        } else {
            let grown = prior.last().push(b.last());
            assert(all.drop_last() =~= prior.drop_last());
            assert(all.last() == grown);
            if prior.len() == 1 {
                assert(joined(all, sep) =~= grown);
            } else {
                assert(joined(all, sep) =~= joined(prior, sep).push(b.last()));
            }
            assert forall|i: int| 0 <= i < all.len() implies !(#[trigger] all[i]).contains(sep) by {
                if i < all.len() - 1 {
                    assert(all[i] == prior[i]);
                } else {
                    assert(all[i] == grown);
                    assert(!prior[prior.len() - 1].contains(sep));
                    if grown.contains(sep) {
                        let k = grown.index_of(sep);
                        if k < grown.len() - 1 {
                            assert(prior.last()[k] == sep);
                        }
                    }
                }
            }
        }
    }
}

/// A string behind a separator adds its pieces to those before it.
pub proof fn pieces_behind_a_separator(a: Seq<u8>, b: Seq<u8>, sep: u8)
    ensures
        paths::pieces(a + seq![sep] + b, sep) == paths::pieces(a, sep) + paths::pieces(b, sep),
    decreases b.len(),
{
    let all = a + seq![sep] + b;
    let front = paths::pieces(a, sep);
    if b.len() == 0 {
        assert(all.drop_last() =~= a);
        assert(front.push(Seq::empty()) =~= front + paths::pieces(b, sep));
    } else {
        let head = b.drop_last();
        pieces_behind_a_separator(a, head, sep);
        assert(all.drop_last() =~= a + seq![sep] + head);
        assert(all.last() == b.last());
        let back = paths::pieces(head, sep);
        paths::pieces_nonempty(head, sep);
        if b.last() == sep {
            assert((front + back).push(Seq::empty()) =~= front + back.push(Seq::empty()));
        } else {
            let grown = back.last().push(b.last());
            assert((front + back).last() == back.last());
            assert((front + back).drop_last().push(grown) =~= front + back.drop_last().push(grown));
        }
    }
}

proof fn joined_splits(a: Seq<Seq<u8>>, b: Seq<Seq<u8>>, sep: u8)
    requires
        a.len() > 0,
        b.len() > 0,
    ensures
        joined(a + b, sep) == joined(a, sep) + seq![sep] + joined(b, sep),
    decreases b.len(),
{
    let all = a + b;
    assert(all.last() == b.last());
    if b.len() == 1 {
        assert(all.drop_last() =~= a);
    } else {
        assert(all.drop_last() =~= a + b.drop_last());
        joined_splits(a, b.drop_last(), sep);
        assert(joined(all, sep) =~= joined(a, sep) + seq![sep] + joined(b, sep));
    }
}

/// Nothing of a list but its empty strings is left out.
pub proof fn components_are_the_parts_that_are_not_empty(path: Seq<char>)
    ensures
        paths::components(path) == paths::pieces(encode_utf8(path), 0x2f).filter(
            |p: Seq<u8>| p.len() > 0,
        ),
{
    nonempty_filters(paths::pieces(encode_utf8(path), 0x2f));
}

proof fn nonempty_filters(ps: Seq<Seq<u8>>)
    ensures
        paths::nonempty(ps) == ps.filter(|p: Seq<u8>| p.len() > 0),
    decreases ps.len(),
{
    reveal(Seq::filter);
    if ps.len() > 0 {
        nonempty_filters(ps.drop_last());
    }
}

proof fn nonempty_keeps_all(ps: Seq<Seq<u8>>)
    requires
        forall|i: int| 0 <= i < ps.len() ==> (#[trigger] ps[i]).len() > 0,
    ensures
        paths::nonempty(ps) == ps,
    decreases ps.len(),
{
    if ps.len() > 0 {
        let head = ps.drop_last();
        assert forall|i: int| 0 <= i < head.len() implies (#[trigger] head[i]).len() > 0 by {
            assert(head[i] == ps[i]);
        }
        nonempty_keeps_all(head);
        assert(ps[ps.len() - 1].len() > 0);
        assert(head.push(ps.last()) =~= ps);
    } else {
        assert(ps =~= Seq::empty());
    }
}

/// A path lies under a prefix exactly where it has the components of the prefix, each at its
/// place and whole.
pub proof fn under_compares_whole_components(prefix: Seq<char>, path: Seq<char>)
    ensures
        paths::under(prefix, path) <==> {
            &&& paths::components(prefix).len() <= paths::components(path).len()
            &&& forall|i: int|
                0 <= i < paths::components(prefix).len() ==> #[trigger] paths::components(prefix)[i]
                    == paths::components(path)[i]
        },
{
    let x = paths::components(prefix);
    let y = paths::components(path);
    if x.len() <= y.len() {
        if forall|i: int| 0 <= i < x.len() ==> #[trigger] x[i] == y[i] {
            assert(y.take(x.len() as int) =~= x);
        }
        if paths::under(prefix, path) {
            assert forall|i: int| 0 <= i < x.len() implies #[trigger] x[i] == y[i] by {
                assert(y.take(x.len() as int)[i] == x[i]);
            }
        }
    }
}

/// The bytes have a part, and no empty one.
pub open spec fn without_empty_parts(b: Seq<u8>) -> bool {
    &&& b.len() > 0
    &&& b[0] != 0x2f
    &&& b.last() != 0x2f
    &&& forall|i: int| 0 <= i < b.len() - 1 ==> !(#[trigger] b[i] == 0x2f && b[i + 1] == 0x2f)
}

proof fn no_piece_is_empty(b: Seq<u8>)
    requires
        without_empty_parts(b),
    ensures
        forall|i: int|
            0 <= i < paths::pieces(b, 0x2f).len() ==> (#[trigger] paths::pieces(b, 0x2f)[i]).len()
                > 0,
{
    pieces_so_far(b, b.len() as int);
    assert(b.take(b.len() as int) =~= b);
}

proof fn pieces_so_far(b: Seq<u8>, n: int)
    requires
        without_empty_parts(b),
        0 < n <= b.len(),
    ensures
        ({
            let ps = paths::pieces(b.take(n), 0x2f);
            &&& ps.len() > 0
            &&& forall|i: int| 0 <= i < ps.len() - 1 ==> (#[trigger] ps[i]).len() > 0
            &&& b[n - 1] != 0x2f ==> ps.last().len() > 0
        }),
    decreases n,
{
    let head = b.take(n);
    assert(head.drop_last() =~= b.take(n - 1));
    assert(head.last() == b[n - 1]);
    let ps = paths::pieces(head, 0x2f);
    paths::pieces_nonempty(b.take(n - 1), 0x2f);
    if n == 1 {
        assert(b.take(0) =~= Seq::empty());
        assert(ps.last() =~= seq![b[0]]);
    } else {
        pieces_so_far(b, n - 1);
        let prior = paths::pieces(b.take(n - 1), 0x2f);
        if b[n - 1] == 0x2f {
            assert(b[n - 2] != 0x2f);
            assert forall|i: int| 0 <= i < ps.len() - 1 implies (#[trigger] ps[i]).len() > 0 by {
                assert(ps[i] == prior[i]);
            }
        } else {
            assert forall|i: int| 0 <= i < ps.len() - 1 implies (#[trigger] ps[i]).len() > 0 by {
                assert(ps[i] == prior[i]);
            }
        }
    }
}

/// Of two paths without empty parts, the second lies under the first exactly where it is
/// the first, or begins with the first and a slash: a name that merely begins alike does
/// not.
pub proof fn under_ends_at_a_slash(prefix: Seq<char>, path: Seq<char>)
    requires
        without_empty_parts(encode_utf8(prefix)),
        without_empty_parts(encode_utf8(path)),
    ensures
        paths::under(prefix, path) <==> encode_utf8(path) == encode_utf8(prefix) || (encode_utf8(
            prefix,
        ) + seq![0x2fu8]).is_prefix_of(encode_utf8(path)),
{
    let a = encode_utf8(prefix);
    let b = encode_utf8(path);
    let x = paths::pieces(a, 0x2f);
    let y = paths::pieces(b, 0x2f);
    pieces_are_what_stands_between_separators(a, 0x2f);
    pieces_are_what_stands_between_separators(b, 0x2f);
    no_piece_is_empty(a);
    no_piece_is_empty(b);
    nonempty_keeps_all(x);
    nonempty_keeps_all(y);
    if paths::under(prefix, path) {
        let rest = y.skip(x.len() as int);
        assert(y =~= x + rest);
        if rest.len() > 0 {
            joined_splits(x, rest, 0x2f);
            assert(b.take(a.len() as int + 1) =~= a + seq![0x2fu8]);
        } else {
            assert(y =~= x);
        }
    }
    if b == a {
        paths::under_is_reflexive(prefix);
        assert(x.is_prefix_of(y));
    } else if (a + seq![0x2fu8]).is_prefix_of(b) {
        let rest = b.skip(a.len() as int + 1);
        assert(b =~= a + seq![0x2fu8] + rest);
        pieces_behind_a_separator(a, rest, 0x2f);
        assert(y.take(x.len() as int) =~= x);
    }
}

/// A leading slash changes nothing in where a path lies.
pub proof fn a_leading_slash_adds_no_component(path: Seq<char>, rest: Seq<u8>)
    requires
        encode_utf8(path) == seq![0x2fu8] + rest,
    ensures
        paths::components(path) == paths::nonempty(paths::pieces(rest, 0x2f)),
{
    let e = Seq::<u8>::empty();
    assert(e + seq![0x2fu8] + rest =~= seq![0x2fu8] + rest);
    pieces_behind_a_separator(e, rest, 0x2f);
    let back = paths::pieces(rest, 0x2f);
    nonempty_behind_an_empty_one(back);
    assert(paths::pieces(e, 0x2f) + back =~= seq![e] + back);
}

proof fn nonempty_behind_an_empty_one(ps: Seq<Seq<u8>>)
    ensures
        paths::nonempty(seq![Seq::<u8>::empty()] + ps) == paths::nonempty(ps),
    decreases ps.len(),
{
    let all = seq![Seq::<u8>::empty()] + ps;
    if ps.len() > 0 {
        assert(all.drop_last() =~= seq![Seq::<u8>::empty()] + ps.drop_last());
        assert(all.last() == ps.last());
        nonempty_behind_an_empty_one(ps.drop_last());
    } else {
        assert(all.drop_last() =~= ps);
    }
}

/// The first byte outside an alphabet: those before it belong to the alphabet.
pub proof fn first_outside_is_the_first(b: Seq<u8>, a: paths::Alphabet)
    ensures
        paths::first_outside(b, a) is None <==> (forall|i: int|
            0 <= i < b.len() ==> a.has(#[trigger] b[i])),
        paths::first_outside(b, a) matches Some(byte) ==> (exists|i: int|
            0 <= i < b.len() && #[trigger] b[i] == byte && !a.has(byte) && (forall|j: int|
                0 <= j < i ==> a.has(#[trigger] b[j]))),
    decreases b.len(),
{
    if b.len() > 0 {
        let rest = b.drop_first();
        if a.has(b[0]) {
            first_outside_is_the_first(rest, a);
            if let Some(byte) = paths::first_outside(rest, a) {
                let i = choose|i: int|
                    0 <= i < rest.len() && #[trigger] rest[i] == byte && !a.has(byte) && (forall|
                        j: int,
                    |
                        0 <= j < i ==> a.has(#[trigger] rest[j]));
                assert(b[i + 1] == byte);
                assert forall|j: int| 0 <= j < i + 1 implies a.has(#[trigger] b[j]) by {
                    if j > 0 {
                        assert(rest[j - 1] == b[j]);
                    }
                }
            } else {
                assert forall|j: int| 0 <= j < b.len() implies a.has(#[trigger] b[j]) by {
                    if j > 0 {
                        assert(rest[j - 1] == b[j]);
                    }
                }
            }
        } else {
            assert(b[0] == b[0]);
        }
    }
}

/// A Latin letter or a digit.
pub open spec fn letter_or_digit(b: u8) -> bool {
    0x30 <= b <= 0x39 || 0x41 <= b <= 0x5a || 0x61 <= b <= 0x7a
}

/// What each alphabet is made of.
pub proof fn alphabets(b: u8)
    ensures
        paths::Alphabet::Name.has(b) <==> letter_or_digit(b) || b == 0x2d || b == 0x2e || b
            == 0x5f,
        paths::Alphabet::Host.has(b) <==> 0x30 <= b <= 0x39 || 0x61 <= b <= 0x7a || b == 0x2d || b
            == 0x2e,
        paths::Alphabet::Reference.has(b) <==> 0x30 <= b <= 0x39 || 0x41 <= b <= 0x5a || b == 0x5f,
        paths::Alphabet::Tree.has(b) <==> letter_or_digit(b) || b == 0x2d || b == 0x2e || b == 0x5f
            || b == 0x2f,
        paths::Alphabet::Http.has(b) <==> letter_or_digit(b) || b == 0x2d || b == 0x2e || b == 0x5f
            || b == 0x2f || b == 0x7e || b == 0x25,
{
}

/// Every byte belongs to an alphabet.
pub open spec fn spelled(b: Seq<u8>, a: paths::Alphabet) -> bool {
    forall|i: int| 0 <= i < b.len() ==> a.has(#[trigger] b[i])
}

/// A name has 1 to 128 bytes of its alphabet and does not begin with a dash, which a
/// command would read as an option.
pub proof fn names_that_are_accepted(tag: u16, s: Seq<char>)
    ensures
        paths::name_fault(tag, s) is None <==> ({
            let b = encode_utf8(s);
            1 <= b.len() <= 128 && spelled(b, paths::Alphabet::Name) && b[0] != 0x2d
        }),
{
    first_outside_is_the_first(encode_utf8(s), paths::Alphabet::Name);
}

/// A reference to a secret has 1 to 128 bytes of its alphabet.
pub proof fn references_that_are_accepted(tag: u16, s: Seq<char>)
    ensures
        paths::reference_fault(tag, s) is None <==> ({
            let b = encode_utf8(s);
            1 <= b.len() <= 128 && spelled(b, paths::Alphabet::Reference)
        }),
{
    first_outside_is_the_first(encode_utf8(s), paths::Alphabet::Reference);
}

/// A host has 1 to 128 bytes of its alphabet, and between its dots labels that are not empty
/// and neither begin nor end with a dash.
pub proof fn hosts_that_are_accepted(tag: u16, s: Seq<char>)
    ensures
        paths::host_fault(tag, s) is None <==> ({
            let b = encode_utf8(s);
            &&& 1 <= b.len() <= 128
            &&& spelled(b, paths::Alphabet::Host)
            &&& forall|i: int|
                0 <= i < paths::pieces(b, 0x2e).len() ==> ({
                    let label = #[trigger] paths::pieces(b, 0x2e)[i];
                    label.len() > 0 && label[0] != 0x2d && label[label.len() - 1] != 0x2d
                })
        }),
{
    let b = encode_utf8(s);
    first_outside_is_the_first(b, paths::Alphabet::Host);
    let ps = paths::pieces(b, 0x2e);
    assert forall|i: int| 0 <= i < ps.len() implies paths::bad_label(#[trigger] ps[i]) == !(
    ps[i].len() > 0 && ps[i][0] != 0x2d && ps[i][ps[i].len() - 1] != 0x2d) by {}
}

/// The parts of a path: none is empty, none is `.`, none is `..`.
pub open spec fn parts_stay_inside(b: Seq<u8>) -> bool {
    forall|i: int|
        0 <= i < paths::pieces(b, 0x2f).len() ==> ({
            let part = #[trigger] paths::pieces(b, 0x2f)[i];
            part.len() > 0 && part != seq![0x2eu8] && part != seq![0x2eu8, 0x2eu8]
        })
}

proof fn parts_fault_is_none_inside(tag: u16, b: Seq<u8>)
    ensures
        paths::parts_fault(tag, b) is None <==> parts_stay_inside(b),
{
    let ps = paths::pieces(b, 0x2f);
    assert forall|i: int| 0 <= i < ps.len() implies paths::bad_part(#[trigger] ps[i])
        == !(ps[i].len()
        > 0 && ps[i] != seq![0x2eu8] && ps[i] != seq![0x2eu8, 0x2eu8]) by {}
}

/// A path in a tree has 1 to 512 bytes of its alphabet, is relative, and leaves the tree by
/// none of its parts.
pub proof fn tree_paths_that_are_accepted(tag: u16, s: Seq<char>)
    ensures
        paths::tree_fault(tag, s) is None <==> ({
            let b = encode_utf8(s);
            &&& 1 <= b.len() <= 512
            &&& spelled(b, paths::Alphabet::Tree)
            &&& b[0] != 0x2f
            &&& parts_stay_inside(b)
        }),
{
    first_outside_is_the_first(encode_utf8(s), paths::Alphabet::Tree);
    parts_fault_is_none_inside(tag, encode_utf8(s));
}

/// The path of a request has 1 to 512 bytes of its alphabet, begins at the root, and leaves it
/// by none of its parts.
pub proof fn http_paths_that_are_accepted(tag: u16, s: Seq<char>)
    ensures
        paths::http_fault(tag, s) is None <==> ({
            let b = encode_utf8(s);
            &&& 1 <= b.len() <= 512
            &&& spelled(b, paths::Alphabet::Http)
            &&& b[0] == 0x2f
            &&& b.len() > 1 ==> parts_stay_inside(b.skip(1))
        }),
{
    first_outside_is_the_first(encode_utf8(s), paths::Alphabet::Http);
    parts_fault_is_none_inside(tag, encode_utf8(s).skip(1));
}

/// What is named when a text is refused: its length, where that is out of bounds; otherwise
/// its first byte outside the alphabet, where there is one.
pub proof fn why_a_text_is_refused(tag: u16, s: Seq<char>)
    ensures
        ({
            let b = encode_utf8(s);
            let wrong = FormatError::BadFieldLength { tag, len: b.len() as usize };
            &&& b.len() == 0 || b.len() > 128 ==> paths::name_fault(tag, s) == Some(wrong)
                && paths::host_fault(tag, s) == Some(wrong) && paths::reference_fault(tag, s)
                == Some(wrong)
            &&& b.len() == 0 || b.len() > 512 ==> paths::tree_fault(tag, s) == Some(wrong)
                && paths::http_fault(tag, s) == Some(wrong)
        }),
{
}

} // verus!
