//! Which conditions are accepted, and how a typed one is read.

use crate::attribute_rule::{self, ClauseView, Mode, RuleView, TighteningView};
use crate::bytes;
use crate::error::FormatError;
use crate::tlv::{self, Rec};
use vstd::prelude::*;
use vstd::utf8::*;

verus! {

/// An identifier is one to 64 bytes: letters, digits, underscores, dots, colons, slashes and
/// hyphens.
pub proof fn texts_that_are_identifiers(s: Seq<char>)
    ensures
        ({
            let b = encode_utf8(s);
            attribute_rule::identifier(s) <==> 1 <= b.len() <= 64 && (forall|i: int|
                0 <= i < b.len() ==> {
                    let c = #[trigger] b[i];
                    97 <= c <= 122 || 65 <= c <= 90 || 48 <= c <= 57 || c == 95 || c == 46
                        || c == 58
                        || c == 47 || c == 45
                })
        }),
{
    let b = encode_utf8(s);
    if attribute_rule::identifier(s) {
        assert forall|i: int| 0 <= i < b.len() implies ({
            let c = #[trigger] b[i];
            97 <= c <= 122 || 65 <= c <= 90 || 48 <= c <= 57 || c == 95 || c == 46 || c == 58 || c
                == 47 || c == 45
        }) by {
            assert(attribute_rule::identifier_byte(b[i]));
        }
    }
    if forall|i: int|
        0 <= i < b.len() ==> {
            let c = #[trigger] b[i];
            97 <= c <= 122 || 65 <= c <= 90 || 48 <= c <= 57 || c == 95 || c == 46 || c == 58 || c
                == 47 || c == 45
        } {
        assert forall|i: int| 0 <= i < b.len() implies attribute_rule::identifier_byte(
            #[trigger] b[i],
        ) by {}
    }
}

/// A condition is accepted exactly where its attribute and each of its values is an identifier,
/// and there are one to 64 values, of a rank exactly one.
pub proof fn conditions_that_are_accepted(c: ClauseView, at: u16)
    ensures
        attribute_rule::clause_fault(c, at) is None <==> {
            &&& attribute_rule::identifier(c.attribute)
            &&& forall|i: int|
                0 <= i < c.values.len() ==> attribute_rule::identifier(#[trigger] c.values[i])
            &&& 1 <= c.values.len() <= 64
            &&& c.mode == Mode::AtLeast ==> c.values.len() == 1
        },
{
}

/// A rule is accepted exactly where it has at most sixteen conditions and at most eight
/// tightenings, each condition of either is accepted, and a longest lease is at least a second.
pub proof fn rules_that_are_accepted(rule: RuleView)
    ensures
        rule.fault() is None <==> {
            &&& rule.clauses.len() <= 16
            &&& rule.tightenings.len() <= 8
            &&& rule.max_lease_seconds matches Some(s) ==> s >= 1
            &&& forall|i: int|
                0 <= i < rule.clauses.len() ==> attribute_rule::clause_fault(
                    #[trigger] rule.clauses[i],
                    2,
                ) is None
            &&& forall|i: int|
                0 <= i < rule.tightenings.len() ==> attribute_rule::clause_fault(
                    (#[trigger] rule.tightenings[i]).unless,
                    3,
                ) is None
        },
        rule.nothing() <==> rule.clauses.len() == 0 && rule.max_lease_seconds is None
            && rule.tightenings.len() == 0,
{
    no_condition_at_fault(rule.clauses);
    no_exception_at_fault(rule.tightenings);
}

proof fn no_condition_at_fault(cs: Seq<ClauseView>)
    ensures
        attribute_rule::first_clause_fault(cs) is None <==> (forall|i: int|
            0 <= i < cs.len() ==> attribute_rule::clause_fault(#[trigger] cs[i], 2) is None),
    decreases cs.len(),
{
    if cs.len() > 0 {
        let rest = cs.drop_first();
        no_condition_at_fault(rest);
        if attribute_rule::first_clause_fault(cs) is None {
            assert forall|i: int| 0 <= i < cs.len() implies attribute_rule::clause_fault(
                #[trigger] cs[i],
                2,
            ) is None by {
                if i > 0 {
                    assert(rest[i - 1] == cs[i]);
                }
            }
        }
        if forall|i: int|
            0 <= i < cs.len() ==> attribute_rule::clause_fault(#[trigger] cs[i], 2) is None {
            assert(attribute_rule::clause_fault(cs[0], 2) is None);
            assert forall|i: int| 0 <= i < rest.len() implies attribute_rule::clause_fault(
                #[trigger] rest[i],
                2,
            ) is None by {
                assert(rest[i] == cs[i + 1]);
            }
        }
    }
}

proof fn no_exception_at_fault(ts: Seq<TighteningView>)
    ensures
        attribute_rule::first_unless_fault(ts) is None <==> (forall|i: int|
            0 <= i < ts.len() ==> attribute_rule::clause_fault((#[trigger] ts[i]).unless, 3)
                is None),
    decreases ts.len(),
{
    if ts.len() > 0 {
        let rest = ts.drop_first();
        no_exception_at_fault(rest);
        if attribute_rule::first_unless_fault(ts) is None {
            assert forall|i: int| 0 <= i < ts.len() implies attribute_rule::clause_fault(
                (#[trigger] ts[i]).unless,
                3,
            ) is None by {
                if i > 0 {
                    assert(rest[i - 1] == ts[i]);
                }
            }
        }
        if forall|i: int|
            0 <= i < ts.len() ==> attribute_rule::clause_fault((#[trigger] ts[i]).unless, 3)
                is None {
            assert(attribute_rule::clause_fault(ts[0].unless, 3) is None);
            assert forall|i: int| 0 <= i < rest.len() implies attribute_rule::clause_fault(
                (#[trigger] rest[i]).unless,
                3,
            ) is None by {
                assert(rest[i] == ts[i + 1]);
            }
        }
    }
}

/// A rule that is read is accepted.
pub proof fn a_rule_that_is_read_is_accepted(b: Seq<u8>, refused: Option<(usize, FormatError)>)
    ensures
        attribute_rule::rule_of(b, refused) matches Ok(rule) ==> rule.fault() is None,
{
}

/// Where the codec of policies refuses a profile, the list of tightenings is refused for it, and
/// a refusal of a profile that is not there changes nothing.
pub proof fn a_refused_profile_refuses_the_list(b: Seq<u8>, at: usize, e: FormatError)
    ensures
        attribute_rule::tightenings_of(b, None) matches Ok(ts) ==> {
            &&& at < ts.len() ==> attribute_rule::tightenings_of(b, Some((at, e))) == Err::<
                Seq<TighteningView>,
                FormatError,
            >(e)
            &&& at >= ts.len() ==> attribute_rule::tightenings_of(b, Some((at, e))) == Ok::<
                Seq<TighteningView>,
                FormatError,
            >(ts)
        },
{
    if let Ok(items) = attribute_rule::items_of(attribute_rule::tag::TIGHTENINGS, b, 8) {
        refusal_of_a_profile(items, at, e);
    }
}

proof fn refusal_of_a_profile(items: Seq<Seq<u8>>, at: usize, e: FormatError)
    ensures
        attribute_rule::tightenings_in(items, None) matches Ok(ts) ==> {
            &&& ts.len() == items.len()
            &&& at < items.len() ==> attribute_rule::tightenings_in(items, Some((at, e))) == Err::<
                Seq<TighteningView>,
                FormatError,
            >(e)
            &&& at >= items.len() ==> attribute_rule::tightenings_in(items, Some((at, e))) == Ok::<
                Seq<TighteningView>,
                FormatError,
            >(ts)
        },
    decreases items.len(),
{
    if items.len() > 0 {
        refusal_of_a_profile(items.drop_last(), at, e);
    }
}

/// The numbers of the modes.
pub proof fn numbers_of_modes(v: u8)
    ensures
        Mode::AnyOf.number() == 1 && Mode::AllOf.number() == 2 && Mode::AtLeast.number() == 3,
        match Mode::numbered(v) {
            Some(m) => m.number() == v,
            None => v == 0 || v > 3,
        },
{
}

/// A sign is found where it first stands.
pub proof fn where_a_sign_first_stands(s: Seq<char>, c: char)
    ensures
        ({
            let k = attribute_rule::first_sign(s, c) as int;
            &&& k <= s.len()
            &&& k < s.len() ==> s[k] == c
            &&& forall|i: int| 0 <= i < k ==> #[trigger] s[i] != c
        }),
    decreases s.len(),
{
    if s.len() > 0 && s[0] != c {
        let rest = s.drop_first();
        where_a_sign_first_stands(rest, c);
        let k = attribute_rule::first_sign(s, c) as int;
        if k < s.len() {
            assert(rest[k - 1] == s[k]);
        }
        assert forall|i: int| 0 <= i < k implies #[trigger] s[i] != c by {
            if i > 0 {
                assert(rest[i - 1] == s[i]);
            }
        }
    }
}

/// The two signs of a rank are found where they first stand together.
pub proof fn where_the_signs_of_a_rank_first_stand(s: Seq<char>)
    ensures
        ({
            let k = attribute_rule::rank_sign(s) as int;
            &&& k <= s.len()
            &&& k < s.len() ==> k + 1 < s.len() && s[k] == '>' && s[k + 1] == '='
            &&& forall|i: int|
                0 <= i < k && i + 1 < s.len() ==> !(#[trigger] s[i] == '>' && s[i + 1] == '=')
        }),
    decreases s.len(),
{
    if s.len() >= 2 && !(s[0] == '>' && s[1] == '=') {
        let rest = s.drop_first();
        where_the_signs_of_a_rank_first_stand(rest);
        let k = attribute_rule::rank_sign(s) as int;
        if k < s.len() {
            assert(rest[k - 1] == s[k] && rest[k] == s[k + 1]);
        }
        assert forall|i: int| 0 <= i < k && i + 1 < s.len() implies !(#[trigger] s[i] == '>' && s[i
            + 1] == '=') by {
            if i > 0 {
                assert(rest[i - 1] == s[i] && rest[i] == s[i + 1]);
            }
        }
    }
}

/// What a text is cut into gives the text again when it is joined, and no piece holds the sign.
pub proof fn pieces_of_a_cut_text(s: Seq<char>, c: char)
    ensures
        ({
            let ps = attribute_rule::cut(s, c);
            &&& ps.len() > 0
            &&& attribute_rule::joined(ps, c) == s
            &&& forall|i: int| 0 <= i < ps.len() ==> !(#[trigger] ps[i]).contains(c)
        }),
    decreases s.len(),
{
    let ps = attribute_rule::cut(s, c);
    if s.len() == 0 {
        assert(attribute_rule::joined(ps, c) =~= s);
    } else {
        let prior = attribute_rule::cut(s.drop_last(), c);
        pieces_of_a_cut_text(s.drop_last(), c);
        assert(s =~= s.drop_last().push(s.last()));
        if s.last() == c {
            assert(ps.drop_last() =~= prior);
            assert(attribute_rule::joined(ps, c) =~= s);
        } else {
            assert(ps.drop_last() =~= prior.drop_last());
            assert(ps.last() =~= prior.last().push(s.last()));
            assert(attribute_rule::joined(ps, c) =~= s);
            assert forall|i: int| 0 <= i < ps.len() implies !(#[trigger] ps[i]).contains(c) by {
                if i < ps.len() - 1 {
                    assert(ps[i] == prior[i]);
                } else {
                    let p = prior.last();
                    assert(!p.contains(c));
                    assert forall|j: int| 0 <= j < ps[i].len() implies ps[i][j] != c by {
                        if j < p.len() {
                            assert(ps[i][j] == p[j]);
                            assert(p.contains(p[j]));
                        }
                    }
                }
            }
        }
    }
}

/// A typed condition is one of a rank exactly where the two signs of a rank stand in it: the
/// attribute is what stands before them, and the value is all that stands behind.
pub proof fn typed_conditions_of_a_rank(text: Seq<char>, k: int)
    requires
        0 <= k && k + 1 < text.len(),
        text[k] == '>' && text[k + 1] == '=',
        forall|i: int| 0 <= i < k ==> !(#[trigger] text[i] == '>' && text[i + 1] == '='),
        !(text.contains('|') && text.contains('&')),
    ensures
        attribute_rule::parsed(text) matches Ok(c) && c.mode == Mode::AtLeast && c.attribute
            == text.subrange(0, k) && c.values == seq![text.subrange(k + 2, text.len() as int)],
{
    where_the_signs_of_a_rank_first_stand(text);
    let r = attribute_rule::rank_sign(text) as int;
    if r < k {
        assert(text[r] == '>' && text[r + 1] == '=');
    }
    assert(r == k);
    assert(text[k + 1] == '=');
    assert(text.contains('='));
    assert(text.take(k) =~= text.subrange(0, k));
    assert(text.skip(k + 2) =~= text.subrange(k + 2, text.len() as int));
}

/// A typed condition without the signs of a rank is cut at its first sign of equality. Behind
/// it stand the values: all of them are asked for where they are joined by ampersands, and one
/// of them else.
pub proof fn typed_conditions_of_values(text: Seq<char>, k: int)
    requires
        0 <= k < text.len(),
        text[k] == '=',
        forall|i: int| 0 <= i < k ==> #[trigger] text[i] != '=',
        forall|i: int|
            0 <= i < text.len() - 1 ==> !(#[trigger] text[i] == '>' && text[i + 1] == '='),
        !(text.contains('|') && text.contains('&')),
    ensures
        ({
            let behind = text.subrange(k + 1, text.len() as int);
            &&& attribute_rule::parsed(text) is Ok
            &&& attribute_rule::parsed(text) matches Ok(c) ==> {
                &&& c.attribute == text.subrange(0, k)
                &&& c.mode == Mode::AllOf <==> behind.contains('&')
                &&& c.mode == Mode::AnyOf <==> !behind.contains('&')
                &&& c.values.len() > 0
                &&& attribute_rule::joined(
                    c.values,
                    if behind.contains('&') {
                        '&'
                    } else {
                        '|'
                    },
                ) == behind
                &&& forall|i: int|
                    0 <= i < c.values.len() ==> !(#[trigger] c.values[i]).contains(
                        if behind.contains('&') {
                            '&'
                        } else {
                            '|'
                        },
                    )
            }
        }),
{
    where_the_signs_of_a_rank_first_stand(text);
    where_a_sign_first_stands(text, '=');
    let r = attribute_rule::rank_sign(text) as int;
    if r < text.len() {
        assert(text[r] == '>' && text[r + 1] == '=');
    }
    let e = attribute_rule::first_sign(text, '=') as int;
    assert(text.contains('=')) by {
        assert(text[k] == '=');
    }
    if e < k {
        assert(text[e] == '=');
    }
    assert(e == k);
    let behind = text.subrange(k + 1, text.len() as int);
    assert(text.take(k) =~= text.subrange(0, k));
    assert(text.skip(k + 1) =~= behind);
    pieces_of_a_cut_text(behind, '&');
    pieces_of_a_cut_text(behind, '|');
}

/// A list is written exactly where the length of each item fits into four bytes: the items, each
/// behind its length.
pub proof fn lists_that_are_written(at: u16, items: Seq<Seq<u8>>)
    ensures
        attribute_rule::stream_bytes(at, items) is Ok <==> (forall|i: int|
            0 <= i < items.len() ==> (#[trigger] items[i]).len() <= 4_294_967_295),
        attribute_rule::stream_bytes(at, items) matches Ok(b) ==> b == bytes::framed(items),
    decreases items.len(),
{
    if items.len() > 0 {
        let rest = items.drop_first();
        lists_that_are_written(at, rest);
        if attribute_rule::stream_bytes(at, items) is Ok {
            assert(attribute_rule::stream_fault(at, rest) is None);
            assert forall|i: int| 0 <= i < items.len() implies (#[trigger] items[i]).len()
                <= 4_294_967_295 by {
                if i > 0 {
                    assert(rest[i - 1] == items[i]);
                }
            }
        }
        if forall|i: int| 0 <= i < items.len() ==> (#[trigger] items[i]).len() <= 4_294_967_295 {
            assert(items[0].len() <= 4_294_967_295);
            assert forall|i: int| 0 <= i < rest.len() implies (#[trigger] rest[i]).len()
                <= 4_294_967_295 by {
                assert(rest[i] == items[i + 1]);
            }
            assert(attribute_rule::stream_fault(at, rest) is None);
        }
    }
}

/// A list that is read has no more items than it may, and its bytes are the items, each behind
/// its length, and nothing else.
pub proof fn lists_that_are_read(at: u16, b: Seq<u8>, limit: nat)
    ensures
        attribute_rule::items_of(at, b, limit) matches Ok(items) ==> items.len() <= limit && b
            == bytes::framed(items),
{
    if attribute_rule::items_of(at, b, limit) is Ok {
        list_from(at, b, limit, 0);
    }
}

proof fn list_from(at: u16, b: Seq<u8>, limit: nat, taken: nat)
    requires
        attribute_rule::items_behind(at, b, limit, taken) is Ok,
        taken <= limit,
    ensures
        ({
            let items = attribute_rule::items_behind(at, b, limit, taken)->Ok_0;
            taken + items.len() <= limit && b == bytes::framed(items)
        }),
    decreases b.len(),
{
    let items = attribute_rule::items_behind(at, b, limit, taken)->Ok_0;
    if b.len() == 0 {
        assert(b =~= bytes::framed(items));
    } else {
        let len = bytes::num32(b.subrange(0, 4)) as int;
        let tail = b.skip(4);
        list_from(at, tail.skip(len), limit, taken + 1);
        let rest = attribute_rule::items_behind(at, tail.skip(len), limit, taken + 1)->Ok_0;
        assert(items.drop_first() =~= rest);
        bytes::num32_round_trip(b.subrange(0, 4));
        assert(b =~= bytes::framed(items));
    }
}

/// A condition is written as its mode in one byte, and a list of its attribute and its values.
pub proof fn conditions_that_are_written(c: ClauseView)
    ensures
        attribute_rule::clause_bytes(c) matches Ok(b) ==> b.len() > 0 && b[0] == c.mode.number()
            && b.skip(1) == bytes::framed(attribute_rule::encoded(seq![c.attribute] + c.values)),
        encode_utf8(c.attribute).len() <= 4_294_967_295 && (forall|i: int|
            0 <= i < c.values.len() ==> encode_utf8(#[trigger] c.values[i]).len() <= 4_294_967_295)
            ==> attribute_rule::clause_bytes(c) is Ok,
{
    let names = seq![c.attribute] + c.values;
    let parts = attribute_rule::encoded(names);
    lists_that_are_written(2, parts);
    if let Ok(b) = attribute_rule::clause_bytes(c) {
        assert(b.skip(1) =~= bytes::framed(parts));
    }
    if encode_utf8(c.attribute).len() <= 4_294_967_295 && (forall|i: int|
        0 <= i < c.values.len() ==> encode_utf8(#[trigger] c.values[i]).len() <= 4_294_967_295) {
        assert forall|i: int| 0 <= i < parts.len() implies (#[trigger] parts[i]).len()
            <= 4_294_967_295 by {
            if i > 0 {
                assert(names[i] == c.values[i - 1]);
            }
        }
    }
}

/// A condition that is read has at most 64 values and is what was written.
pub proof fn conditions_that_are_read(item: Seq<u8>)
    ensures
        attribute_rule::clause_of(item) matches Ok(c) ==> c.values.len() <= 64 && item.len() > 0
            && item[0] == c.mode.number() && item.skip(1) == bytes::framed(
            attribute_rule::encoded(seq![c.attribute] + c.values),
        ),
{
    if let Ok(c) = attribute_rule::clause_of(item) {
        lists_that_are_read(2, item.skip(1), 65);
        let parts = attribute_rule::items_of(2, item.skip(1), 65)->Ok_0;
        let names = attribute_rule::decoded(parts);
        assert(seq![c.attribute] + c.values =~= names);
        assert forall|i: int| 0 <= i < parts.len() implies encode_utf8(#[trigger] names[i])
            == parts[i] by {
            assert(valid_utf8(parts[i]));
            decode_utf8_encode_utf8(parts[i]);
        }
        assert(attribute_rule::encoded(names) =~= parts);
    }
}

/// A rule is written exactly where it is accepted and its parts can be written.
pub proof fn rules_that_are_written(rule: RuleView)
    ensures
        attribute_rule::rule_bytes(rule) is Ok <==> rule.fault() is None && (
        attribute_rule::clauses_bytes(rule.clauses) matches Ok(cs) && (
        attribute_rule::tightenings_bytes(rule.tightenings) matches Ok(ts) && tlv::sealed(
            attribute_rule::rule_recs(rule, cs, ts),
        ) is Ok)),
{
}

/// The conditions of a rule are a list of at most sixteen, each read from its item in order.
pub proof fn lists_of_conditions_that_are_read(items: Seq<Seq<u8>>)
    ensures
        attribute_rule::clauses_in(items) matches Ok(cs) ==> cs.len() == items.len() && (forall|
            i: int,
        |
            0 <= i < items.len() ==> attribute_rule::clause_of(#[trigger] items[i]) == Ok::<
                ClauseView,
                FormatError,
            >(cs[i])),
    decreases items.len(),
{
    if items.len() > 0 {
        let front = items.drop_last();
        lists_of_conditions_that_are_read(front);
        if let Ok(cs) = attribute_rule::clauses_in(items) {
            let prior = attribute_rule::clauses_in(front)->Ok_0;
            assert forall|i: int| 0 <= i < items.len() implies attribute_rule::clause_of(
                #[trigger] items[i],
            ) == Ok::<ClauseView, FormatError>(cs[i]) by {
                if i < front.len() {
                    assert(front[i] == items[i]);
                    assert(prior[i] == cs[i]);
                }
            }
        }
    }
}

/// A tightening is a list of two: who is not tightened, and the profile of everybody else.
pub proof fn parts_of_a_tightening(t: TighteningView, item: Seq<u8>, refused: Option<FormatError>)
    ensures
        attribute_rule::tightening_bytes(t) matches Ok(b) ==> (attribute_rule::clause_bytes(
            t.unless,
        ) matches Ok(u) && b == bytes::framed(seq![u, t.profile])),
        attribute_rule::tightening_of(item, refused) matches Ok(x) ==> {
            &&& refused is None
            &&& attribute_rule::items_of(3, item, 2) matches Ok(parts) && parts.len() == 2
                && attribute_rule::clause_of(parts[0]) == Ok::<ClauseView, FormatError>(x.unless)
                && parts[1] == x.profile
        },
        (attribute_rule::items_of(3, item, 2) matches Ok(parts) && parts.len() == 2
            && attribute_rule::clause_of(parts[0]) is Ok) && refused is None
            ==> attribute_rule::tightening_of(item, refused) is Ok,
{
    if let Ok(u) = attribute_rule::clause_bytes(t.unless) {
        lists_that_are_written(3, seq![u, t.profile]);
    }
}

/// Each condition and each tightening of a rule is written as an item, in its order.
pub proof fn items_of_a_rule(cs: Seq<ClauseView>, ts: Seq<TighteningView>)
    ensures
        attribute_rule::clause_items(cs) matches Ok(items) ==> items.len() == cs.len() && (forall|
            i: int,
        |
            0 <= i < cs.len() ==> attribute_rule::clause_bytes(#[trigger] cs[i]) == Ok::<
                Seq<u8>,
                FormatError,
            >(items[i])),
        attribute_rule::tightening_items(ts) matches Ok(items) ==> items.len() == ts.len() && (
        forall|i: int|
            0 <= i < ts.len() ==> attribute_rule::tightening_bytes(#[trigger] ts[i]) == Ok::<
                Seq<u8>,
                FormatError,
            >(items[i])),
    decreases cs.len() + ts.len(),
{
    if cs.len() > 0 {
        let front = cs.drop_last();
        items_of_a_rule(front, Seq::empty());
        if let Ok(items) = attribute_rule::clause_items(cs) {
            let prior = attribute_rule::clause_items(front)->Ok_0;
            assert forall|i: int| 0 <= i < cs.len() implies attribute_rule::clause_bytes(
                #[trigger] cs[i],
            ) == Ok::<Seq<u8>, FormatError>(items[i]) by {
                if i < front.len() {
                    assert(front[i] == cs[i]);
                    assert(prior[i] == items[i]);
                }
            }
        }
    }
    if ts.len() > 0 {
        let front = ts.drop_last();
        items_of_a_rule(Seq::empty(), front);
        if let Ok(items) = attribute_rule::tightening_items(ts) {
            let prior = attribute_rule::tightening_items(front)->Ok_0;
            assert forall|i: int| 0 <= i < ts.len() implies attribute_rule::tightening_bytes(
                #[trigger] ts[i],
            ) == Ok::<Seq<u8>, FormatError>(items[i]) by {
                if i < front.len() {
                    assert(front[i] == ts[i]);
                    assert(prior[i] == items[i]);
                }
            }
        }
    }
}

/// The lists of a rule are written from their items.
pub proof fn lists_of_a_rule(cs: Seq<ClauseView>, ts: Seq<TighteningView>)
    ensures
        attribute_rule::clauses_bytes(cs) matches Ok(b) ==> (attribute_rule::clause_items(
            cs,
        ) matches Ok(items) && b == bytes::framed(items)),
        attribute_rule::tightenings_bytes(ts) matches Ok(b) ==> (attribute_rule::tightening_items(
            ts,
        ) matches Ok(items) && b == bytes::framed(items)),
{
}

/// Where the fields of a rule of attributes stand, and which of them have to be there.
pub proof fn where_the_fields_of_a_rule_of_attributes_stand(
    rs: Seq<Rec>,
    refused: Option<(usize, FormatError)>,
)
    ensures
        attribute_rule::rule_in(rs, refused) matches Ok(v) ==> {
            &&& tlv::lookup(rs, 2) matches Some(b)
                && v.clauses == attribute_rule::clauses_of(b)->Ok_0
            &&& v.max_lease_seconds == match tlv::lookup(rs, 1) {
                Some(x) => Some(bytes::num64s(x)),
                None => None,
            }
            &&& v.tightenings == match tlv::lookup(rs, 3) {
                Some(x) => attribute_rule::tightenings_of(x, refused)->Ok_0,
                None => Seq::empty(),
            }
        },
        attribute_rule::rule_in(rs, refused) is Ok <==> {
            &&& tlv::lookup(rs, 2) is Some
        },
{
}

} // verus!
