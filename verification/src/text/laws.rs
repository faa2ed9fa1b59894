//! Which characters a text may hold, how long it may be, and how numbers are spelled.

use crate::error::FormatError;
use crate::text;
use vstd::prelude::*;
use vstd::utf8::*;

verus! {

/// Not shown are the control characters, the soft hyphen, and what has no width, turns the
/// direction of writing or breaks lines.
pub proof fn characters_that_are_not_shown(c: char)
    ensures
        ({
            let n = c as int;
            text::display_unsafe(c) <==> {
                ||| 0 <= n <= 31
                ||| 127 <= n <= 159
                ||| n == 173
                ||| n == 1564
                ||| 8203 <= n <= 8207
                ||| 8232 <= n <= 8238
                ||| 8288 <= n <= 8303
                ||| n == 65279
                ||| 917504 <= n <= 917631
            }
        }),
{
}

/// White space is what Unicode calls so.
pub proof fn characters_that_are_white_space(c: char)
    ensures
        ({
            let n = c as int;
            text::white_space(c) <==> {
                ||| 9 <= n <= 13
                ||| n == 32
                ||| n == 133
                ||| n == 160
                ||| n == 5760
                ||| 8192 <= n <= 8202
                ||| n == 8232
                ||| n == 8233
                ||| n == 8239
                ||| n == 8287
                ||| n == 12288
            }
        }),
{
}

/// The first character that is not shown is the first.
pub proof fn the_first_that_is_not_shown(s: Seq<char>)
    ensures
        text::first_unsafe(s) is None <==> (forall|i: int|
            0 <= i < s.len() ==> !text::display_unsafe(#[trigger] s[i])),
        forall|i: int|
            0 <= i < s.len() && text::display_unsafe(#[trigger] s[i]) && (forall|j: int|
                0 <= j < i ==> !text::display_unsafe(#[trigger] s[j])) ==> text::first_unsafe(s)
                == Some(s[i]),
    decreases s.len(),
{
    if s.len() > 0 {
        let rest = s.drop_first();
        the_first_that_is_not_shown(rest);
        if text::first_unsafe(s) is None {
            assert forall|i: int| 0 <= i < s.len() implies !text::display_unsafe(
                #[trigger] s[i],
            ) by {
                if i > 0 {
                    assert(rest[i - 1] == s[i]);
                }
            }
        }
        if forall|i: int| 0 <= i < s.len() ==> !text::display_unsafe(#[trigger] s[i]) {
            assert(!text::display_unsafe(s[0]));
            assert forall|i: int| 0 <= i < rest.len() implies !text::display_unsafe(
                #[trigger] rest[i],
            ) by {
                assert(rest[i] == s[i + 1]);
            }
        }
        assert forall|i: int|
            0 <= i < s.len() && text::display_unsafe(#[trigger] s[i]) && (forall|j: int|
                0 <= j < i ==> !text::display_unsafe(#[trigger] s[j])) implies text::first_unsafe(s)
            == Some(s[i]) by {
            if i > 0 {
                assert(!text::display_unsafe(s[0]));
                assert(rest[i - 1] == s[i]);
                assert forall|j: int| 0 <= j < i - 1 implies !text::display_unsafe(
                    #[trigger] rest[j],
                ) by {
                    assert(rest[j] == s[j + 1]);
                }
            }
        }
    }
}

/// A text is refused for a character exactly where it holds one that is not shown, and the
/// refusal names the first.
pub proof fn texts_refused_for_a_character(tag: u16, s: Seq<char>, i: int)
    ensures
        text::unsafe_fault(tag, s) is None <==> (forall|k: int|
            0 <= k < s.len() ==> !text::display_unsafe(#[trigger] s[k])),
        0 <= i < s.len() && text::display_unsafe(s[i]) && (forall|j: int|
            0 <= j < i ==> !text::display_unsafe(#[trigger] s[j])) ==> text::unsafe_fault(tag, s)
            == Some(FormatError::BadNoteChar { tag, code: s[i] as u32 }),
{
    the_first_that_is_not_shown(s);
}

/// A note is accepted exactly where it has at most 256 bytes and every character is shown.
pub proof fn notes_that_are_accepted(tag: u16, note: Seq<char>)
    ensures
        text::note_fault(tag, note) is None <==> encode_utf8(note).len() <= 256 && (
        forall|k: int| 0 <= k < note.len() ==> !text::display_unsafe(#[trigger] note[k])),
        encode_utf8(note).len() > 256 ==> text::note_fault(tag, note) == Some(
            FormatError::BadFieldLength { tag, len: encode_utf8(note).len() as usize },
        ),
{
    the_first_that_is_not_shown(note);
}

/// The bytes of a note are accepted exactly where they are a text and the text is accepted.
pub proof fn bytes_of_notes_that_are_accepted(tag: u16, b: Seq<u8>)
    ensures
        text::note_bytes_fault(tag, b) is None <==> valid_utf8(b) && text::note_fault(
            tag,
            decode_utf8(b),
        ) is None,
        !valid_utf8(b) ==> text::note_bytes_fault(tag, b) == Some(FormatError::NotUtf8 { tag }),
{
}

/// A phrase is accepted exactly where something in it is no white space, it is not too long in
/// characters, and every character is shown.
pub proof fn phrases_that_are_accepted(tag: u16, s: Seq<char>, max_chars: nat)
    ensures
        text::phrase_fault(tag, s, max_chars) is None <==> {
            &&& exists|i: int| 0 <= i < s.len() && !text::white_space(#[trigger] s[i])
            &&& s.len() <= max_chars
            &&& forall|k: int| 0 <= k < s.len() ==> !text::display_unsafe(#[trigger] s[k])
        },
{
    the_first_that_is_not_shown(s);
}

/// The name of an organisation is one to 64 bytes: small letters, digits, dots, hyphens and
/// underscores.
pub proof fn names_of_organisations(tag: u16, s: Seq<char>)
    ensures
        ({
            let b = encode_utf8(s);
            text::tenant_fault(tag, s) is None <==> 1 <= b.len() <= 64 && (forall|i: int|
                0 <= i < b.len() ==> {
                    let c = #[trigger] b[i];
                    97 <= c <= 122 || 48 <= c <= 57 || c == 46 || c == 45 || c == 95
                })
        }),
{
    let b = encode_utf8(s);
    if text::tenant_fault(tag, s) is None {
        assert forall|i: int| 0 <= i < b.len() implies ({
            let c = #[trigger] b[i];
            97 <= c <= 122 || 48 <= c <= 57 || c == 46 || c == 45 || c == 95
        }) by {
            assert(text::tenant_byte(b[i]));
        }
    }
    if forall|i: int|
        0 <= i < b.len() ==> {
            let c = #[trigger] b[i];
            97 <= c <= 122 || 48 <= c <= 57 || c == 46 || c == 45 || c == 95
        } {
        assert forall|i: int| 0 <= i < b.len() implies text::tenant_byte(#[trigger] b[i]) by {}
    }
}

/// The number that digits spell in a base.
pub open spec fn spelled_number(s: Seq<char>, base: nat) -> nat
    decreases s.len(),
{
    if s.len() == 0 {
        0
    } else {
        spelled_number(s.drop_last(), base) * base + worth(s.last())
    }
}

/// What a digit is worth: the ten digits, and then the capital letters.
pub open spec fn worth(c: char) -> nat {
    let n = c as int;
    if 48 <= n <= 57 {
        (n - 48) as nat
    } else {
        (n - 55) as nat
    }
}

/// A number is spelled with the ten digits, without one too many in front, and spells itself.
pub proof fn decimal_spells_the_number(n: nat)
    ensures
        spelled_number(text::digits(n), 10) == n,
        text::digits(n).len() > 0,
        forall|i: int|
            0 <= i < text::digits(n).len() ==> 48 <= (#[trigger] text::digits(n)[i]) as int <= 57,
        n > 0 ==> text::digits(n)[0] != '0',
    decreases n,
{
    let s = text::digits(n);
    if n < 10 {
        assert(s.drop_last() =~= Seq::empty());
        assert(spelled_number(s.drop_last(), 10) == 0);
        assert(s.last() as int == 48 + n);
    } else {
        decimal_spells_the_number(n / 10);
        assert(s.drop_last() =~= text::digits(n / 10));
        assert(s.last() as int == 48 + n % 10);
        assert forall|i: int| 0 <= i < s.len() implies 48 <= (#[trigger] s[i]) as int <= 57 by {
            if i < s.len() - 1 {
                assert(s[i] == text::digits(n / 10)[i]);
            }
        }
        assert(s[0] == text::digits(n / 10)[0]);
    }
}

/// A negative number has a hyphen in front, and then its amount.
pub proof fn signs_of_numbers(n: int)
    ensures
        n >= 0 ==> text::signed_digits(n) == text::digits(n as nat),
        n < 0 ==> text::signed_digits(n).len() > 1 && text::signed_digits(n)[0] == '-'
            && text::signed_digits(n).drop_first() == text::digits((-n) as nat),
{
    reveal_strlit("-");
    if n < 0 {
        decimal_spells_the_number((-n) as nat);
        assert(text::signed_digits(n).drop_first() =~= text::digits((-n) as nat));
    }
}

/// A number in hexadecimal spells itself, has at least the width, and has no more than it needs
/// where that is wider.
pub proof fn hexadecimal_spells_the_number(n: nat, width: nat)
    ensures
        spelled_number(text::hex_digits(n, width), 16) == n,
        text::hex_digits(n, width).len() >= width,
        text::hex_digits(n, width).len() > 0,
        text::hex_digits(n, width).len() > width && text::hex_digits(n, width).len() > 1
            ==> text::hex_digits(n, width)[0] != '0',
        n > 0 && width <= 1 ==> text::hex_digits(n, width)[0] != '0',
        forall|i: int|
            0 <= i < text::hex_digits(n, width).len() ==> {
                let c = (#[trigger] text::hex_digits(n, width)[i]) as int;
                48 <= c <= 57 || 65 <= c <= 70
            },
    decreases n + width,
{
    let s = text::hex_digits(n, width);
    let d = n % 16;
    assert(text::hex_char(d) as int == if d < 10 {
        48 + d
    } else {
        55 + d
    });
    if n < 16 && width <= 1 {
        assert(s.drop_last() =~= Seq::empty());
        assert(spelled_number(s.drop_last(), 16) == 0);
    } else {
        let w: nat = if width == 0 {
            0
        } else {
            (width - 1) as nat
        };
        hexadecimal_spells_the_number(n / 16, w);
        let front = text::hex_digits(n / 16, w);
        assert(s.drop_last() =~= front);
        assert(s[0] == front[0]);
        assert forall|i: int| 0 <= i < s.len() implies ({
            let c = (#[trigger] s[i]) as int;
            48 <= c <= 57 || 65 <= c <= 70
        }) by {
            if i < s.len() - 1 {
                assert(s[i] == front[i]);
            }
        }
    }
}

} // verus!
