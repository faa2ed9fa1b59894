//! Text in documents: UTF-8, and the characters that could repaint a screen.

use crate::error::FormatError;
use vstd::prelude::*;
use vstd::string::*;
use vstd::utf8::*;

pub mod laws;

verus! {

/// `core::str::from_utf8`: the text whose UTF-8 encoding the bytes are, or
/// `None` where they are no UTF-8.
#[verifier::external_body]
pub(crate) fn utf8(bytes: &[u8]) -> (r: Option<&str>)
    ensures
        match r {
            Some(s) => valid_utf8(bytes@) && s@ == decode_utf8(bytes@),
            None => !valid_utf8(bytes@),
        },
{
    core::str::from_utf8(bytes).ok()
}

/// What several texts say.
pub open spec fn texts(ss: Seq<String>) -> Seq<Seq<char>> {
    ss.map_values(|s: String| s@)
}

/// The text that the bytes hold, where they are UTF-8.
pub fn text_of(bytes: &[u8]) -> (r: Option<String>)
    ensures
        match r {
            Some(s) => valid_utf8(bytes@) && s@ == decode_utf8(bytes@),
            None => !valid_utf8(bytes@),
        },
{
    match utf8(bytes) {
        Some(s) => Some(s.to_owned()),
        None => None,
    }
}

/// The text that the bytes hold, which are known to be UTF-8.
pub fn utf8_text(bytes: &[u8]) -> (r: String)
    requires
        valid_utf8(bytes@),
    ensures
        r@ == decode_utf8(bytes@),
{
    match utf8(bytes) {
        Some(s) => s.to_owned(),
        None => String::new(),
    }
}

/// A character takes at most four bytes.
pub proof fn utf8_len(s: Seq<char>)
    ensures
        encode_utf8(s).len() <= 4 * s.len(),
    decreases s.len(),
{
    if s.len() > 0 {
        utf8_len(s.drop_first());
    }
}

/// A character that may not be shown next to other text: a control, a mark that
/// turns the direction of writing, a separator of lines, or one without a shape.
pub open spec fn display_unsafe(c: char) -> bool {
    ||| c <= '\u{1f}'
    ||| '\u{7f}' <= c <= '\u{9f}'
    ||| c == '\u{ad}'
    ||| c == '\u{61c}'
    ||| '\u{200b}' <= c <= '\u{200f}'
    ||| '\u{2028}' <= c <= '\u{202e}'
    ||| '\u{2060}' <= c <= '\u{206f}'
    ||| c == '\u{feff}'
    ||| '\u{e0000}' <= c <= '\u{e007f}'
}

/// Whether the character may not be shown next to other text.
pub fn is_display_unsafe(c: char) -> (r: bool)
    ensures
        r == display_unsafe(c),
{
    c <= '\u{1f}' || ('\u{7f}' <= c && c <= '\u{9f}') || c == '\u{ad}' || c == '\u{61c}' || (
    '\u{200b}' <= c && c <= '\u{200f}') || ('\u{2028}' <= c && c <= '\u{202e}') || ('\u{2060}' <= c
        && c <= '\u{206f}') || c == '\u{feff}' || ('\u{e0000}' <= c && c <= '\u{e007f}')
}

/// The first character of a text that may not be shown.
pub open spec fn first_unsafe(s: Seq<char>) -> Option<char>
    decreases s.len(),
{
    if s.len() == 0 {
        None
    } else if display_unsafe(s[0]) {
        Some(s[0])
    } else {
        first_unsafe(s.drop_first())
    }
}

/// The first character of a text that may not be shown.
pub fn find_unsafe(s: &str) -> (r: Option<char>)
    ensures
        r == first_unsafe(s@),
{
    let n: usize = s.unicode_len();
    let mut i: usize = 0;
    assert(s@.skip(0) =~= s@);
    while i < n
        invariant
            i <= n,
            n == s@.len(),
            first_unsafe(s@) == first_unsafe(s@.skip(i as int)),
        decreases n - i,
    {
        let c = s.get_char(i);
        assert(s@.skip(i as int).drop_first() =~= s@.skip(i as int + 1));
        if is_display_unsafe(c) {
            return Some(c);
        }
        i = i + 1;
    }
    None
}

/// White space in the sense of Unicode.
pub open spec fn white_space(c: char) -> bool {
    ||| '\u{9}' <= c <= '\u{d}'
    ||| c == '\u{20}'
    ||| c == '\u{85}'
    ||| c == '\u{a0}'
    ||| c == '\u{1680}'
    ||| '\u{2000}' <= c <= '\u{200a}'
    ||| '\u{2028}' <= c <= '\u{2029}'
    ||| c == '\u{202f}'
    ||| c == '\u{205f}'
    ||| c == '\u{3000}'
}

/// A text of white space only says nothing.
pub open spec fn blank(s: Seq<char>) -> bool {
    forall|i: int| 0 <= i < s.len() ==> white_space(#[trigger] s[i])
}

/// Whether the character is white space.
fn is_white_space(c: char) -> (r: bool)
    ensures
        r == white_space(c),
{
    ('\u{9}' <= c && c <= '\u{d}') || c == '\u{20}' || c == '\u{85}' || c == '\u{a0}' || c
        == '\u{1680}' || ('\u{2000}' <= c && c <= '\u{200a}') || ('\u{2028}' <= c && c
        <= '\u{2029}') || c == '\u{202f}' || c == '\u{205f}' || c == '\u{3000}'
}

/// Whether the text says nothing.
pub fn is_blank(s: &str) -> (r: bool)
    ensures
        r == blank(s@),
{
    let n: usize = s.unicode_len();
    let mut i: usize = 0;
    while i < n
        invariant
            i <= n,
            n == s@.len(),
            forall|j: int| 0 <= j < i ==> white_space(#[trigger] s@[j]),
        decreases n - i,
    {
        if !is_white_space(s.get_char(i)) {
            return false;
        }
        i = i + 1;
    }
    true
}

/// The verdict on a text for people: it says something, has at most so many
/// characters, and none of them could repaint the screen.
pub open spec fn phrase_fault(tag: u16, s: Seq<char>, max_chars: nat) -> Option<FormatError> {
    if blank(s) || s.len() > max_chars {
        Some(FormatError::BadFieldLength { tag, len: encode_utf8(s).len() as usize })
    } else {
        unsafe_fault(tag, s)
    }
}

/// The verdict on the characters of a text: none could repaint the screen.
pub open spec fn unsafe_fault(tag: u16, s: Seq<char>) -> Option<FormatError> {
    match first_unsafe(s) {
        Some(c) => Some(FormatError::BadNoteChar { tag, code: c as u32 }),
        None => None,
    }
}

/// The verdict on the characters of a text.
pub fn check_unsafe(tag: u16, s: &str) -> (r: Option<FormatError>)
    ensures
        r == unsafe_fault(tag, s@),
{
    match find_unsafe(s) {
        Some(c) => Some(FormatError::BadNoteChar { tag, code: c as u32 }),
        None => None,
    }
}

/// The verdict on a text for people.
pub fn check_phrase(tag: u16, s: &str, max_chars: usize) -> (r: Option<FormatError>)
    ensures
        r == phrase_fault(tag, s@, max_chars as nat),
{
    if is_blank(s) || s.unicode_len() > max_chars {
        return Some(FormatError::BadFieldLength { tag, len: byte_len(s) });
    }
    check_unsafe(tag, s)
}

/// The longest name of an organisation, in bytes.
pub const MAX_TENANT: usize = 64;

/// A byte of the name of an organisation: `[a-z0-9._-]`.
pub open spec fn tenant_byte(b: u8) -> bool {
    ||| 0x61 <= b <= 0x7a
    ||| 0x30 <= b <= 0x39
    ||| b == 0x2e
    ||| b == 0x2d
    ||| b == 0x5f
}

/// The verdict on the name of an organisation: 1 to 64 bytes of its alphabet.
pub open spec fn tenant_fault(tag: u16, s: Seq<char>) -> Option<FormatError> {
    let b = encode_utf8(s);
    if 0 < b.len() <= MAX_TENANT && (forall|i: int|
        0 <= i < b.len() ==> tenant_byte(#[trigger] b[i])) {
        None
    } else {
        Some(FormatError::BadFieldLength { tag, len: b.len() as usize })
    }
}

/// The verdict on the name of an organisation.
pub fn check_tenant(tag: u16, s: &str) -> (r: Option<FormatError>)
    ensures
        r == tenant_fault(tag, s@),
{
    let b = s.as_bytes();
    let bad = Some(FormatError::BadFieldLength { tag, len: b.len() });
    if b.len() == 0 || b.len() > MAX_TENANT {
        return bad;
    }
    let mut i: usize = 0;
    while i < b.len()
        invariant
            i <= b@.len(),
            b@ == encode_utf8(s@),
            bad == Some(FormatError::BadFieldLength { tag, len: b@.len() as usize }),
            forall|j: int| 0 <= j < i ==> tenant_byte(#[trigger] b@[j]),
        decreases b@.len() - i,
    {
        let c: u8 = b[i];
        if !((0x61 <= c && c <= 0x7a) || (0x30 <= c && c <= 0x39) || c == 0x2e || c == 0x2d || c
            == 0x5f) {
            assert(!tenant_byte(b@[i as int]));
            return bad;
        }
        i = i + 1;
    }
    None
}

/// The character of a digit.
pub open spec fn digit_char(d: nat) -> char {
    ((0x30 + d) as u32) as char
}

/// A number in decimal digits.
pub open spec fn digits(n: nat) -> Seq<char>
    decreases n,
{
    if n < 10 {
        seq![digit_char(n)]
    } else {
        digits(n / 10).push(digit_char(n % 10))
    }
}

/// A digit as text.
fn digit_text(d: u64) -> (r: &'static str)
    requires
        d < 10,
    ensures
        r@ == seq![digit_char(d as nat)],
{
    proof {
        reveal_strlit("0");
        reveal_strlit("1");
        reveal_strlit("2");
        reveal_strlit("3");
        reveal_strlit("4");
        reveal_strlit("5");
        reveal_strlit("6");
        reveal_strlit("7");
        reveal_strlit("8");
        reveal_strlit("9");
    }
    let r = match d {
        0 => "0",
        1 => "1",
        2 => "2",
        3 => "3",
        4 => "4",
        5 => "5",
        6 => "6",
        7 => "7",
        8 => "8",
        _ => "9",
    };
    assert(r@ =~= seq![digit_char(d as nat)]);
    r
}

/// A number in decimal digits.
pub fn decimal(n: u64) -> (r: String)
    ensures
        r@ == digits(n as nat),
    decreases n,
{
    if n < 10 {
        digit_text(n).to_owned()
    } else {
        let r = decimal(n / 10).concat(digit_text(n % 10));
        assert(r@ =~= digits(n as nat));
        r
    }
}

/// A signed number in decimal digits.
pub open spec fn signed_digits(n: int) -> Seq<char> {
    if n < 0 {
        "-"@ + digits((-n) as nat)
    } else {
        digits(n as nat)
    }
}

/// A signed number in decimal digits.
pub fn signed_decimal(n: i64) -> (r: String)
    ensures
        r@ == signed_digits(n as int),
{
    if n < 0 {
        let size: u64 = (-(n + 1)) as u64 + 1;
        "-".to_owned().concat(decimal(size).as_str())
    } else {
        decimal(n as u64)
    }
}

/// The character of a hexadecimal digit.
pub open spec fn hex_char(d: nat) -> char {
    if d < 10 {
        digit_char(d)
    } else {
        ((0x37 + d) as u32) as char
    }
}

/// A number in at least so many hexadecimal digits.
pub open spec fn hex_digits(n: nat, width: nat) -> Seq<char>
    decreases n + width,
{
    if n < 16 && width <= 1 {
        seq![hex_char(n)]
    } else {
        hex_digits(
            n / 16,
            if width == 0 {
                0
            } else {
                (width - 1) as nat
            },
        ).push(hex_char(n % 16))
    }
}

/// A hexadecimal digit as text.
fn hex_text(d: u32) -> (r: &'static str)
    requires
        d < 16,
    ensures
        r@ == seq![hex_char(d as nat)],
{
    if d < 10 {
        return digit_text(d as u64);
    }
    proof {
        reveal_strlit("A");
        reveal_strlit("B");
        reveal_strlit("C");
        reveal_strlit("D");
        reveal_strlit("E");
        reveal_strlit("F");
    }
    let r = match d {
        10 => "A",
        11 => "B",
        12 => "C",
        13 => "D",
        14 => "E",
        _ => "F",
    };
    assert(r@ =~= seq![hex_char(d as nat)]);
    r
}

/// A number in at least so many hexadecimal digits.
pub fn hexadecimal(n: u32, width: u32) -> (r: String)
    ensures
        r@ == hex_digits(n as nat, width as nat),
    decreases n + width,
{
    if n < 16 && width <= 1 {
        hex_text(n).to_owned()
    } else {
        let less: u32 = if width == 0 {
            0
        } else {
            width - 1
        };
        let r = hexadecimal(n / 16, less).concat(hex_text(n % 16));
        assert(r@ =~= hex_digits(n as nat, width as nat));
        r
    }
}

/// Whether two texts are the same.
pub fn same_text(a: &str, b: &str) -> (r: bool)
    ensures
        r == (a@ == b@),
{
    proof {
        encode_utf8_decode_utf8(a@);
        encode_utf8_decode_utf8(b@);
    }
    crate::bytes::same(a.as_bytes(), b.as_bytes())
}

/// The length of a text in bytes.
pub fn byte_len(s: &str) -> (r: usize)
    ensures
        r == encode_utf8(s@).len(),
{
    s.as_bytes().len()
}

/// The longest note, in bytes: a phrase, not a letter.
pub const MAX_NOTE: usize = 256;

/// The verdict on a note: it is short, and none of its characters could repaint
/// the screen. The tag is that of the field which holds the note.
pub open spec fn note_fault(tag: u16, note: Seq<char>) -> Option<FormatError> {
    if encode_utf8(note).len() > MAX_NOTE {
        Some(FormatError::BadFieldLength { tag, len: encode_utf8(note).len() as usize })
    } else {
        unsafe_fault(tag, note)
    }
}

/// The verdict on bytes that should hold a note.
pub open spec fn note_bytes_fault(tag: u16, bytes: Seq<u8>) -> Option<FormatError> {
    if valid_utf8(bytes) {
        note_fault(tag, decode_utf8(bytes))
    } else {
        Some(FormatError::NotUtf8 { tag })
    }
}

/// The verdict on a note.
pub fn note_verdict(tag: u16, note: &str) -> (r: Option<FormatError>)
    ensures
        r == note_fault(tag, note@),
{
    let len: usize = byte_len(note);
    if len > MAX_NOTE {
        return Some(FormatError::BadFieldLength { tag, len });
    }
    check_unsafe(tag, note)
}

/// The verdict on bytes that should hold a note.
pub fn note_bytes_verdict(tag: u16, bytes: &[u8]) -> (r: Option<FormatError>)
    ensures
        r == note_bytes_fault(tag, bytes@),
{
    match utf8(bytes) {
        Some(note) => note_verdict(tag, note),
        None => Some(FormatError::NotUtf8 { tag }),
    }
}

} // verus!
