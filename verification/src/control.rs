//! Documents of control: what a server is, what its controllers order, what became
//! of an order, and how authority passes on.
//!
//! * [`Binding`]: organisation, identity, epoch and revision of a server, its keys,
//!   addresses, and the roster of its controllers. It is signed with the key for
//!   leases, and it creates no trust by itself: the verifier knows the key beforehand.
//! * [`ControlRequest`]: an order of the controllers. Several signatures may stand
//!   over one body.
//! * [`Receipt`]: what the server did with an order.
//! * [`Transfer`]: the controllers of one epoch name the next.
//!
//! Signatures and digests are computed by the caller; the functions here are told
//! which hold.

use crate::bytes::{
    self, all_zero, append, array, is_before, join_arrays, one, owned, part, read16, read64,
    read64s, same, split_arrays, write16, write64, write64s,
};
use crate::error::{bad, FormatError};
use crate::text::{
    self, byte_len, check_tenant, check_unsafe, decimal, same_text, signed_decimal, text_of, utf8,
    utf8_text,
};
use crate::tlv::{
    self, check_length, find, need, read_fields, refuse, Field, Rec, Schema, TlvWriter,
};
use crate::transcript::{self, Claim, ClaimView, Label, Transcript, TranscriptView};
use crate::unknown::{self, strip, unknown_verdict};
use vstd::prelude::*;
use vstd::string::*;
use vstd::utf8::*;

pub mod binding_tag;
pub mod laws;
pub mod receipt_tag;
pub mod request_tag;
pub mod transfer_tag;

verus! {

/// The version of all these documents.
pub const VERSION: u8 = 1;

/// The most addresses in a binding.
pub const MAX_URLS: usize = 8;

/// The longest address, in bytes.
pub const MAX_URL_LEN: usize = 256;

/// The most fingerprints of certificates in a binding.
pub const MAX_PINS: usize = 8;

/// The most controllers in a roster.
pub const MAX_ROSTER: usize = 16;

/// The most signatures over one body.
pub const MAX_SIGNERS: usize = 16;

/// The longest life of an order, in seconds: a day.
pub const MAX_REQUEST_LIFETIME: i64 = 86_400;

/// The longest reason, in characters.
pub const MAX_REASON_CHARS: usize = 512;

/// The longest document.
pub const MAX_DOCUMENT_LEN: usize = 64 * 1024;

/// The length of a signature.
pub const SIG: usize = 64;

/// The length of a key.
pub const KEY: usize = 32;

/// When a change counts as done.
#[derive(Debug, Clone, Copy, PartialEq, Eq, PartialOrd, Ord, Structural)]
pub enum Durability {
    /// When the server has written it.
    Local,
    /// As before, and a copy goes to a replica behind it.
    Mirrored,
    /// When a replica has confirmed that it has written it.
    Witnessed,
}

impl Durability {
    /// The number in documents.
    pub open spec fn number(self) -> u8 {
        match self {
            Durability::Local => 0,
            Durability::Mirrored => 1,
            Durability::Witnessed => 2,
        }
    }

    /// What a number means; most mean nothing.
    pub open spec fn numbered(v: u8) -> Option<Durability> {
        if v == 0 {
            Some(Durability::Local)
        } else if v == 1 {
            Some(Durability::Mirrored)
        } else if v == 2 {
            Some(Durability::Witnessed)
        } else {
            None
        }
    }

    /// The number in documents.
    pub fn as_u8(self) -> (r: u8)
        ensures
            r == self.number(),
    {
        match self {
            Durability::Local => 0,
            Durability::Mirrored => 1,
            Durability::Witnessed => 2,
        }
    }

    /// What a number means; an unknown one means nothing.
    pub fn from_u8(v: u8) -> (r: Option<Durability>)
        ensures
            r == Durability::numbered(v),
    {
        match v {
            0 => Some(Durability::Local),
            1 => Some(Durability::Mirrored),
            2 => Some(Durability::Witnessed),
            _ => None,
        }
    }

    /// The verdict on a value that should hold such a number.
    pub open spec fn fault(tag: u16, value: Seq<u8>) -> Option<FormatError> {
        if value.len() == 1 && Durability::numbered(value[0]) is Some {
            None
        } else {
            Some(FormatError::BadFieldLength { tag, len: value.len() as usize })
        }
    }

    /// The verdict on a value that should hold such a number.
    fn check(tag: u16, value: &[u8]) -> (r: Option<FormatError>)
        ensures
            r == Durability::fault(tag, value@),
    {
        if value.len() == 1 && Durability::from_u8(value[0]).is_some() {
            None
        } else {
            Some(bad(tag, value.len()))
        }
    }

    /// Read a value that holds such a number.
    fn read(value: &[u8]) -> (r: Durability)
        requires
            Durability::fault(0, value@) is None,
        ensures
            Some(r) == Durability::numbered(value@[0]),
    {
        match Durability::from_u8(value[0]) {
            Some(v) => v,
            None => Durability::Local,
        }
    }
}

/// How a server could be recovered.
#[derive(Debug, Clone, Copy, PartialEq, Eq, Structural)]
pub enum Recovery {
    /// Nothing is promised.
    Undeclared,
    /// There is a package to recover from.
    Package,
    /// A loss of the keys is the end.
    NotRecoverable,
}

impl Recovery {
    /// The number in documents.
    pub open spec fn number(self) -> u8 {
        match self {
            Recovery::Undeclared => 0,
            Recovery::Package => 1,
            Recovery::NotRecoverable => 2,
        }
    }

    /// What a number means; most mean nothing.
    pub open spec fn numbered(v: u8) -> Option<Recovery> {
        if v == 0 {
            Some(Recovery::Undeclared)
        } else if v == 1 {
            Some(Recovery::Package)
        } else if v == 2 {
            Some(Recovery::NotRecoverable)
        } else {
            None
        }
    }

    /// The number in documents.
    pub fn as_u8(self) -> (r: u8)
        ensures
            r == self.number(),
    {
        match self {
            Recovery::Undeclared => 0,
            Recovery::Package => 1,
            Recovery::NotRecoverable => 2,
        }
    }

    /// What a number means; an unknown one means nothing.
    pub fn from_u8(v: u8) -> (r: Option<Recovery>)
        ensures
            r == Recovery::numbered(v),
    {
        match v {
            0 => Some(Recovery::Undeclared),
            1 => Some(Recovery::Package),
            2 => Some(Recovery::NotRecoverable),
            _ => None,
        }
    }

    /// The verdict on a value that should hold such a number.
    pub open spec fn fault(tag: u16, value: Seq<u8>) -> Option<FormatError> {
        if value.len() == 1 && Recovery::numbered(value[0]) is Some {
            None
        } else {
            Some(FormatError::BadFieldLength { tag, len: value.len() as usize })
        }
    }

    /// The verdict on a value that should hold such a number.
    fn check(tag: u16, value: &[u8]) -> (r: Option<FormatError>)
        ensures
            r == Recovery::fault(tag, value@),
    {
        if value.len() == 1 && Recovery::from_u8(value[0]).is_some() {
            None
        } else {
            Some(bad(tag, value.len()))
        }
    }

    /// Read a value that holds such a number.
    fn read(value: &[u8]) -> (r: Recovery)
        requires
            Recovery::fault(0, value@) is None,
        ensures
            Some(r) == Recovery::numbered(value@[0]),
    {
        match Recovery::from_u8(value[0]) {
            Some(v) => v,
            None => Recovery::Undeclared,
        }
    }
}

/// Whether a server serves.
#[derive(Debug, Clone, Copy, PartialEq, Eq, Structural)]
pub enum Status {
    /// It does.
    Serving,
    /// There are no new registrations and leases.
    Stopped,
    /// Only what was published stays readable.
    ArchiveOnly,
    /// A successor has the authority.
    Transferred,
}

impl Status {
    /// The number in documents.
    pub open spec fn number(self) -> u8 {
        match self {
            Status::Serving => 0,
            Status::Stopped => 1,
            Status::ArchiveOnly => 2,
            Status::Transferred => 3,
        }
    }

    /// What a number means; most mean nothing.
    pub open spec fn numbered(v: u8) -> Option<Status> {
        if v == 0 {
            Some(Status::Serving)
        } else if v == 1 {
            Some(Status::Stopped)
        } else if v == 2 {
            Some(Status::ArchiveOnly)
        } else if v == 3 {
            Some(Status::Transferred)
        } else {
            None
        }
    }

    /// The number in documents.
    pub fn as_u8(self) -> (r: u8)
        ensures
            r == self.number(),
    {
        match self {
            Status::Serving => 0,
            Status::Stopped => 1,
            Status::ArchiveOnly => 2,
            Status::Transferred => 3,
        }
    }

    /// What a number means; an unknown one means nothing.
    pub fn from_u8(v: u8) -> (r: Option<Status>)
        ensures
            r == Status::numbered(v),
    {
        match v {
            0 => Some(Status::Serving),
            1 => Some(Status::Stopped),
            2 => Some(Status::ArchiveOnly),
            3 => Some(Status::Transferred),
            _ => None,
        }
    }

    /// The verdict on a value that should hold such a number.
    pub open spec fn fault(tag: u16, value: Seq<u8>) -> Option<FormatError> {
        if value.len() == 1 && Status::numbered(value[0]) is Some {
            None
        } else {
            Some(FormatError::BadFieldLength { tag, len: value.len() as usize })
        }
    }

    /// The verdict on a value that should hold such a number.
    fn check(tag: u16, value: &[u8]) -> (r: Option<FormatError>)
        ensures
            r == Status::fault(tag, value@),
    {
        if value.len() == 1 && Status::from_u8(value[0]).is_some() {
            None
        } else {
            Some(bad(tag, value.len()))
        }
    }

    /// Read a value that holds such a number.
    fn read(value: &[u8]) -> (r: Status)
        requires
            Status::fault(0, value@) is None,
        ensures
            Some(r) == Status::numbered(value@[0]),
    {
        match Status::from_u8(value[0]) {
            Some(v) => v,
            None => Status::Serving,
        }
    }
}

/// A byte of an address: printable ASCII, and no space.
pub open spec fn graphic(b: u8) -> bool {
    0x21 <= b <= 0x7e
}

/// The verdict on an address: 1 to 256 bytes of its alphabet.
pub open spec fn url_fault(url: Seq<char>, tag: u16) -> Option<FormatError> {
    let b = encode_utf8(url);
    if 0 < b.len() <= MAX_URL_LEN
        && (forall|i: int| 0 <= i < b.len() ==> graphic(#[trigger] b[i])) {
        None
    } else {
        Some(FormatError::BadFieldLength { tag, len: b.len() as usize })
    }
}

/// The verdict on an address.
fn check_url(url: &str, tag: u16) -> (r: Option<FormatError>)
    ensures
        r == url_fault(url@, tag),
{
    let b = url.as_bytes();
    if b.len() == 0 || b.len() > MAX_URL_LEN {
        return Some(bad(tag, b.len()));
    }
    let mut i: usize = 0;
    while i < b.len()
        invariant
            i <= b@.len(),
            b@ == encode_utf8(url@),
            forall|j: int| 0 <= j < i ==> graphic(#[trigger] b@[j]),
        decreases b@.len() - i,
    {
        let c: u8 = b[i];
        if c < 0x21 || c > 0x7e {
            assert(!graphic(b@[i as int]));
            return Some(bad(tag, b.len()));
        }
        i = i + 1;
    }
    None
}

/// The verdict on a reason: it is not too long, and none of its characters could
/// repaint the screen.
pub open spec fn reason_fault(reason: Seq<char>, tag: u16) -> Option<FormatError> {
    if reason.len() > MAX_REASON_CHARS {
        Some(FormatError::BadFieldLength { tag, len: encode_utf8(reason).len() as usize })
    } else {
        text::unsafe_fault(tag, reason)
    }
}

/// The verdict on a reason.
fn check_reason(reason: &str, tag: u16) -> (r: Option<FormatError>)
    ensures
        r == reason_fault(reason@, tag),
{
    if reason.unicode_len() > MAX_REASON_CHARS {
        return Some(bad(tag, byte_len(reason)));
    }
    check_unsafe(tag, reason)
}

/// The first objection to several addresses.
pub open spec fn first_url_fault(urls: Seq<Seq<char>>, tag: u16) -> Option<FormatError>
    decreases urls.len(),
{
    if urls.len() == 0 {
        None
    } else {
        tlv::or_else(url_fault(urls[0], tag), first_url_fault(urls.drop_first(), tag))
    }
}

/// Addresses one behind the other, each behind its length.
pub open spec fn urls_wire(urls: Seq<Seq<char>>) -> Seq<u8>
    decreases urls.len(),
{
    if urls.len() == 0 {
        Seq::empty()
    } else {
        let b = encode_utf8(urls[0]);
        bytes::le16(b.len() as u16) + b + urls_wire(urls.drop_first())
    }
}

/// The bytes of a list of addresses.
pub open spec fn urls_bytes(urls: Seq<Seq<char>>, tag: u16) -> Result<Seq<u8>, FormatError> {
    if urls.len() == 0 || urls.len() > MAX_URLS {
        Err(FormatError::BadFieldLength { tag, len: urls.len() as usize })
    } else {
        match first_url_fault(urls, tag) {
            Some(e) => Err(e),
            None => Ok(urls_wire(urls)),
        }
    }
}

/// The addresses that the bytes hold behind those already read. None occurs twice.
pub open spec fn urls_behind(b: Seq<u8>, seen: Seq<Seq<char>>, tag: u16) -> Result<
    Seq<Seq<char>>,
    FormatError,
>
    decreases b.len(),
{
    if b.len() == 0 {
        if seen.len() == 0 {
            Err(FormatError::BadFieldLength { tag, len: 0 })
        } else {
            Ok(seen)
        }
    } else if seen.len() >= MAX_URLS || b.len() < 2 {
        Err(FormatError::BadFieldLength { tag, len: b.len() as usize })
    } else {
        let len = bytes::num16(b.subrange(0, 2));
        let tail = b.skip(2);
        if tail.len() < len {
            Err(FormatError::BadFieldLength { tag, len: tail.len() as usize })
        } else if !valid_utf8(tail.take(len as int)) {
            Err(FormatError::BadFieldLength { tag, len: len as usize })
        } else {
            let url = decode_utf8(tail.take(len as int));
            match url_fault(url, tag) {
                Some(e) => Err(e),
                None => if seen.contains(url) {
                    Err(FormatError::BadFieldLength { tag, len: len as usize })
                } else {
                    urls_behind(tail.skip(len as int), seen.push(url), tag)
                },
            }
        }
    }
}

/// The list of addresses that the bytes hold.
pub open spec fn urls_of(b: Seq<u8>, tag: u16) -> Result<Seq<Seq<char>>, FormatError> {
    urls_behind(b, Seq::empty(), tag)
}

/// The verdict on bytes that should hold a list of addresses.
pub open spec fn urls_fault(b: Seq<u8>, tag: u16) -> Option<FormatError> {
    match urls_of(b, tag) {
        Ok(_) => None,
        Err(e) => Some(e),
    }
}

proof fn urls_behind_wire(seen: Seq<Seq<char>>, urls: Seq<Seq<char>>, tag: u16)
    requires
        first_url_fault(urls, tag) is None,
        (seen + urls).no_duplicates(),
        0 < seen.len() + urls.len() <= MAX_URLS,
    ensures
        urls_behind(urls_wire(urls), seen, tag) == Ok::<Seq<Seq<char>>, FormatError>(seen + urls),
    decreases urls.len(),
{
    broadcast use bytes::group_numbers;

    if urls.len() == 0 {
        assert(seen + urls =~= seen);
    } else {
        let b = encode_utf8(urls[0]);
        let rest = urls.drop_first();
        let all = urls_wire(urls);
        let head = bytes::le16(b.len() as u16);
        encode_utf8_valid_utf8(urls[0]);
        encode_utf8_decode_utf8(urls[0]);
        assert(all.subrange(0, 2) =~= head);
        assert(all.skip(2) =~= b + urls_wire(rest));
        assert(all.skip(2).take(b.len() as int) =~= b);
        assert(all.skip(2).skip(b.len() as int) =~= urls_wire(rest));
        assert(seen.push(urls[0]) + rest =~= seen + urls);
        assert(!seen.contains(urls[0])) by {
            if seen.contains(urls[0]) {
                let i = choose|i: int| 0 <= i < seen.len() && seen[i] == urls[0];
                assert((seen + urls)[i] == (seen + urls)[seen.len() as int]);
            }
        }
        urls_behind_wire(seen.push(urls[0]), rest, tag);
    }
}

/// A list of addresses without a repetition survives being written and read back.
pub proof fn urls_round_trip(urls: Seq<Seq<char>>, tag: u16)
    requires
        urls_bytes(urls, tag) is Ok,
        urls.no_duplicates(),
    ensures
        urls_of(urls_bytes(urls, tag)->Ok_0, tag) == Ok::<Seq<Seq<char>>, FormatError>(urls),
{
    assert(Seq::<Seq<char>>::empty() + urls =~= urls);
    urls_behind_wire(Seq::empty(), urls, tag);
}

proof fn urls_wire_len(urls: Seq<Seq<char>>, tag: u16)
    requires
        first_url_fault(urls, tag) is None,
    ensures
        urls_wire(urls).len() <= 258 * urls.len(),
    decreases urls.len(),
{
    broadcast use bytes::group_numbers;

    if urls.len() > 0 {
        urls_wire_len(urls.drop_first(), tag);
    }
}

/// Write a list of addresses.
fn encode_urls(urls: &Vec<String>, tag: u16) -> (r: Result<Vec<u8>, FormatError>)
    ensures
        tlv::agrees(r, urls_bytes(text::texts(urls@), tag)),
{
    let ghost all = text::texts(urls@);
    if urls.len() == 0 || urls.len() > MAX_URLS {
        return Err(bad(tag, urls.len()));
    }
    let mut out: Vec<u8> = Vec::new();
    let mut i: usize = 0;
    proof {
        assert(all.skip(0) =~= all);
        assert(out@ + urls_wire(all) =~= urls_wire(all));
    }
    while i < urls.len()
        invariant
            i <= urls@.len(),
            0 < urls@.len() <= MAX_URLS,
            all == text::texts(urls@),
            first_url_fault(all, tag) == first_url_fault(all.skip(i as int), tag),
            urls_wire(all) == out@ + urls_wire(all.skip(i as int)),
        decreases urls@.len() - i,
    {
        let url = urls[i].as_str();
        proof {
            assert(all.skip(i as int)[0] == url@);
            assert(all.skip(i as int).drop_first() =~= all.skip(i as int + 1));
        }
        refuse(check_url(url, tag))?;
        let b = url.as_bytes();
        let ghost prior = out@;
        append(&mut out, write16(b.len() as u16).as_slice());
        append(&mut out, b);
        assert(out@ + urls_wire(all.skip(i as int + 1)) =~= prior + urls_wire(all.skip(i as int)));
        i = i + 1;
    }
    proof {
        assert(all.skip(i as int) =~= Seq::empty());
        assert(out@ + Seq::<u8>::empty() =~= out@);
    }
    Ok(out)
}

/// The list names the address.
fn names(urls: &Vec<String>, url: &str) -> (r: bool)
    ensures
        r == text::texts(urls@).contains(url@),
{
    let ghost all = text::texts(urls@);
    let mut i: usize = 0;
    while i < urls.len()
        invariant
            i <= urls@.len(),
            all == text::texts(urls@),
            forall|j: int| 0 <= j < i ==> #[trigger] all[j] != url@,
        decreases urls@.len() - i,
    {
        assert(all[i as int] == urls@[i as int]@);
        if same_text(urls[i].as_str(), url) {
            return true;
        }
        i = i + 1;
    }
    false
}

/// Read a list of addresses.
fn decode_urls(b: &[u8], tag: u16) -> (r: Result<Vec<String>, FormatError>)
    ensures
        match r {
            Ok(urls) => urls_of(b@, tag) == Ok::<Seq<Seq<char>>, FormatError>(text::texts(urls@)),
            Err(e) => urls_of(b@, tag) == Err::<Seq<Seq<char>>, FormatError>(e),
        },
{
    let mut urls: Vec<String> = Vec::new();
    let mut rest: &[u8] = b;
    assert(text::texts(urls@) =~= Seq::empty());
    while rest.len() > 0
        invariant
            urls_of(b@, tag) == urls_behind(rest@, text::texts(urls@), tag),
        decreases rest@.len(),
    {
        if urls.len() >= MAX_URLS || rest.len() < 2 {
            return Err(bad(tag, rest.len()));
        }
        let head = part(rest, 0, 2);
        let len: usize = read16(head) as usize;
        let tail = part(rest, 2, rest.len());
        assert(tail@ =~= rest@.skip(2));
        if tail.len() < len {
            return Err(bad(tag, tail.len()));
        }
        let piece = part(tail, 0, len);
        assert(piece@ =~= tail@.take(len as int));
        let url = match utf8(piece) {
            Some(url) => url,
            None => {
                return Err(bad(tag, len));
            },
        };
        refuse(check_url(url, tag))?;
        if names(&urls, url) {
            return Err(bad(tag, len));
        }
        let ghost prior = text::texts(urls@);
        urls.push(url.to_owned());
        assert(text::texts(urls@) =~= prior.push(url@));
        rest = part(tail, len, tail.len());
        assert(rest@ =~= tail@.skip(len as int));
    }
    if urls.len() == 0 {
        return Err(bad(tag, 0));
    }
    Ok(urls)
}

/// The verdict on bytes that should hold a list of addresses.
fn check_urls(b: &[u8], tag: u16) -> (r: Option<FormatError>)
    ensures
        r == urls_fault(b@, tag),
{
    match decode_urls(b, tag) {
        Ok(_) => None,
        Err(e) => Some(e),
    }
}

/// A key stands before the next one.
pub open spec fn step_up(keys: Seq<Seq<u8>>, i: int) -> bool {
    bytes::before(keys[i], keys[i + 1])
}

/// Keys strictly ascend: none occurs twice, and a set has one form.
pub open spec fn keys_ascend(keys: Seq<Seq<u8>>) -> bool {
    forall|i: int| 0 <= i < keys.len() - 1 ==> #[trigger] step_up(keys, i)
}

/// Of ascending keys, one that comes earlier stands before one that comes later.
pub proof fn earlier_key_is_before(keys: Seq<Seq<u8>>, i: int, j: int)
    requires
        keys_ascend(keys),
        0 <= i < j < keys.len(),
    ensures
        bytes::before(keys[i], keys[j]),
    decreases j - i,
{
    assert(step_up(keys, i));
    if i + 1 < j {
        earlier_key_is_before(keys, i + 1, j);
        bytes::before_is_transitive(keys[i], keys[i + 1], keys[j]);
    }
}

/// Ascending keys hold no key twice.
pub proof fn no_key_twice(keys: Seq<Seq<u8>>)
    requires
        keys_ascend(keys),
    ensures
        keys.no_duplicates(),
{
    assert forall|i: int, j: int| 0 <= i < keys.len() && 0 <= j < keys.len()
        && i != j implies keys[i]
        != keys[j] by {
        if i < j {
            earlier_key_is_before(keys, i, j);
        } else {
            earlier_key_is_before(keys, j, i);
        }
        bytes::before_is_irreflexive(keys[i]);
    }
}

/// The bytes of a set of keys.
pub open spec fn keys_bytes(
    keys: Seq<Seq<u8>>,
    max: nat,
    tag: u16,
) -> Result<Seq<u8>, FormatError> {
    if keys.len() > max || !keys_ascend(keys) {
        Err(FormatError::BadFieldLength { tag, len: keys.len() as usize })
    } else {
        Ok(bytes::joined(keys))
    }
}

/// The set of keys that the bytes hold.
pub open spec fn keys_of(b: Seq<u8>, max: nat, tag: u16) -> Result<Seq<Seq<u8>>, FormatError> {
    let keys = bytes::chunks(b, KEY as nat);
    if b.len() % (KEY as nat) != 0 || keys.len() > max || !keys_ascend(keys) {
        Err(FormatError::BadFieldLength { tag, len: b.len() as usize })
    } else {
        Ok(keys)
    }
}

/// The verdict on bytes that should hold a set of keys.
pub open spec fn keys_fault(b: Seq<u8>, max: nat, tag: u16) -> Option<FormatError> {
    match keys_of(b, max, tag) {
        Ok(_) => None,
        Err(e) => Some(e),
    }
}

/// A set of keys survives being written and read back.
pub proof fn keys_round_trip(keys: Seq<Seq<u8>>, max: nat, tag: u16)
    requires
        bytes::all_sized(keys, KEY as nat),
        keys_bytes(keys, max, tag) is Ok,
    ensures
        keys_of(keys_bytes(keys, max, tag)->Ok_0, max, tag)
            == Ok::<Seq<Seq<u8>>, FormatError>(keys),
{
    bytes::chunks_of_joined(keys, KEY as nat);
}

/// The keys strictly ascend.
fn do_keys_ascend(keys: &Vec<[u8; KEY]>) -> (r: bool)
    ensures
        r == keys_ascend(bytes::arrays(keys@)),
{
    let ghost all = bytes::arrays(keys@);
    let n: usize = keys.len();
    if n == 0 {
        return true;
    }
    let mut i: usize = 0;
    while i < n - 1
        invariant
            i < n,
            n == keys@.len(),
            all == bytes::arrays(keys@),
            forall|j: int| 0 <= j < i ==> #[trigger] step_up(all, j),
        decreases n - i,
    {
        assert(all[i as int] == keys@[i as int]@);
        assert(all[i + 1] == keys@[i + 1]@);
        if !is_before(keys[i].as_slice(), keys[i + 1].as_slice()) {
            assert(!step_up(all, i as int));
            return false;
        }
        i = i + 1;
    }
    true
}

/// Write a set of keys.
fn encode_keys(keys: &Vec<[u8; KEY]>, max: usize, tag: u16) -> (r: Result<Vec<u8>, FormatError>)
    ensures
        tlv::agrees(r, keys_bytes(bytes::arrays(keys@), max as nat, tag)),
{
    if keys.len() > max || !do_keys_ascend(keys) {
        return Err(bad(tag, keys.len()));
    }
    Ok(join_arrays(keys))
}

/// Read a set of keys.
fn decode_keys(b: &[u8], max: usize, tag: u16) -> (r: Result<Vec<[u8; KEY]>, FormatError>)
    ensures
        match r {
            Ok(keys) => keys_of(b@, max as nat, tag) == Ok::<Seq<Seq<u8>>, FormatError>(
                bytes::arrays(keys@),
            ),
            Err(e) => keys_of(b@, max as nat, tag) == Err::<Seq<Seq<u8>>, FormatError>(e),
        },
{
    if b.len() % KEY != 0 {
        return Err(bad(tag, b.len()));
    }
    let keys: Vec<[u8; KEY]> = split_arrays(b);
    assert(bytes::arrays(keys@).len() == keys@.len());
    if keys.len() > max || !do_keys_ascend(&keys) {
        return Err(bad(tag, b.len()));
    }
    Ok(keys)
}

/// The verdict on bytes that should hold a set of keys.
fn check_keys(b: &[u8], max: usize, tag: u16) -> (r: Option<FormatError>)
    ensures
        r == keys_fault(b@, max as nat, tag),
{
    match decode_keys(b, max, tag) {
        Ok(_) => None,
        Err(e) => Some(e),
    }
}

/// The verdict on bytes that should hold a text.
pub open spec fn text_fault(tag: u16, value: Seq<u8>) -> Option<FormatError> {
    if valid_utf8(value) {
        None
    } else {
        Some(FormatError::BadFieldLength { tag, len: value.len() as usize })
    }
}

/// The verdict on bytes that should hold a text.
fn check_text(tag: u16, value: &[u8]) -> (r: Option<FormatError>)
    ensures
        r == text_fault(tag, value@),
{
    match utf8(value) {
        Some(_) => None,
        None => Some(bad(tag, value.len())),
    }
}

/// The bytes of a signed document are not too many, and hold a signature.
pub open spec fn signed_fault(b: Seq<u8>) -> Option<FormatError> {
    if b.len() > MAX_DOCUMENT_LEN || b.len() < SIG {
        Some(FormatError::BadFieldLength { tag: 0, len: b.len() as usize })
    } else {
        None
    }
}

/// The signature and the body of a signed document.
pub fn split_signed(b: &[u8]) -> (r: Result<([u8; SIG], &[u8]), FormatError>)
    ensures
        match r {
            Ok((signature, body)) => {
                &&& signed_fault(b@) is None
                &&& signature@ == b@.take(SIG as int)
                &&& body@ == b@.skip(SIG as int)
            },
            Err(e) => signed_fault(b@) == Some(e),
        },
{
    if b.len() > MAX_DOCUMENT_LEN || b.len() < SIG {
        return Err(bad(0, b.len()));
    }
    let signature = part(b, 0, SIG);
    let body = part(b, SIG, b.len());
    assert(signature@ =~= b@.take(SIG as int));
    assert(body@ =~= b@.skip(SIG as int));
    Ok((array(signature), body))
}

/// What is signed of a document that can be written.
pub open spec fn transcribed(label: Label, body: Result<Seq<u8>, FormatError>) -> Result<
    TranscriptView,
    FormatError,
> {
    match body {
        Err(e) => Err(e),
        Ok(body) => Ok(TranscriptView { label, body }),
    }
}

/// The signature that is to be checked before a signed document is read.
pub open spec fn signed_claim(label: Label, b: Seq<u8>, key: Seq<u8>) -> Result<
    ClaimView,
    FormatError,
> {
    match signed_fault(b) {
        Some(e) => Err(e),
        None => transcript::claimed(label, b, key),
    }
}

/// The signature that is to be checked before a signed document is read.
fn claim_of(label: Label, bytes: &[u8], key: &[u8; KEY]) -> (r: Result<Claim, FormatError>)
    ensures
        tlv::agrees(r, signed_claim(label, bytes@, key@)),
{
    let _ = split_signed(bytes)?;
    transcript::claim(label, bytes, key)
}

/// A signature before the body that it covers.
fn join_signed(signature: &[u8; SIG], body: &[u8]) -> (r: Vec<u8>)
    ensures
        r@ == signature@ + body@,
{
    let mut out = owned(signature.as_slice());
    append(&mut out, body);
    out
}

/// Whether the record holds the one byte.
fn has_byte<'a>(fs: &Vec<Field<'a>>, tag: u16, byte: u8) -> (r: bool)
    requires
        tlv::lookup(tlv::records(fs@), tag) is Some
            ==> tlv::lookup(tlv::records(fs@), tag)->0.len() == 1,
    ensures
        r == (tlv::lookup(tlv::records(fs@), tag) == Some(seq![byte])),
{
    match find(fs, tag) {
        Some(v) => {
            assert(seq![byte][0] == byte);
            assert(v@[0] == byte ==> v@ =~= seq![byte]);
            v[0] == byte
        },
        None => false,
    }
}

/// What a server is.
#[derive(Debug, Clone, PartialEq, Eq)]
pub struct Binding {
    pub tenant: String,
    /// The identity of the server: it stays when keys change.
    pub authority_id: [u8; 16],
    /// Grows only where authority passes on.
    pub epoch: u64,
    /// Grows with every operation of control within an epoch.
    pub revision: u64,
    pub lease_public: [u8; 32],
    pub sealing_public: [u8; 32],
    pub urls: Vec<String>,
    /// Fingerprints of the certificates that a client believes.
    pub pins: Vec<[u8; 32]>,
    pub durability: Durability,
    pub recovery: Recovery,
    pub status: Status,
    /// The keys of the controllers, ascending. Without any there is no control from afar.
    pub roster: Vec<[u8; KEY]>,
    /// How many signatures of the roster an order needs.
    pub threshold: u8,
    /// The operation that made this revision; zeros for the first.
    pub operation_id: [u8; 16],
    /// The digest of the revision before; zeros for the first.
    pub previous: [u8; 32],
    pub issued_at: i64,
    /// Behind this moment the binding has to be read anew.
    pub expires_at: i64,
}

/// What a binding says.
pub struct BindingView {
    pub tenant: Seq<char>,
    pub authority_id: Seq<u8>,
    pub epoch: u64,
    pub revision: u64,
    pub lease_public: Seq<u8>,
    pub sealing_public: Seq<u8>,
    pub urls: Seq<Seq<char>>,
    pub pins: Seq<Seq<u8>>,
    pub durability: Durability,
    pub recovery: Recovery,
    pub status: Status,
    pub roster: Seq<Seq<u8>>,
    pub threshold: u8,
    pub operation_id: Seq<u8>,
    pub previous: Seq<u8>,
    pub issued_at: i64,
    pub expires_at: i64,
}

impl View for Binding {
    type V = BindingView;

    open spec fn view(&self) -> BindingView {
        BindingView {
            tenant: self.tenant@,
            authority_id: self.authority_id@,
            epoch: self.epoch,
            revision: self.revision,
            lease_public: self.lease_public@,
            sealing_public: self.sealing_public@,
            urls: text::texts(self.urls@),
            pins: bytes::arrays(self.pins@),
            durability: self.durability,
            recovery: self.recovery,
            status: self.status,
            roster: bytes::arrays(self.roster@),
            threshold: self.threshold,
            operation_id: self.operation_id@,
            previous: self.previous@,
            issued_at: self.issued_at,
            expires_at: self.expires_at,
        }
    }
}

/// Every byte is zero.
pub open spec fn zeros(b: Seq<u8>) -> bool {
    forall|i: int| 0 <= i < b.len() ==> b[i] == 0
}

impl BindingView {
    /// The fields of fixed length have it.
    pub open spec fn sized(self) -> bool {
        &&& self.authority_id.len() == 16
        &&& self.lease_public.len() == KEY
        &&& self.sealing_public.len() == 32
        &&& bytes::all_sized(self.pins, 32)
        &&& bytes::all_sized(self.roster, KEY as nat)
        &&& self.operation_id.len() == 16
        &&& self.previous.len() == 32
    }

    /// The threshold suits the roster.
    pub open spec fn quorum_is_possible(self) -> bool {
        if self.roster.len() == 0 {
            self.threshold == 0
        } else {
            1 <= self.threshold <= self.roster.len()
        }
    }

    /// The first objection to the binding.
    pub open spec fn fault(self) -> Option<FormatError> {
        if text::tenant_fault(binding_tag::TENANT, self.tenant) is Some {
            text::tenant_fault(binding_tag::TENANT, self.tenant)
        } else if self.pins.len() > MAX_PINS {
            Some(
                FormatError::BadFieldLength {
                    tag: binding_tag::PINS,
                    len: self.pins.len() as usize,
                },
            )
        } else if !self.quorum_is_possible() {
            Some(
                FormatError::BadFieldLength {
                    tag: binding_tag::THRESHOLD,
                    len: self.threshold as usize,
                },
            )
        } else if self.expires_at <= self.issued_at {
            Some(FormatError::BadFieldLength { tag: binding_tag::EXPIRES_AT, len: 8 })
        } else if self.revision == 0 && !(zeros(self.previous) && zeros(self.operation_id)) {
            Some(FormatError::BadFieldLength { tag: binding_tag::PREVIOUS, len: 32 })
        } else if self.revision > 0 && zeros(self.previous) {
            Some(FormatError::BadFieldLength { tag: binding_tag::PREVIOUS, len: 32 })
        } else {
            None
        }
    }

    /// The records of the body, where the lists have the given bytes.
    pub open spec fn recs(self, urls: Seq<u8>, pins: Seq<u8>, roster: Seq<u8>) -> Seq<Rec> {
        let rs = Seq::<Rec>::empty();
        let rs = rs.push((binding_tag::VERSION, seq![VERSION]));
        let rs = rs.push((binding_tag::TENANT, encode_utf8(self.tenant)));
        let rs = rs.push((binding_tag::AUTHORITY_ID, self.authority_id));
        let rs = rs.push((binding_tag::EPOCH, bytes::le64(self.epoch)));
        let rs = rs.push((binding_tag::REVISION, bytes::le64(self.revision)));
        let rs = rs.push((binding_tag::LEASE_PUBLIC, self.lease_public));
        let rs = rs.push((binding_tag::SEALING_PUBLIC, self.sealing_public));
        let rs = rs.push((binding_tag::URLS, urls));
        let rs = rs.push((binding_tag::PINS, pins));
        let rs = rs.push((binding_tag::DURABILITY, seq![self.durability.number()]));
        let rs = rs.push((binding_tag::RECOVERY, seq![self.recovery.number()]));
        let rs = rs.push((binding_tag::STATUS, seq![self.status.number()]));
        let rs = rs.push((binding_tag::ROSTER, roster));
        let rs = rs.push((binding_tag::THRESHOLD, seq![self.threshold]));
        let rs = rs.push((binding_tag::OPERATION_ID, self.operation_id));
        let rs = rs.push((binding_tag::PREVIOUS, self.previous));
        let rs = rs.push((binding_tag::ISSUED_AT, bytes::le64s(self.issued_at)));
        let rs = rs.push((binding_tag::EXPIRES_AT, bytes::le64s(self.expires_at)));
        rs
    }
}

/// The bytes of a binding that are signed.
pub open spec fn binding_bytes(b: BindingView) -> Result<Seq<u8>, FormatError> {
    if b.fault() is Some {
        Err(b.fault()->0)
    } else {
        match urls_bytes(b.urls, binding_tag::URLS) {
            Err(e) => Err(e),
            Ok(urls) => match keys_bytes(b.pins, MAX_PINS as nat, binding_tag::PINS) {
                Err(e) => Err(e),
                Ok(pins) => match keys_bytes(b.roster, MAX_ROSTER as nat, binding_tag::ROSTER) {
                    Err(e) => Err(e),
                    Ok(roster) => tlv::sealed(b.recs(urls, pins, roster)),
                },
            },
        }
    }
}

/// The rule for the fields of a binding.
pub struct BindingSchema;

impl Schema for BindingSchema {
    open spec fn fault(&self, tag: u16, value: Seq<u8>) -> Option<FormatError> {
        if tag == binding_tag::VERSION || tag == binding_tag::THRESHOLD {
            tlv::length_fault(tag, value, 1)
        } else if tag == binding_tag::TENANT {
            text_fault(tag, value)
        } else if tag == binding_tag::AUTHORITY_ID || tag == binding_tag::OPERATION_ID {
            tlv::length_fault(tag, value, 16)
        } else if tag == binding_tag::EPOCH || tag == binding_tag::REVISION
            || tag == binding_tag::ISSUED_AT || tag == binding_tag::EXPIRES_AT {
            tlv::length_fault(tag, value, 8)
        } else if tag == binding_tag::LEASE_PUBLIC || tag == binding_tag::SEALING_PUBLIC
            || tag == binding_tag::PREVIOUS {
            tlv::length_fault(tag, value, 32)
        } else if tag == binding_tag::URLS {
            urls_fault(value, tag)
        } else if tag == binding_tag::PINS {
            keys_fault(value, MAX_PINS as nat, tag)
        } else if tag == binding_tag::ROSTER {
            keys_fault(value, MAX_ROSTER as nat, tag)
        } else if tag == binding_tag::DURABILITY {
            Durability::fault(tag, value)
        } else if tag == binding_tag::RECOVERY {
            Recovery::fault(tag, value)
        } else if tag == binding_tag::STATUS {
            Status::fault(tag, value)
        } else {
            unknown::unknown_fault(tag)
        }
    }

    fn check(&self, tag: u16, value: &[u8]) -> (r: Option<FormatError>) {
        if tag == binding_tag::VERSION || tag == binding_tag::THRESHOLD {
            check_length(tag, value, 1)
        } else if tag == binding_tag::TENANT {
            check_text(tag, value)
        } else if tag == binding_tag::AUTHORITY_ID || tag == binding_tag::OPERATION_ID {
            check_length(tag, value, 16)
        } else if tag == binding_tag::EPOCH || tag == binding_tag::REVISION
            || tag == binding_tag::ISSUED_AT || tag == binding_tag::EXPIRES_AT {
            check_length(tag, value, 8)
        } else if tag == binding_tag::LEASE_PUBLIC || tag == binding_tag::SEALING_PUBLIC
            || tag == binding_tag::PREVIOUS {
            check_length(tag, value, 32)
        } else if tag == binding_tag::URLS {
            check_urls(value, tag)
        } else if tag == binding_tag::PINS {
            check_keys(value, MAX_PINS, tag)
        } else if tag == binding_tag::ROSTER {
            check_keys(value, MAX_ROSTER, tag)
        } else if tag == binding_tag::DURABILITY {
            Durability::check(tag, value)
        } else if tag == binding_tag::RECOVERY {
            Recovery::check(tag, value)
        } else if tag == binding_tag::STATUS {
            Status::check(tag, value)
        } else {
            unknown_verdict(tag)
        }
    }
}

/// The binding that the records hold: of the one version, and with every field.
pub open spec fn binding_in(rs: Seq<Rec>) -> Result<BindingView, FormatError> {
    if tlv::lookup(rs, binding_tag::VERSION) != Some(seq![VERSION]) {
        Err(FormatError::BadFieldLength { tag: binding_tag::VERSION, len: 1 })
    } else if tlv::lookup(rs, binding_tag::TENANT) is None {
        Err(FormatError::MissingField { tag: binding_tag::TENANT })
    } else if tlv::lookup(rs, binding_tag::AUTHORITY_ID) is None {
        Err(FormatError::MissingField { tag: binding_tag::AUTHORITY_ID })
    } else if tlv::lookup(rs, binding_tag::EPOCH) is None {
        Err(FormatError::MissingField { tag: binding_tag::EPOCH })
    } else if tlv::lookup(rs, binding_tag::REVISION) is None {
        Err(FormatError::MissingField { tag: binding_tag::REVISION })
    } else if tlv::lookup(rs, binding_tag::LEASE_PUBLIC) is None {
        Err(FormatError::MissingField { tag: binding_tag::LEASE_PUBLIC })
    } else if tlv::lookup(rs, binding_tag::SEALING_PUBLIC) is None {
        Err(FormatError::MissingField { tag: binding_tag::SEALING_PUBLIC })
    } else if tlv::lookup(rs, binding_tag::URLS) is None {
        Err(FormatError::MissingField { tag: binding_tag::URLS })
    } else if tlv::lookup(rs, binding_tag::PINS) is None {
        Err(FormatError::MissingField { tag: binding_tag::PINS })
    } else if tlv::lookup(rs, binding_tag::DURABILITY) is None {
        Err(FormatError::MissingField { tag: binding_tag::DURABILITY })
    } else if tlv::lookup(rs, binding_tag::RECOVERY) is None {
        Err(FormatError::MissingField { tag: binding_tag::RECOVERY })
    } else if tlv::lookup(rs, binding_tag::STATUS) is None {
        Err(FormatError::MissingField { tag: binding_tag::STATUS })
    } else if tlv::lookup(rs, binding_tag::ROSTER) is None {
        Err(FormatError::MissingField { tag: binding_tag::ROSTER })
    } else if tlv::lookup(rs, binding_tag::THRESHOLD) is None {
        Err(FormatError::MissingField { tag: binding_tag::THRESHOLD })
    } else if tlv::lookup(rs, binding_tag::OPERATION_ID) is None {
        Err(FormatError::MissingField { tag: binding_tag::OPERATION_ID })
    } else if tlv::lookup(rs, binding_tag::PREVIOUS) is None {
        Err(FormatError::MissingField { tag: binding_tag::PREVIOUS })
    } else if tlv::lookup(rs, binding_tag::ISSUED_AT) is None {
        Err(FormatError::MissingField { tag: binding_tag::ISSUED_AT })
    } else if tlv::lookup(rs, binding_tag::EXPIRES_AT) is None {
        Err(FormatError::MissingField { tag: binding_tag::EXPIRES_AT })
    } else {
        Ok(
            BindingView {
                tenant: decode_utf8(tlv::lookup(rs, binding_tag::TENANT)->0),
                authority_id: tlv::lookup(rs, binding_tag::AUTHORITY_ID)->0,
                epoch: bytes::num64(tlv::lookup(rs, binding_tag::EPOCH)->0),
                revision: bytes::num64(tlv::lookup(rs, binding_tag::REVISION)->0),
                lease_public: tlv::lookup(rs, binding_tag::LEASE_PUBLIC)->0,
                sealing_public: tlv::lookup(rs, binding_tag::SEALING_PUBLIC)->0,
                urls: urls_of(tlv::lookup(rs, binding_tag::URLS)->0, binding_tag::URLS)->Ok_0,
                pins: keys_of(
                    tlv::lookup(rs, binding_tag::PINS)->0,
                    MAX_PINS as nat,
                    binding_tag::PINS,
                )->Ok_0,
                durability: Durability::numbered(tlv::lookup(rs, binding_tag::DURABILITY)->0[0])->0,
                recovery: Recovery::numbered(tlv::lookup(rs, binding_tag::RECOVERY)->0[0])->0,
                status: Status::numbered(tlv::lookup(rs, binding_tag::STATUS)->0[0])->0,
                roster: keys_of(
                    tlv::lookup(rs, binding_tag::ROSTER)->0,
                    MAX_ROSTER as nat,
                    binding_tag::ROSTER,
                )->Ok_0,
                threshold: tlv::lookup(rs, binding_tag::THRESHOLD)->0[0],
                operation_id: tlv::lookup(rs, binding_tag::OPERATION_ID)->0,
                previous: tlv::lookup(rs, binding_tag::PREVIOUS)->0,
                issued_at: bytes::num64s(tlv::lookup(rs, binding_tag::ISSUED_AT)->0),
                expires_at: bytes::num64s(tlv::lookup(rs, binding_tag::EXPIRES_AT)->0),
            },
        )
    }
}

/// The binding that a body holds. The bytes are those that the binding is written to,
/// apart from optional records that are not known here.
pub open spec fn binding_of(body: Seq<u8>) -> Result<BindingView, FormatError> {
    match tlv::read(BindingSchema, body) {
        Err(e) => Err(e),
        Ok(rs) => match binding_in(rs) {
            Err(e) => Err(e),
            Ok(b) => match binding_bytes(b) {
                Err(e) => Err(e),
                Ok(written) => if written == tlv::wire(unknown::critical(rs)) {
                    Ok(b)
                } else {
                    Err(FormatError::BadFieldLength { tag: 0, len: body.len() as usize })
                },
            },
        },
    }
}

/// An optional field that is not known changes nothing in the binding that is read.
pub proof fn binding_reads_past_optional_fields(body: Seq<u8>)
    requires
        binding_of(body) is Ok,
    ensures
        binding_of(unknown::without_optional(body)) == binding_of(body),
{
    unknown::optional_records_are_skipped(BindingSchema, body);
    unknown::kept_is_idempotent(tlv::read(BindingSchema, body)->Ok_0, Set::empty());
}

/// The binding that the bytes hold, whoever signed them.
pub open spec fn peeked_binding(b: Seq<u8>) -> Result<BindingView, FormatError> {
    if signed_fault(b) is Some {
        Err(signed_fault(b)->0)
    } else {
        binding_of(b.skip(SIG as int))
    }
}

/// The binding that the bytes hold, where `signed` says whether the signature holds
/// under the anchor. Nothing is read of a body that is not signed.
pub open spec fn opened_binding(b: Seq<u8>, anchor: Seq<u8>, signed: bool) -> Result<
    BindingView,
    FormatError,
> {
    if signed_fault(b) is Some {
        Err(signed_fault(b)->0)
    } else if !signed {
        Err(FormatError::BadHeaderSignature)
    } else {
        match peeked_binding(b) {
            Err(e) => Err(e),
            Ok(binding) => if binding.lease_public == anchor {
                Ok(binding)
            } else {
                Err(FormatError::BadFieldLength { tag: binding_tag::LEASE_PUBLIC, len: KEY })
            },
        }
    }
}

/// Under a signature that does not hold, no body is told from another: each binding that is
/// not too long is refused alike.
pub proof fn unsigned_binding_is_refused(b: Seq<u8>, anchor: Seq<u8>)
    requires
        SIG <= b.len() <= MAX_DOCUMENT_LEN,
    ensures
        opened_binding(b, anchor, false) == Err::<BindingView, FormatError>(
            FormatError::BadHeaderSignature,
        ),
{
}

/// A binding that was opened was read from the very body that its signature was checked over.
pub proof fn binding_is_read_from_what_was_signed(b: Seq<u8>, anchor: Seq<u8>)
    requires
        opened_binding(b, anchor, true) is Ok,
    ensures
        signed_claim(Label::AuthorityBinding, b, anchor) is Ok,
        ({
            let claim = signed_claim(Label::AuthorityBinding, b, anchor)->Ok_0;
            opened_binding(b, anchor, true) == binding_of(claim.transcript.body)
        }),
{
}

/// The bytes of a signed binding: the signer has the key that the binding names.
pub open spec fn signed_binding(b: BindingView, key: Seq<u8>, signature: Option<Seq<u8>>) -> Result<
    Seq<u8>,
    FormatError,
> {
    if key != b.lease_public {
        Err(FormatError::BadFieldLength { tag: binding_tag::LEASE_PUBLIC, len: KEY })
    } else {
        match binding_bytes(b) {
            Err(e) => Err(e),
            Ok(body) => match signature {
                None => Err(FormatError::BadHeaderSignature),
                Some(s) => Ok(s + body),
            },
        }
    }
}

/// Records without an optional one are critical all.
proof fn all_critical(rs: Seq<Rec>)
    requires
        tlv::below(rs, 0x8000),
    ensures
        unknown::critical(rs) == rs,
    decreases rs.len(),
{
    if rs.len() > 0 {
        let head = rs.drop_last();
        assert forall|i: int| 0 <= i < head.len() implies (#[trigger] head[i]).0 < 0x8000 by {
            assert(rs[i].0 < 0x8000);
        }
        all_critical(head);
        assert(rs[rs.len() - 1].0 < 0x8000);
        assert(head.push(rs.last()) =~= rs);
    } else {
        assert(rs =~= Seq::empty());
    }
}

/// The body of a binding without a repeated address survives being written and read
/// back.
pub proof fn binding_round_trip(b: BindingView)
    requires
        b.sized(),
        b.urls.no_duplicates(),
        binding_bytes(b) is Ok,
    ensures
        binding_of(binding_bytes(b)->Ok_0) == Ok::<BindingView, FormatError>(b),
{
    broadcast use {tlv::group_records, bytes::group_numbers};

    encode_utf8_valid_utf8(b.tenant);
    encode_utf8_decode_utf8(b.tenant);
    let urls = urls_bytes(b.urls, binding_tag::URLS)->Ok_0;
    let pins = keys_bytes(b.pins, MAX_PINS as nat, binding_tag::PINS)->Ok_0;
    let roster = keys_bytes(b.roster, MAX_ROSTER as nat, binding_tag::ROSTER)->Ok_0;
    urls_round_trip(b.urls, binding_tag::URLS);
    keys_round_trip(b.pins, MAX_PINS as nat, binding_tag::PINS);
    keys_round_trip(b.roster, MAX_ROSTER as nat, binding_tag::ROSTER);
    let rs = b.recs(urls, pins, roster);
    all_critical(rs);
    tlv::read_wire(BindingSchema, rs);
}

/// A binding is far from the limit of a document.
proof fn binding_is_small(b: BindingView)
    requires
        b.sized(),
        binding_bytes(b) is Ok,
    ensures
        binding_bytes(b)->Ok_0.len() + SIG <= MAX_DOCUMENT_LEN,
{
    broadcast use {tlv::wire_len_push, bytes::group_numbers};

    urls_wire_len(b.urls, binding_tag::URLS);
    bytes::chunks_of_joined(b.pins, 32);
    bytes::chunks_of_joined(b.roster, KEY as nat);
}

/// A signed binding is opened by who trusts its key.
pub proof fn signed_binding_opens(b: BindingView, signature: Seq<u8>)
    requires
        b.sized(),
        b.urls.no_duplicates(),
        signature.len() == SIG,
        signed_binding(b, b.lease_public, Some(signature)) is Ok,
    ensures
        opened_binding(
            signed_binding(b, b.lease_public, Some(signature))->Ok_0,
            b.lease_public,
            true,
        ) == Ok::<BindingView, FormatError>(b),
{
    binding_round_trip(b);
    binding_is_small(b);
    let bytes = signed_binding(b, b.lease_public, Some(signature))->Ok_0;
    assert(bytes.skip(SIG as int) =~= binding_bytes(b)->Ok_0);
}

/// A binding is opened only under the key trusted beforehand, which it names itself.
pub proof fn opened_binding_is_anchored(b: Seq<u8>, anchor: Seq<u8>, signed: bool)
    requires
        opened_binding(b, anchor, signed) is Ok,
    ensures
        signed,
        opened_binding(b, anchor, signed)->Ok_0.lease_public == anchor,
        opened_binding(b, anchor, signed)->Ok_0.fault() is None,
{
}

/// A binding has one form: two bodies that hold the same binding differ at most in
/// optional records.
pub proof fn binding_has_one_form(a: Seq<u8>, b: Seq<u8>)
    requires
        binding_of(a) is Ok,
        binding_of(a) == binding_of(b),
    ensures
        tlv::wire(unknown::critical(tlv::scan(a, None).0))
            == tlv::wire(unknown::critical(tlv::scan(b, None).0)),
{
}

impl Binding {
    /// The first objection to the binding.
    fn check(&self) -> (r: Option<FormatError>)
        ensures
            r == self@.fault(),
    {
        if let Some(e) = check_tenant(binding_tag::TENANT, self.tenant.as_str()) {
            return Some(e);
        }
        if self.pins.len() > MAX_PINS {
            return Some(bad(binding_tag::PINS, self.pins.len()));
        }
        let quorum = if self.roster.len() == 0 {
            self.threshold == 0
        } else {
            self.threshold >= 1 && self.threshold as usize <= self.roster.len()
        };
        if !quorum {
            return Some(bad(binding_tag::THRESHOLD, self.threshold as usize));
        }
        if self.expires_at <= self.issued_at {
            return Some(bad(binding_tag::EXPIRES_AT, 8));
        }
        let rooted = all_zero(self.previous.as_slice());
        let unasked = all_zero(self.operation_id.as_slice());
        if self.revision == 0 && !(rooted && unasked) {
            return Some(bad(binding_tag::PREVIOUS, 32));
        }
        if self.revision > 0 && rooted {
            return Some(bad(binding_tag::PREVIOUS, 32));
        }
        None
    }

    /// The bytes of the binding that are signed.
    pub fn body(&self) -> (r: Result<Vec<u8>, FormatError>)
        ensures
            tlv::agrees(r, binding_bytes(self@)),
    {
        broadcast use {tlv::group_records, bytes::group_numbers};

        refuse(self.check())?;
        let urls = encode_urls(&self.urls, binding_tag::URLS)?;
        let pins = encode_keys(&self.pins, MAX_PINS, binding_tag::PINS)?;
        let roster = encode_keys(&self.roster, MAX_ROSTER, binding_tag::ROSTER)?;
        let mut w = TlvWriter::new();
        w.put(binding_tag::VERSION, one(VERSION).as_slice())?;
        w.put(binding_tag::TENANT, self.tenant.as_str().as_bytes())?;
        w.put(binding_tag::AUTHORITY_ID, self.authority_id.as_slice())?;
        w.put(binding_tag::EPOCH, write64(self.epoch).as_slice())?;
        w.put(binding_tag::REVISION, write64(self.revision).as_slice())?;
        w.put(binding_tag::LEASE_PUBLIC, self.lease_public.as_slice())?;
        w.put(binding_tag::SEALING_PUBLIC, self.sealing_public.as_slice())?;
        w.put(binding_tag::URLS, urls.as_slice())?;
        w.put(binding_tag::PINS, pins.as_slice())?;
        w.put(binding_tag::DURABILITY, one(self.durability.as_u8()).as_slice())?;
        w.put(binding_tag::RECOVERY, one(self.recovery.as_u8()).as_slice())?;
        w.put(binding_tag::STATUS, one(self.status.as_u8()).as_slice())?;
        w.put(binding_tag::ROSTER, roster.as_slice())?;
        w.put(binding_tag::THRESHOLD, one(self.threshold).as_slice())?;
        w.put(binding_tag::OPERATION_ID, self.operation_id.as_slice())?;
        w.put(binding_tag::PREVIOUS, self.previous.as_slice())?;
        w.put(binding_tag::ISSUED_AT, write64s(self.issued_at).as_slice())?;
        w.put(binding_tag::EXPIRES_AT, write64s(self.expires_at).as_slice())?;
        Ok(w.finish())
    }

    /// What is signed of the binding.
    pub fn transcript(&self) -> (r: Result<Transcript, FormatError>)
        ensures
            tlv::agrees(r, transcribed(Label::AuthorityBinding, binding_bytes(self@))),
    {
        let body = self.body()?;
        Ok(Transcript::new(Label::AuthorityBinding, body.as_slice()))
    }

    /// The signature that is to be checked before the binding is read: under the anchor.
    pub fn claim(bytes: &[u8], anchor: &[u8; KEY]) -> (r: Result<Claim, FormatError>)
        ensures
            tlv::agrees(r, signed_claim(Label::AuthorityBinding, bytes@, anchor@)),
    {
        claim_of(Label::AuthorityBinding, bytes, anchor)
    }

    /// Write the signed binding. `key` is the key of the signer, and has to be the one
    /// that the binding names; `signature` is what the signer made over
    /// [`Binding::transcript`], if it made one.
    pub fn sign(&self, key: &[u8; KEY], signature: Option<[u8; SIG]>) -> (r: Result<
        Vec<u8>,
        FormatError,
    >)
        ensures
            tlv::agrees(r, signed_binding(self@, key@, bytes::opt_array(signature))),
    {
        if !same(key.as_slice(), self.lease_public.as_slice()) {
            return Err(bad(binding_tag::LEASE_PUBLIC, KEY));
        }
        let body = self.body()?;
        match signature {
            Some(s) => Ok(join_signed(&s, body.as_slice())),
            None => Err(FormatError::BadHeaderSignature),
        }
    }

    /// Read a binding. `signed` says whether its signature (see [`Binding::claim`]) holds
    /// under the anchor, the key that the verifier trusts beforehand; the binding has to
    /// name it too.
    pub fn open(bytes: &[u8], anchor: &[u8; KEY], signed: bool) -> (r: Result<Binding, FormatError>)
        ensures
            tlv::agrees(r, opened_binding(bytes@, anchor@, signed)),
    {
        let _ = split_signed(bytes)?;
        if !signed {
            return Err(FormatError::BadHeaderSignature);
        }
        let binding = Binding::peek(bytes)?;
        if !same(binding.lease_public.as_slice(), anchor.as_slice()) {
            return Err(bad(binding_tag::LEASE_PUBLIC, KEY));
        }
        Ok(binding)
    }

    /// Read a binding whoever signed it: for who wrote it.
    pub fn peek(bytes: &[u8]) -> (r: Result<Binding, FormatError>)
        ensures
            tlv::agrees(r, peeked_binding(bytes@)),
    {
        let (_, body) = split_signed(bytes)?;
        let fs = read_fields(&BindingSchema, body)?;
        if !has_byte(&fs, binding_tag::VERSION, VERSION) {
            return Err(bad(binding_tag::VERSION, 1));
        }
        let tenant = need(&fs, binding_tag::TENANT)?;
        let authority_id = need(&fs, binding_tag::AUTHORITY_ID)?;
        let epoch = need(&fs, binding_tag::EPOCH)?;
        let revision = need(&fs, binding_tag::REVISION)?;
        let lease_public = need(&fs, binding_tag::LEASE_PUBLIC)?;
        let sealing_public = need(&fs, binding_tag::SEALING_PUBLIC)?;
        let urls = need(&fs, binding_tag::URLS)?;
        let pins = need(&fs, binding_tag::PINS)?;
        let durability = need(&fs, binding_tag::DURABILITY)?;
        let recovery = need(&fs, binding_tag::RECOVERY)?;
        let status = need(&fs, binding_tag::STATUS)?;
        let roster = need(&fs, binding_tag::ROSTER)?;
        let threshold = need(&fs, binding_tag::THRESHOLD)?;
        let operation_id = need(&fs, binding_tag::OPERATION_ID)?;
        let previous = need(&fs, binding_tag::PREVIOUS)?;
        let issued_at = need(&fs, binding_tag::ISSUED_AT)?;
        let expires_at = need(&fs, binding_tag::EXPIRES_AT)?;
        let binding = Binding {
            tenant: utf8_text(tenant),
            authority_id: array(authority_id),
            epoch: read64(epoch),
            revision: read64(revision),
            lease_public: array(lease_public),
            sealing_public: array(sealing_public),
            urls: decode_urls(urls, binding_tag::URLS)?,
            pins: decode_keys(pins, MAX_PINS, binding_tag::PINS)?,
            durability: Durability::read(durability),
            recovery: Recovery::read(recovery),
            status: Status::read(status),
            roster: decode_keys(roster, MAX_ROSTER, binding_tag::ROSTER)?,
            threshold: threshold[0],
            operation_id: array(operation_id),
            previous: array(previous),
            issued_at: read64s(issued_at),
            expires_at: read64s(expires_at),
        };
        let written = binding.body()?;
        if !same(written.as_slice(), strip(&fs).as_slice()) {
            return Err(bad(0, body.len()));
        }
        Ok(binding)
    }

    /// The binding names the address, byte for byte.
    pub fn names_url(&self, url: &str) -> (r: bool)
        ensures
            r == self@.urls.contains(url@),
    {
        names(&self.urls, url)
    }
}

/// How a new binding stands to one that was seen before.
#[derive(Debug, Clone, Copy, PartialEq, Eq, Structural)]
pub enum Continuity {
    /// The same revision, the same bytes.
    Same,
    /// A later one; `adjacent` where it is the next and refers to the one seen.
    Newer { adjacent: bool },
    /// An earlier one.
    Rollback,
    /// The same revision in other bytes, or a next one that does not refer to the one
    /// seen.
    Fork,
    /// Another server, organisation or epoch.
    Unrelated,
}

/// How a new binding stands to one that was seen before; each comes with the digest
/// of its bytes.
pub open spec fn continuity_of(
    seen: BindingView,
    seen_digest: Seq<u8>,
    new: BindingView,
    new_digest: Seq<u8>,
) -> Continuity {
    if seen.authority_id != new.authority_id || seen.tenant != new.tenant || seen.epoch
        != new.epoch {
        Continuity::Unrelated
    } else if new.revision < seen.revision {
        Continuity::Rollback
    } else if new.revision == seen.revision {
        if seen_digest == new_digest {
            Continuity::Same
        } else {
            Continuity::Fork
        }
    } else {
        let adjacent = seen.revision + 1 == new.revision;
        if adjacent && new.previous != seen_digest {
            Continuity::Fork
        } else {
            Continuity::Newer { adjacent }
        }
    }
}

/// A binding continues itself.
pub proof fn continuity_is_reflexive(b: BindingView, digest: Seq<u8>)
    ensures
        continuity_of(b, digest, b, digest) == Continuity::Same,
{
}

/// What is newer one way round is a rollback the other way round.
pub proof fn newer_is_a_rollback_backwards(
    a: BindingView,
    a_digest: Seq<u8>,
    b: BindingView,
    b_digest: Seq<u8>,
)
    requires
        continuity_of(a, a_digest, b, b_digest) is Newer,
    ensures
        continuity_of(b, b_digest, a, a_digest) == Continuity::Rollback,
{
}

/// A next revision is accepted as adjacent only where it names the digest of the one
/// seen.
pub proof fn adjacent_refers_back(
    seen: BindingView,
    seen_digest: Seq<u8>,
    new: BindingView,
    new_digest: Seq<u8>,
)
    requires
        continuity_of(seen, seen_digest, new, new_digest) == (Continuity::Newer {
            adjacent: true,
        }),
    ensures
        new.previous == seen_digest,
        new.revision == seen.revision + 1,
{
}

/// How a new binding stands to one that was seen before; each comes with the digest
/// of its bytes.
pub fn continuity(
    seen: &Binding,
    seen_digest: &[u8; 32],
    new: &Binding,
    new_digest: &[u8; 32],
) -> (r: Continuity)
    ensures
        r == continuity_of(seen@, seen_digest@, new@, new_digest@),
{
    if !same(seen.authority_id.as_slice(), new.authority_id.as_slice()) || !same_text(
        seen.tenant.as_str(),
        new.tenant.as_str(),
    ) || seen.epoch != new.epoch {
        return Continuity::Unrelated;
    }
    if new.revision < seen.revision {
        return Continuity::Rollback;
    }
    if new.revision == seen.revision {
        if same(seen_digest.as_slice(), new_digest.as_slice()) {
            return Continuity::Same;
        }
        return Continuity::Fork;
    }
    let adjacent = seen.revision + 1 == new.revision;
    if adjacent && !same(new.previous.as_slice(), seen_digest.as_slice()) {
        return Continuity::Fork;
    }
    Continuity::Newer { adjacent }
}

/// The scope of an order: the server as a whole.
pub const SCOPE_AUTHORITY: u8 = 1;

/// What is ordered.
#[derive(Debug, Clone, PartialEq, Eq)]
pub enum Payload {
    /// Addresses, and fingerprints of certificates.
    SetEndpoints { urls: Vec<String>, pins: Vec<[u8; 32]> },
    /// When a change counts as done.
    SetDurability(Durability),
    /// The roster of controllers, and how many of them an order needs.
    SetRoster { keys: Vec<[u8; KEY]>, threshold: u8 },
    /// How the server could be recovered.
    SetRecovery(Recovery),
    /// The end of service: `Stopped` or `ArchiveOnly`.
    Decommission { status: Status, reason: String },
    /// An author may register files.
    AddAuthor([u8; KEY]),
    /// An author may no longer register files.
    RemoveAuthor([u8; KEY]),
}

/// What an order says.
pub enum PayloadView {
    SetEndpoints { urls: Seq<Seq<char>>, pins: Seq<Seq<u8>> },
    SetDurability(Durability),
    SetRoster { keys: Seq<Seq<u8>>, threshold: u8 },
    SetRecovery(Recovery),
    Decommission { status: Status, reason: Seq<char> },
    AddAuthor(Seq<u8>),
    RemoveAuthor(Seq<u8>),
}

impl View for Payload {
    type V = PayloadView;

    open spec fn view(&self) -> PayloadView {
        match *self {
            Payload::SetEndpoints { urls, pins } => PayloadView::SetEndpoints {
                urls: text::texts(urls@),
                pins: bytes::arrays(pins@),
            },
            Payload::SetDurability(d) => PayloadView::SetDurability(d),
            Payload::SetRoster { keys, threshold } => PayloadView::SetRoster {
                keys: bytes::arrays(keys@),
                threshold,
            },
            Payload::SetRecovery(r) => PayloadView::SetRecovery(r),
            Payload::Decommission { status, reason } => PayloadView::Decommission {
                status,
                reason: reason@,
            },
            Payload::AddAuthor(key) => PayloadView::AddAuthor(key@),
            Payload::RemoveAuthor(key) => PayloadView::RemoveAuthor(key@),
        }
    }
}

/// A server that is decommissioned ends up in this state.
pub open spec fn out_of_service(status: Status) -> bool {
    status == Status::Stopped || status == Status::ArchiveOnly
}

/// A document of one or two records.
pub open spec fn pair(first: Seq<u8>, second: Option<Seq<u8>>) -> Seq<Rec> {
    tlv::with_opt(Seq::<Rec>::empty().push((1, first)), 2, second)
}

impl PayloadView {
    /// The fields of fixed length have it.
    pub open spec fn sized(self) -> bool {
        match self {
            PayloadView::SetEndpoints { urls, pins } => bytes::all_sized(pins, 32),
            PayloadView::SetRoster { keys, threshold } => bytes::all_sized(keys, KEY as nat),
            PayloadView::AddAuthor(key) => key.len() == KEY,
            PayloadView::RemoveAuthor(key) => key.len() == KEY,
            _ => true,
        }
    }

    /// No address occurs twice.
    pub open spec fn urls_are_distinct(self) -> bool {
        self matches PayloadView::SetEndpoints { urls, pins } ==> urls.no_duplicates()
    }

    /// The number of the kind of order.
    pub open spec fn kind(self) -> u8 {
        match self {
            PayloadView::SetEndpoints { .. } => 1,
            PayloadView::SetDurability(_) => 2,
            PayloadView::SetRoster { .. } => 3,
            PayloadView::SetRecovery(_) => 4,
            PayloadView::Decommission { .. } => 5,
            PayloadView::AddAuthor(_) => 6,
            PayloadView::RemoveAuthor(_) => 7,
        }
    }
}

/// The bytes of an order.
pub open spec fn payload_bytes(p: PayloadView) -> Result<Seq<u8>, FormatError> {
    match p {
        PayloadView::SetEndpoints { urls, pins } => match urls_bytes(urls, 1) {
            Err(e) => Err(e),
            Ok(us) => match keys_bytes(pins, MAX_PINS as nat, 2) {
                Err(e) => Err(e),
                Ok(ps) => tlv::sealed(pair(us, Some(ps))),
            },
        },
        PayloadView::SetDurability(d) => tlv::sealed(pair(seq![d.number()], None)),
        PayloadView::SetRoster { keys, threshold } => match keys_bytes(
            keys,
            MAX_ROSTER as nat,
            1,
        ) {
            Err(e) => Err(e),
            Ok(ks) => tlv::sealed(pair(ks, Some(seq![threshold]))),
        },
        PayloadView::SetRecovery(r) => tlv::sealed(pair(seq![r.number()], None)),
        PayloadView::Decommission { status, reason } => if !out_of_service(status) {
            Err(FormatError::BadFieldLength { tag: 1, len: 1 })
        } else {
            match reason_fault(reason, 2) {
                Some(e) => Err(e),
                None => tlv::sealed(pair(seq![status.number()], Some(encode_utf8(reason)))),
            }
        },
        PayloadView::AddAuthor(key) => tlv::sealed(pair(key, None)),
        PayloadView::RemoveAuthor(key) => tlv::sealed(pair(key, None)),
    }
}

/// The rule for the fields of an order, of any kind.
pub struct PayloadSchema;

impl Schema for PayloadSchema {
    open spec fn fault(&self, tag: u16, value: Seq<u8>) -> Option<FormatError> {
        if tag == 1 || tag == 2 {
            None
        } else {
            unknown::unknown_fault(tag)
        }
    }

    fn check(&self, tag: u16, value: &[u8]) -> (r: Option<FormatError>) {
        if tag == 1 || tag == 2 {
            None
        } else {
            unknown_verdict(tag)
        }
    }
}

/// The order of a kind that two values hold.
pub open spec fn payload_in(kind: u8, first: Seq<u8>, second: Option<Seq<u8>>) -> Result<
    PayloadView,
    FormatError,
> {
    match second {
        Some(more) => if kind == 1 {
            match urls_of(first, 1) {
                Err(e) => Err(e),
                Ok(urls) => match keys_of(more, MAX_PINS as nat, 2) {
                    Err(e) => Err(e),
                    Ok(pins) => Ok(PayloadView::SetEndpoints { urls, pins }),
                },
            }
        } else if kind == 3 {
            match keys_of(first, MAX_ROSTER as nat, 1) {
                Err(e) => Err(e),
                Ok(keys) => if more.len() != 1 {
                    Err(FormatError::BadFieldLength { tag: 2, len: more.len() as usize })
                } else {
                    Ok(PayloadView::SetRoster { keys, threshold: more[0] })
                },
            }
        } else if kind == 5 {
            if Status::fault(1, first) is Some {
                Err(Status::fault(1, first)->0)
            } else if !out_of_service(Status::numbered(first[0])->0) {
                Err(FormatError::BadFieldLength { tag: 1, len: 1 })
            } else if !valid_utf8(more) {
                Err(FormatError::BadFieldLength { tag: 2, len: more.len() as usize })
            } else {
                match reason_fault(decode_utf8(more), 2) {
                    Some(e) => Err(e),
                    None => Ok(
                        PayloadView::Decommission {
                            status: Status::numbered(first[0])->0,
                            reason: decode_utf8(more),
                        },
                    ),
                }
            }
        } else if 1 <= kind <= 7 {
            Err(FormatError::BadFieldLength { tag: 2, len: more.len() as usize })
        } else {
            Err(FormatError::BadFieldLength { tag: request_tag::PAYLOAD_KIND, len: 1 })
        },
        None => if kind == 2 {
            if Durability::fault(1, first) is Some {
                Err(Durability::fault(1, first)->0)
            } else {
                Ok(PayloadView::SetDurability(Durability::numbered(first[0])->0))
            }
        } else if kind == 4 {
            if Recovery::fault(1, first) is Some {
                Err(Recovery::fault(1, first)->0)
            } else {
                Ok(PayloadView::SetRecovery(Recovery::numbered(first[0])->0))
            }
        } else if kind == 6 || kind == 7 {
            if first.len() != KEY {
                Err(FormatError::BadFieldLength { tag: 1, len: first.len() as usize })
            } else if kind == 6 {
                Ok(PayloadView::AddAuthor(first))
            } else {
                Ok(PayloadView::RemoveAuthor(first))
            }
        } else if 1 <= kind <= 7 {
            Err(FormatError::BadFieldLength { tag: 2, len: 0 })
        } else {
            Err(FormatError::BadFieldLength { tag: request_tag::PAYLOAD_KIND, len: 1 })
        },
    }
}

/// The order of a kind that the bytes hold, in the one form that it has.
pub open spec fn payload_of(kind: u8, body: Seq<u8>) -> Result<PayloadView, FormatError> {
    match tlv::read(PayloadSchema, body) {
        Err(e) => Err(e),
        Ok(rs) => if tlv::lookup(rs, 1) is None {
            Err(FormatError::MissingField { tag: 1 })
        } else {
            match payload_in(kind, tlv::lookup(rs, 1)->0, tlv::lookup(rs, 2)) {
                Err(e) => Err(e),
                Ok(p) => match payload_bytes(p) {
                    Err(e) => Err(e),
                    Ok(written) => if written == tlv::wire(unknown::critical(rs)) {
                        Ok(p)
                    } else {
                        Err(
                            FormatError::BadFieldLength {
                                tag: request_tag::PAYLOAD,
                                len: body.len() as usize,
                            },
                        )
                    },
                },
            }
        },
    }
}

/// An optional field that is not known changes nothing in the payload that is read.
pub proof fn payload_reads_past_optional_fields(kind: u8, body: Seq<u8>)
    requires
        payload_of(kind, body) is Ok,
    ensures
        payload_of(kind, unknown::without_optional(body)) == payload_of(kind, body),
{
    unknown::optional_records_are_skipped(PayloadSchema, body);
    unknown::kept_is_idempotent(tlv::read(PayloadSchema, body)->Ok_0, Set::empty());
}

/// An order of any kind survives being written and read back.
pub proof fn payload_round_trip(p: PayloadView)
    requires
        p.sized(),
        p.urls_are_distinct(),
        payload_bytes(p) is Ok,
    ensures
        payload_of(p.kind(), payload_bytes(p)->Ok_0) == Ok::<PayloadView, FormatError>(p),
{
    broadcast use tlv::group_records;

    match p {
        PayloadView::SetEndpoints { urls, pins } => {
            urls_round_trip(urls, 1);
            keys_round_trip(pins, MAX_PINS as nat, 2);
            let rs = pair(
                urls_bytes(urls, 1)->Ok_0,
                Some(keys_bytes(pins, MAX_PINS as nat, 2)->Ok_0),
            );
            all_critical(rs);
            tlv::read_wire(PayloadSchema, rs);
        },
        PayloadView::SetDurability(d) => {
            let rs = pair(seq![d.number()], None);
            all_critical(rs);
            tlv::read_wire(PayloadSchema, rs);
        },
        PayloadView::SetRoster { keys, threshold } => {
            keys_round_trip(keys, MAX_ROSTER as nat, 1);
            let rs = pair(keys_bytes(keys, MAX_ROSTER as nat, 1)->Ok_0, Some(seq![threshold]));
            all_critical(rs);
            tlv::read_wire(PayloadSchema, rs);
        },
        PayloadView::SetRecovery(r) => {
            let rs = pair(seq![r.number()], None);
            all_critical(rs);
            tlv::read_wire(PayloadSchema, rs);
        },
        PayloadView::Decommission { status, reason } => {
            encode_utf8_valid_utf8(reason);
            encode_utf8_decode_utf8(reason);
            let rs = pair(seq![status.number()], Some(encode_utf8(reason)));
            all_critical(rs);
            tlv::read_wire(PayloadSchema, rs);
        },
        PayloadView::AddAuthor(key) => {
            let rs = pair(key, None);
            all_critical(rs);
            tlv::read_wire(PayloadSchema, rs);
        },
        PayloadView::RemoveAuthor(key) => {
            let rs = pair(key, None);
            all_critical(rs);
            tlv::read_wire(PayloadSchema, rs);
        },
    }
}

/// The kind of an accepted order is the kind that it was read as.
pub proof fn payload_keeps_its_kind(kind: u8, body: Seq<u8>)
    requires
        payload_of(kind, body) is Ok,
    ensures
        payload_of(kind, body)->Ok_0.kind() == kind,
{
}

/// A document of one or two records.
fn encode_pair(first: &[u8], second: Option<&[u8]>) -> (r: Result<Vec<u8>, FormatError>)
    ensures
        tlv::agrees(
            r,
            tlv::sealed(
                pair(
                    first@,
                    match second {
                        Some(v) => Some(v@),
                        None => None,
                    },
                ),
            ),
        ),
{
    broadcast use tlv::group_records;

    let mut w = TlvWriter::new();
    w.put(1, first)?;
    if let Some(v) = second {
        w.put(2, v)?;
    }
    Ok(w.finish())
}

impl Payload {
    /// The number of the kind of order.
    fn kind(&self) -> (r: u8)
        ensures
            r == self@.kind(),
    {
        match self {
            Payload::SetEndpoints { .. } => 1,
            Payload::SetDurability(_) => 2,
            Payload::SetRoster { .. } => 3,
            Payload::SetRecovery(_) => 4,
            Payload::Decommission { .. } => 5,
            Payload::AddAuthor(_) => 6,
            Payload::RemoveAuthor(_) => 7,
        }
    }

    /// Write the order.
    fn encode(&self) -> (r: Result<Vec<u8>, FormatError>)
        ensures
            tlv::agrees(r, payload_bytes(self@)),
    {
        match self {
            Payload::SetEndpoints { urls, pins } => {
                let us = encode_urls(urls, 1)?;
                let ps = encode_keys(pins, MAX_PINS, 2)?;
                encode_pair(us.as_slice(), Some(ps.as_slice()))
            },
            Payload::SetDurability(d) => encode_pair(one(d.as_u8()).as_slice(), None),
            Payload::SetRoster { keys, threshold } => {
                let ks = encode_keys(keys, MAX_ROSTER, 1)?;
                encode_pair(ks.as_slice(), Some(one(*threshold).as_slice()))
            },
            Payload::SetRecovery(r) => encode_pair(one(r.as_u8()).as_slice(), None),
            Payload::Decommission { status, reason } => {
                if !is_out_of_service(*status) {
                    return Err(bad(1, 1));
                }
                refuse(check_reason(reason.as_str(), 2))?;
                encode_pair(one(status.as_u8()).as_slice(), Some(reason.as_str().as_bytes()))
            },
            Payload::AddAuthor(key) => encode_pair(key.as_slice(), None),
            Payload::RemoveAuthor(key) => encode_pair(key.as_slice(), None),
        }
    }

    /// The order of a kind that one value holds.
    fn decode_one(kind: u8, first: &[u8]) -> (r: Result<Payload, FormatError>)
        ensures
            tlv::agrees(r, payload_in(kind, first@, None)),
    {
        if kind == 2 {
            refuse(Durability::check(1, first))?;
            Ok(Payload::SetDurability(Durability::read(first)))
        } else if kind == 4 {
            refuse(Recovery::check(1, first))?;
            Ok(Payload::SetRecovery(Recovery::read(first)))
        } else if kind == 6 || kind == 7 {
            if first.len() != KEY {
                return Err(bad(1, first.len()));
            }
            let key: [u8; KEY] = array(first);
            if kind == 6 {
                Ok(Payload::AddAuthor(key))
            } else {
                Ok(Payload::RemoveAuthor(key))
            }
        } else if 1 <= kind && kind <= 7 {
            Err(bad(2, 0))
        } else {
            Err(bad(request_tag::PAYLOAD_KIND, 1))
        }
    }

    /// The order of a kind that two values hold.
    fn decode_two(kind: u8, first: &[u8], more: &[u8]) -> (r: Result<Payload, FormatError>)
        ensures
            tlv::agrees(r, payload_in(kind, first@, Some(more@))),
    {
        if kind == 1 {
            let urls = decode_urls(first, 1)?;
            let pins = decode_keys(more, MAX_PINS, 2)?;
            Ok(Payload::SetEndpoints { urls, pins })
        } else if kind == 3 {
            let keys = decode_keys(first, MAX_ROSTER, 1)?;
            if more.len() != 1 {
                return Err(bad(2, more.len()));
            }
            Ok(Payload::SetRoster { keys, threshold: more[0] })
        } else if kind == 5 {
            refuse(Status::check(1, first))?;
            let status = Status::read(first);
            if !is_out_of_service(status) {
                return Err(bad(1, 1));
            }
            let reason = match text_of(more) {
                Some(reason) => reason,
                None => {
                    return Err(bad(2, more.len()));
                },
            };
            refuse(check_reason(reason.as_str(), 2))?;
            Ok(Payload::Decommission { status, reason })
        } else if 1 <= kind && kind <= 7 {
            Err(bad(2, more.len()))
        } else {
            Err(bad(request_tag::PAYLOAD_KIND, 1))
        }
    }

    /// Read an order of a kind.
    fn decode(kind: u8, body: &[u8]) -> (r: Result<Payload, FormatError>)
        ensures
            tlv::agrees(r, payload_of(kind, body@)),
    {
        let fs = read_fields(&PayloadSchema, body)?;
        let first = need(&fs, 1)?;
        let payload = match find(&fs, 2) {
            Some(more) => Payload::decode_two(kind, first, more)?,
            None => Payload::decode_one(kind, first)?,
        };
        let written = payload.encode()?;
        if !same(written.as_slice(), strip(&fs).as_slice()) {
            return Err(bad(request_tag::PAYLOAD, body.len()));
        }
        Ok(payload)
    }
}

/// A server that is decommissioned ends up in this state.
fn is_out_of_service(status: Status) -> (r: bool)
    ensures
        r == out_of_service(status),
{
    match status {
        Status::Stopped => true,
        Status::ArchiveOnly => true,
        _ => false,
    }
}

/// An order of the controllers.
#[derive(Debug, Clone, PartialEq, Eq)]
pub struct ControlRequest {
    pub tenant: String,
    pub authority_id: [u8; 16],
    pub epoch: u64,
    /// Drawn by who composes the order: the same bytes again are the same order.
    pub operation_id: [u8; 16],
    /// The revision of the binding on which the order was composed.
    pub expected_revision: u64,
    pub issued_at: i64,
    pub expires_at: i64,
    pub payload: Payload,
}

/// What an order of the controllers says.
pub struct RequestView {
    pub tenant: Seq<char>,
    pub authority_id: Seq<u8>,
    pub epoch: u64,
    pub operation_id: Seq<u8>,
    pub expected_revision: u64,
    pub issued_at: i64,
    pub expires_at: i64,
    pub payload: PayloadView,
}

impl View for ControlRequest {
    type V = RequestView;

    open spec fn view(&self) -> RequestView {
        RequestView {
            tenant: self.tenant@,
            authority_id: self.authority_id@,
            epoch: self.epoch,
            operation_id: self.operation_id@,
            expected_revision: self.expected_revision,
            issued_at: self.issued_at,
            expires_at: self.expires_at,
            payload: self.payload@,
        }
    }
}

impl RequestView {
    /// The fields of fixed length have it.
    pub open spec fn sized(self) -> bool {
        self.authority_id.len() == 16 && self.operation_id.len() == 16 && self.payload.sized()
    }

    /// The first objection to the order.
    pub open spec fn fault(self) -> Option<FormatError> {
        if text::tenant_fault(request_tag::TENANT, self.tenant) is Some {
            text::tenant_fault(request_tag::TENANT, self.tenant)
        } else if 0 < self.expires_at - self.issued_at <= MAX_REQUEST_LIFETIME {
            None
        } else {
            Some(FormatError::BadFieldLength { tag: request_tag::EXPIRES_AT, len: 8 })
        }
    }

    /// The records of the body, where the payload has the given bytes.
    pub open spec fn recs(self, payload: Seq<u8>) -> Seq<Rec> {
        let rs = Seq::<Rec>::empty();
        let rs = rs.push((request_tag::VERSION, seq![VERSION]));
        let rs = rs.push((request_tag::TENANT, encode_utf8(self.tenant)));
        let rs = rs.push((request_tag::AUTHORITY_ID, self.authority_id));
        let rs = rs.push((request_tag::EPOCH, bytes::le64(self.epoch)));
        let rs = rs.push((request_tag::OPERATION_ID, self.operation_id));
        let rs = rs.push((request_tag::SCOPE, seq![SCOPE_AUTHORITY]));
        let rs = rs.push((request_tag::EXPECTED_REVISION, bytes::le64(self.expected_revision)));
        let rs = rs.push((request_tag::ISSUED_AT, bytes::le64s(self.issued_at)));
        let rs = rs.push((request_tag::EXPIRES_AT, bytes::le64s(self.expires_at)));
        let rs = rs.push((request_tag::PAYLOAD_KIND, seq![self.payload.kind()]));
        rs.push((request_tag::PAYLOAD, payload))
    }
}

/// The bytes of an order that are signed.
pub open spec fn request_bytes(q: RequestView) -> Result<Seq<u8>, FormatError> {
    if q.fault() is Some {
        Err(q.fault()->0)
    } else {
        match payload_bytes(q.payload) {
            Err(e) => Err(e),
            Ok(payload) => tlv::sealed(q.recs(payload)),
        }
    }
}

/// The rule for the fields of an order of the controllers.
pub struct RequestSchema;

impl Schema for RequestSchema {
    open spec fn fault(&self, tag: u16, value: Seq<u8>) -> Option<FormatError> {
        if tag == request_tag::VERSION || tag == request_tag::SCOPE
            || tag == request_tag::PAYLOAD_KIND {
            tlv::length_fault(tag, value, 1)
        } else if tag == request_tag::TENANT {
            text_fault(tag, value)
        } else if tag == request_tag::AUTHORITY_ID || tag == request_tag::OPERATION_ID {
            tlv::length_fault(tag, value, 16)
        } else if tag == request_tag::EPOCH || tag == request_tag::EXPECTED_REVISION
            || tag == request_tag::ISSUED_AT || tag == request_tag::EXPIRES_AT {
            tlv::length_fault(tag, value, 8)
        } else if tag == request_tag::PAYLOAD {
            None
        } else {
            unknown::unknown_fault(tag)
        }
    }

    fn check(&self, tag: u16, value: &[u8]) -> (r: Option<FormatError>) {
        if tag == request_tag::VERSION || tag == request_tag::SCOPE
            || tag == request_tag::PAYLOAD_KIND {
            check_length(tag, value, 1)
        } else if tag == request_tag::TENANT {
            check_text(tag, value)
        } else if tag == request_tag::AUTHORITY_ID || tag == request_tag::OPERATION_ID {
            check_length(tag, value, 16)
        } else if tag == request_tag::EPOCH || tag == request_tag::EXPECTED_REVISION
            || tag == request_tag::ISSUED_AT || tag == request_tag::EXPIRES_AT {
            check_length(tag, value, 8)
        } else if tag == request_tag::PAYLOAD {
            None
        } else {
            unknown_verdict(tag)
        }
    }
}

/// The order that the records hold: of the one version and scope, with every field.
pub open spec fn request_in(rs: Seq<Rec>) -> Result<RequestView, FormatError> {
    if tlv::lookup(rs, request_tag::VERSION) != Some(seq![VERSION]) {
        Err(FormatError::BadFieldLength { tag: request_tag::VERSION, len: 1 })
    } else if tlv::lookup(rs, request_tag::SCOPE) != Some(seq![SCOPE_AUTHORITY]) {
        Err(FormatError::BadFieldLength { tag: request_tag::SCOPE, len: 1 })
    } else if tlv::lookup(rs, request_tag::PAYLOAD_KIND) is None {
        Err(FormatError::MissingField { tag: request_tag::PAYLOAD_KIND })
    } else if tlv::lookup(rs, request_tag::TENANT) is None {
        Err(FormatError::MissingField { tag: request_tag::TENANT })
    } else if tlv::lookup(rs, request_tag::AUTHORITY_ID) is None {
        Err(FormatError::MissingField { tag: request_tag::AUTHORITY_ID })
    } else if tlv::lookup(rs, request_tag::EPOCH) is None {
        Err(FormatError::MissingField { tag: request_tag::EPOCH })
    } else if tlv::lookup(rs, request_tag::OPERATION_ID) is None {
        Err(FormatError::MissingField { tag: request_tag::OPERATION_ID })
    } else if tlv::lookup(rs, request_tag::EXPECTED_REVISION) is None {
        Err(FormatError::MissingField { tag: request_tag::EXPECTED_REVISION })
    } else if tlv::lookup(rs, request_tag::ISSUED_AT) is None {
        Err(FormatError::MissingField { tag: request_tag::ISSUED_AT })
    } else if tlv::lookup(rs, request_tag::EXPIRES_AT) is None {
        Err(FormatError::MissingField { tag: request_tag::EXPIRES_AT })
    } else if tlv::lookup(rs, request_tag::PAYLOAD) is None {
        Err(FormatError::MissingField { tag: request_tag::PAYLOAD })
    } else {
        match payload_of(
            tlv::lookup(rs, request_tag::PAYLOAD_KIND)->0[0],
            tlv::lookup(rs, request_tag::PAYLOAD)->0,
        ) {
            Err(e) => Err(e),
            Ok(payload) => Ok(
                RequestView {
                    tenant: decode_utf8(tlv::lookup(rs, request_tag::TENANT)->0),
                    authority_id: tlv::lookup(rs, request_tag::AUTHORITY_ID)->0,
                    epoch: bytes::num64(tlv::lookup(rs, request_tag::EPOCH)->0),
                    operation_id: tlv::lookup(rs, request_tag::OPERATION_ID)->0,
                    expected_revision: bytes::num64(
                        tlv::lookup(rs, request_tag::EXPECTED_REVISION)->0,
                    ),
                    issued_at: bytes::num64s(tlv::lookup(rs, request_tag::ISSUED_AT)->0),
                    expires_at: bytes::num64s(tlv::lookup(rs, request_tag::EXPIRES_AT)->0),
                    payload,
                },
            ),
        }
    }
}

/// The order that a body holds, in the one form that it has.
pub open spec fn request_of(body: Seq<u8>) -> Result<RequestView, FormatError> {
    match tlv::read(RequestSchema, body) {
        Err(e) => Err(e),
        Ok(rs) => match request_in(rs) {
            Err(e) => Err(e),
            Ok(q) => match request_bytes(q) {
                Err(e) => Err(e),
                Ok(written) => if written == tlv::wire(unknown::critical(rs)) {
                    Ok(q)
                } else {
                    Err(FormatError::BadFieldLength { tag: 0, len: body.len() as usize })
                },
            },
        },
    }
}

/// An optional field that is not known changes nothing in the order that is read.
pub proof fn request_reads_past_optional_fields(body: Seq<u8>)
    requires
        request_of(body) is Ok,
    ensures
        request_of(unknown::without_optional(body)) == request_of(body),
{
    unknown::optional_records_are_skipped(RequestSchema, body);
    unknown::kept_is_idempotent(tlv::read(RequestSchema, body)->Ok_0, Set::empty());
}

/// An order without a repeated address survives being written and read back.
pub proof fn request_round_trip(q: RequestView)
    requires
        q.sized(),
        q.payload.urls_are_distinct(),
        request_bytes(q) is Ok,
    ensures
        request_of(request_bytes(q)->Ok_0) == Ok::<RequestView, FormatError>(q),
{
    broadcast use {tlv::group_records, bytes::group_numbers};

    encode_utf8_valid_utf8(q.tenant);
    encode_utf8_decode_utf8(q.tenant);
    payload_round_trip(q.payload);
    let rs = q.recs(payload_bytes(q.payload)->Ok_0);
    all_critical(rs);
    tlv::read_wire(RequestSchema, rs);
}

proof fn payload_is_small(p: PayloadView)
    requires
        p.sized(),
        payload_bytes(p) is Ok,
    ensures
        payload_bytes(p)->Ok_0.len() <= 4096,
{
    broadcast use tlv::wire_len_push;

    match p {
        PayloadView::SetEndpoints { urls, pins } => {
            urls_wire_len(urls, 1);
            bytes::chunks_of_joined(pins, 32);
        },
        PayloadView::SetRoster { keys, threshold } => {
            bytes::chunks_of_joined(keys, KEY as nat);
        },
        PayloadView::Decommission { status, reason } => {
            text::utf8_len(reason);
        },
        _ => {},
    }
}

/// An order is far from the limit of a document.
proof fn request_is_small(q: RequestView)
    requires
        q.sized(),
        request_bytes(q) is Ok,
    ensures
        request_bytes(q)->Ok_0.len() <= 8192,
{
    broadcast use {tlv::wire_len_push, bytes::group_numbers};

    payload_is_small(q.payload);
}

/// An order that is read lives no longer than a day.
pub proof fn request_is_short_lived(body: Seq<u8>)
    requires
        request_of(body) is Ok,
    ensures
        ({
            let q = request_of(body)->Ok_0;
            0 < q.expires_at - q.issued_at <= MAX_REQUEST_LIFETIME
        }),
{
}

impl ControlRequest {
    /// The first objection to the order.
    fn check(&self) -> (r: Option<FormatError>)
        ensures
            r == self@.fault(),
    {
        if let Some(e) = check_tenant(request_tag::TENANT, self.tenant.as_str()) {
            return Some(e);
        }
        match self.expires_at.checked_sub(self.issued_at) {
            Some(life) => if life <= 0 || life > MAX_REQUEST_LIFETIME {
                Some(bad(request_tag::EXPIRES_AT, 8))
            } else {
                None
            },
            None => Some(bad(request_tag::EXPIRES_AT, 8)),
        }
    }

    /// The bytes of the order that are signed.
    pub fn body(&self) -> (r: Result<Vec<u8>, FormatError>)
        ensures
            tlv::agrees(r, request_bytes(self@)),
    {
        broadcast use {tlv::group_records, bytes::group_numbers};

        refuse(self.check())?;
        let payload = self.payload.encode()?;
        let mut w = TlvWriter::new();
        w.put(request_tag::VERSION, one(VERSION).as_slice())?;
        w.put(request_tag::TENANT, self.tenant.as_str().as_bytes())?;
        w.put(request_tag::AUTHORITY_ID, self.authority_id.as_slice())?;
        w.put(request_tag::EPOCH, write64(self.epoch).as_slice())?;
        w.put(request_tag::OPERATION_ID, self.operation_id.as_slice())?;
        w.put(request_tag::SCOPE, one(SCOPE_AUTHORITY).as_slice())?;
        w.put(request_tag::EXPECTED_REVISION, write64(self.expected_revision).as_slice())?;
        w.put(request_tag::ISSUED_AT, write64s(self.issued_at).as_slice())?;
        w.put(request_tag::EXPIRES_AT, write64s(self.expires_at).as_slice())?;
        w.put(request_tag::PAYLOAD_KIND, one(self.payload.kind()).as_slice())?;
        w.put(request_tag::PAYLOAD, payload.as_slice())?;
        Ok(w.finish())
    }

    /// What is signed of the order.
    pub fn transcript(&self) -> (r: Result<Transcript, FormatError>)
        ensures
            tlv::agrees(r, transcribed(Label::ControlRequest, request_bytes(self@))),
    {
        let body = self.body()?;
        Ok(Transcript::new(Label::ControlRequest, body.as_slice()))
    }

    /// Read the body of an order.
    fn decode_body(body: &[u8]) -> (r: Result<ControlRequest, FormatError>)
        ensures
            tlv::agrees(r, request_of(body@)),
    {
        let fs = read_fields(&RequestSchema, body)?;
        if !has_byte(&fs, request_tag::VERSION, VERSION) {
            return Err(bad(request_tag::VERSION, 1));
        }
        if !has_byte(&fs, request_tag::SCOPE, SCOPE_AUTHORITY) {
            return Err(bad(request_tag::SCOPE, 1));
        }
        let kind = need(&fs, request_tag::PAYLOAD_KIND)?;
        let tenant = need(&fs, request_tag::TENANT)?;
        let authority_id = need(&fs, request_tag::AUTHORITY_ID)?;
        let epoch = need(&fs, request_tag::EPOCH)?;
        let operation_id = need(&fs, request_tag::OPERATION_ID)?;
        let expected_revision = need(&fs, request_tag::EXPECTED_REVISION)?;
        let issued_at = need(&fs, request_tag::ISSUED_AT)?;
        let expires_at = need(&fs, request_tag::EXPIRES_AT)?;
        let payload = need(&fs, request_tag::PAYLOAD)?;
        let request = ControlRequest {
            tenant: utf8_text(tenant),
            authority_id: array(authority_id),
            epoch: read64(epoch),
            operation_id: array(operation_id),
            expected_revision: read64(expected_revision),
            issued_at: read64s(issued_at),
            expires_at: read64s(expires_at),
            payload: Payload::decode(kind[0], payload)?,
        };
        let written = request.body()?;
        if !same(written.as_slice(), strip(&fs).as_slice()) {
            return Err(bad(0, body.len()));
        }
        Ok(request)
    }
}

/// A signature over a body: the key, and what it signed.
pub type Signature = ([u8; KEY], [u8; SIG]);

/// What a signature over a body holds.
pub type SignatureView = (Seq<u8>, Seq<u8>);

/// What several signatures hold.
pub open spec fn signature_views(ss: Seq<Signature>) -> Seq<SignatureView> {
    ss.map_values(|s: Signature| (s.0@, s.1@))
}

/// The keys of several signatures.
pub open spec fn signers_of(ss: Seq<SignatureView>) -> Seq<Seq<u8>> {
    ss.map_values(|s: SignatureView| s.0)
}

/// The fields of fixed length have it.
pub open spec fn signatures_sized(ss: Seq<SignatureView>) -> bool {
    forall|i: int|
        0 <= i < ss.len() ==> (#[trigger] ss[i]).0.len() == KEY && ss[i].1.len() == SIG
}

/// A signature takes its place among others: behind all whose key does not stand
/// behind its own.
pub open spec fn placed(ss: Seq<SignatureView>, s: SignatureView) -> Seq<SignatureView>
    decreases ss.len(),
{
    if ss.len() > 0 && bytes::before(s.0, ss.last().0) {
        placed(ss.drop_last(), s).push(ss.last())
    } else {
        ss.push(s)
    }
}

/// Signatures in the order of their keys.
pub open spec fn in_order(ss: Seq<SignatureView>) -> Seq<SignatureView>
    decreases ss.len(),
{
    if ss.len() == 0 {
        Seq::empty()
    } else {
        placed(in_order(ss.drop_last()), ss.last())
    }
}

/// Signatures one behind the other.
pub open spec fn signatures_wire(ss: Seq<SignatureView>) -> Seq<u8>
    decreases ss.len(),
{
    if ss.len() == 0 {
        Seq::empty()
    } else {
        ss[0].0 + ss[0].1 + signatures_wire(ss.drop_first())
    }
}

/// A body behind the signatures over it: how many there are, and then each, in the
/// order of the keys. A key signs once.
pub open spec fn envelope(body: Seq<u8>, ss: Seq<SignatureView>) -> Result<Seq<u8>, FormatError> {
    if ss.len() == 0 || ss.len() > MAX_SIGNERS || !signers_of(ss).no_duplicates() {
        Err(FormatError::BadFieldLength { tag: 0, len: ss.len() as usize })
    } else {
        Ok(seq![ss.len() as u8] + signatures_wire(in_order(ss)) + body)
    }
}

/// So many signatures, and what stands behind them.
pub open spec fn signatures_in(b: Seq<u8>, n: nat) -> Result<
    (Seq<SignatureView>, Seq<u8>),
    FormatError,
>
    decreases n,
{
    if n == 0 {
        Ok((Seq::empty(), b))
    } else if b.len() < KEY {
        Err(FormatError::BadFieldLength { tag: 0, len: b.len() as usize })
    } else if b.len() - KEY < SIG {
        Err(FormatError::BadFieldLength { tag: 0, len: (b.len() - KEY) as usize })
    } else {
        match signatures_in(b.skip(KEY + SIG), (n - 1) as nat) {
            Err(e) => Err(e),
            Ok((ss, rest)) => Ok(
                (seq![(b.take(KEY as int), b.subrange(KEY as int, KEY + SIG))] + ss, rest),
            ),
        }
    }
}

/// The signatures and the body that the bytes hold. The keys ascend.
pub open spec fn enveloped(b: Seq<u8>) -> Result<(Seq<SignatureView>, Seq<u8>), FormatError> {
    if b.len() > MAX_DOCUMENT_LEN || b.len() == 0 {
        Err(FormatError::BadFieldLength { tag: 0, len: b.len() as usize })
    } else if b[0] == 0 || b[0] > MAX_SIGNERS {
        Err(FormatError::BadFieldLength { tag: 0, len: b[0] as usize })
    } else {
        match signatures_in(b.skip(1), b[0] as nat) {
            Err(e) => Err(e),
            Ok((ss, body)) => if keys_ascend(signers_of(ss)) {
                Ok((ss, body))
            } else {
                Err(FormatError::BadFieldLength { tag: 0, len: b[0] as usize })
            },
        }
    }
}

proof fn placed_at(ss: Seq<SignatureView>, s: SignatureView, k: int)
    requires
        0 <= k <= ss.len(),
        forall|j: int| k <= j < ss.len() ==> bytes::before(s.0, (#[trigger] ss[j]).0),
        k > 0 ==> !bytes::before(s.0, ss[k - 1].0),
    ensures
        placed(ss, s) == ss.insert(k, s),
    decreases ss.len(),
{
    if k < ss.len() {
        assert(bytes::before(s.0, ss[ss.len() - 1].0));
        let head = ss.drop_last();
        assert forall|j: int| k <= j < head.len() implies bytes::before(
            s.0,
            (#[trigger] head[j]).0,
        ) by {
            assert(bytes::before(s.0, ss[j].0));
        }
        placed_at(head, s, k);
        assert(head.insert(k, s).push(ss.last()) =~= ss.insert(k, s));
    } else {
        assert(ss.push(s) =~= ss.insert(k, s));
    }
}

/// Putting signatures in order neither adds nor drops one.
pub proof fn in_order_keeps_all(ss: Seq<SignatureView>)
    ensures
        in_order(ss).to_multiset() == ss.to_multiset(),
        in_order(ss).len() == ss.len(),
    decreases ss.len(),
{
    broadcast use vstd::seq_lib::group_to_multiset_ensures;

    if ss.len() == 0 {
        assert(ss =~= Seq::empty());
    } else {
        in_order_keeps_all(ss.drop_last());
        placed_keeps_all(in_order(ss.drop_last()), ss.last());
        assert(ss.drop_last().push(ss.last()) =~= ss);
    }
}

proof fn placed_keeps_all(ss: Seq<SignatureView>, s: SignatureView)
    ensures
        placed(ss, s).to_multiset() == ss.to_multiset().insert(s),
        placed(ss, s).len() == ss.len() + 1,
    decreases ss.len(),
{
    broadcast use vstd::seq_lib::group_to_multiset_ensures;

    if ss.len() > 0 && bytes::before(s.0, ss.last().0) {
        placed_keeps_all(ss.drop_last(), s);
        assert(ss.drop_last().push(ss.last()) =~= ss);
        assert(placed(ss, s).to_multiset() =~= ss.to_multiset().insert(s));
    }
}

/// Of two keys of the same length, one is the other or stands before it.
proof fn keys_compare(a: Seq<u8>, b: Seq<u8>, i: int)
    requires
        a.len() == b.len(),
        0 <= i <= a.len(),
        a.subrange(0, i) == b.subrange(0, i),
    ensures
        a == b || bytes::before(a, b) || bytes::before(b, a),
    decreases a.len() - i,
{
    if i == a.len() {
        assert(a.subrange(0, i) =~= a);
        assert(b.subrange(0, i) =~= b);
    } else if a[i] == b[i] {
        assert(a.subrange(0, i + 1) =~= a.subrange(0, i).push(a[i]));
        assert(b.subrange(0, i + 1) =~= b.subrange(0, i).push(b[i]));
        keys_compare(a, b, i + 1);
    } else {
        assert(bytes::differ_first_at(a, b, i));
        assert(bytes::differ_first_at(b, a, i));
    }
}

proof fn placed_ascends(ss: Seq<SignatureView>, s: SignatureView)
    requires
        keys_ascend(signers_of(ss)),
        !signers_of(ss).contains(s.0),
        s.0.len() == KEY,
        forall|i: int| 0 <= i < ss.len() ==> (#[trigger] ss[i]).0.len() == KEY,
    ensures
        keys_ascend(signers_of(placed(ss, s))),
        placed(ss, s).last() == s || (ss.len() > 0 && placed(ss, s).last() == ss.last()),
        placed(ss, s).len() == ss.len() + 1,
    decreases ss.len(),
{
    let keys = signers_of(ss);
    if ss.len() > 0 && bytes::before(s.0, ss.last().0) {
        let head = ss.drop_last();
        let head_keys = signers_of(head);
        assert forall|i: int| 0 <= i < head_keys.len() - 1 implies #[trigger] step_up(
            head_keys,
            i,
        ) by {
            assert(step_up(keys, i));
        }
        assert(!head_keys.contains(s.0)) by {
            if head_keys.contains(s.0) {
                let j = choose|j: int| 0 <= j < head_keys.len() && head_keys[j] == s.0;
                assert(keys[j] == s.0);
            }
        }
        assert forall|i: int| 0 <= i < head.len() implies (#[trigger] head[i]).0.len() == KEY by {
            assert(ss[i].0.len() == KEY);
        }
        placed_ascends(head, s);
        let inner = placed(head, s);
        let out = placed(ss, s);
        assert forall|i: int| 0 <= i < signers_of(out).len() - 1 implies #[trigger] step_up(
            signers_of(out),
            i,
        ) by {
            if i < inner.len() - 1 {
                assert(step_up(signers_of(inner), i));
            } else if inner.last() != s {
                assert(step_up(keys, head.len() - 1));
            }
        }
    } else {
        let out = ss.push(s);
        assert forall|i: int| 0 <= i < signers_of(out).len() - 1 implies #[trigger] step_up(
            signers_of(out),
            i,
        ) by {
            if i < ss.len() - 1 {
                assert(step_up(keys, i));
            } else {
                assert(keys[ss.len() - 1] == ss.last().0);
                assert(ss[ss.len() - 1].0.len() == KEY);
                assert(ss.last().0.subrange(0, 0) =~= s.0.subrange(0, 0));
                keys_compare(ss.last().0, s.0, 0);
            }
        }
    }
}

/// Signatures in order have ascending keys, where no key signs twice.
pub proof fn in_order_ascends(ss: Seq<SignatureView>)
    requires
        signatures_sized(ss),
        signers_of(ss).no_duplicates(),
    ensures
        keys_ascend(signers_of(in_order(ss))),
        signatures_sized(in_order(ss)),
    decreases ss.len(),
{
    if ss.len() > 0 {
        let head = ss.drop_last();
        assert forall|i: int| 0 <= i < head.len() implies (#[trigger] head[i]).0.len() == KEY
            && head[i].1.len() == SIG by {
            assert(ss[i].0.len() == KEY);
        }
        let keys = signers_of(ss);
        assert forall|i: int, j: int|
            0 <= i < head.len() && 0 <= j < head.len() && i != j implies signers_of(head)[i]
            != signers_of(head)[j] by {
            assert(keys[i] != keys[j]);
        }
        in_order_ascends(head);
        let sorted = in_order(head);
        in_order_keeps_all(head);
        assert(!signers_of(sorted).contains(ss.last().0)) by {
            broadcast use vstd::seq_lib::group_to_multiset_ensures;

            if signers_of(sorted).contains(ss.last().0) {
                let j = choose|j: int|
                    0 <= j < signers_of(sorted).len() && signers_of(sorted)[j] == ss.last().0;
                assert(sorted.contains(sorted[j]));
                assert(head.to_multiset().count(sorted[j]) > 0);
                assert(head.contains(sorted[j]));
                let k = choose|k: int| 0 <= k < head.len() && head[k] == sorted[j];
                assert(keys[k] == keys[ss.len() - 1]);
            }
        }
        assert forall|i: int| 0 <= i < sorted.len() implies (#[trigger] sorted[i]).0.len()
            == KEY by {}
        assert(ss[ss.len() - 1].0.len() == KEY);
        placed_ascends(sorted, ss.last());
        placed_sized(sorted, ss.last());
    }
}

proof fn placed_sized(ss: Seq<SignatureView>, s: SignatureView)
    requires
        signatures_sized(ss),
        s.0.len() == KEY,
        s.1.len() == SIG,
    ensures
        signatures_sized(placed(ss, s)),
    decreases ss.len(),
{
    if ss.len() > 0 && bytes::before(s.0, ss.last().0) {
        let head = ss.drop_last();
        assert forall|i: int| 0 <= i < head.len() implies (#[trigger] head[i]).0.len() == KEY
            && head[i].1.len() == SIG by {
            assert(ss[i].0.len() == KEY);
        }
        placed_sized(head, s);
        assert(ss[ss.len() - 1].0.len() == KEY);
    }
}

/// Signatures whose keys ascend are in order.
pub proof fn ascending_is_in_order(ss: Seq<SignatureView>)
    requires
        keys_ascend(signers_of(ss)),
    ensures
        in_order(ss) == ss,
    decreases ss.len(),
{
    if ss.len() > 0 {
        let head = ss.drop_last();
        let keys = signers_of(ss);
        assert forall|i: int| 0 <= i < signers_of(head).len() - 1 implies #[trigger] step_up(
            signers_of(head),
            i,
        ) by {
            assert(step_up(keys, i));
        }
        ascending_is_in_order(head);
        if head.len() > 0 {
            assert(step_up(keys, head.len() - 1));
            if bytes::before(ss.last().0, head.last().0) {
                bytes::before_is_transitive(head.last().0, ss.last().0, head.last().0);
                bytes::before_is_irreflexive(head.last().0);
            }
        }
        assert(head.push(ss.last()) =~= ss);
    } else {
        assert(ss =~= Seq::empty());
    }
}

proof fn signatures_in_wire(ss: Seq<SignatureView>, body: Seq<u8>)
    requires
        signatures_sized(ss),
    ensures
        signatures_in(signatures_wire(ss) + body, ss.len()) == Ok::<
            (Seq<SignatureView>, Seq<u8>),
            FormatError,
        >((ss, body)),
        signatures_wire(ss).len() == 96 * ss.len(),
    decreases ss.len(),
{
    if ss.len() == 0 {
        assert(signatures_wire(ss) + body =~= body);
        assert(ss =~= Seq::empty());
    } else {
        let rest = ss.drop_first();
        assert(ss[0].0.len() == KEY);
        assert forall|i: int| 0 <= i < rest.len() implies (#[trigger] rest[i]).0.len() == KEY
            && rest[i].1.len() == SIG by {
            assert(ss[i + 1].0.len() == KEY);
        }
        signatures_in_wire(rest, body);
        let b = signatures_wire(ss) + body;
        assert(b.take(KEY as int) =~= ss[0].0);
        assert(b.subrange(KEY as int, KEY + SIG) =~= ss[0].1);
        assert(b.skip(KEY + SIG) =~= signatures_wire(rest) + body);
        assert(seq![(ss[0].0, ss[0].1)] + rest =~= ss);
    }
}

/// A body and the signatures over it survive being put into an envelope and taken out
/// again; the signatures come out in the order of their keys.
pub proof fn envelope_round_trip(body: Seq<u8>, ss: Seq<SignatureView>)
    requires
        signatures_sized(ss),
        envelope(body, ss) is Ok,
        envelope(body, ss)->Ok_0.len() <= MAX_DOCUMENT_LEN,
    ensures
        enveloped(envelope(body, ss)->Ok_0) == Ok::<(Seq<SignatureView>, Seq<u8>), FormatError>(
            (in_order(ss), body),
        ),
{
    in_order_ascends(ss);
    in_order_keeps_all(ss);
    signatures_in_wire(in_order(ss), body);
    let b = envelope(body, ss)->Ok_0;
    assert(b.skip(1) =~= signatures_wire(in_order(ss)) + body);
}

/// Some key signs twice.
fn has_twins(ss: &Vec<Signature>) -> (r: bool)
    ensures
        r == !signers_of(signature_views(ss@)).no_duplicates(),
{
    let ghost keys = signers_of(signature_views(ss@));
    let mut i: usize = 0;
    while i < ss.len()
        invariant
            i <= ss@.len(),
            keys == signers_of(signature_views(ss@)),
            forall|a: int, b: int| 0 <= a < b < i ==> keys[a] != keys[b],
        decreases ss@.len() - i,
    {
        let mut j: usize = 0;
        while j < i
            invariant
                j <= i < ss@.len(),
                keys == signers_of(signature_views(ss@)),
                forall|a: int| 0 <= a < j ==> keys[a] != keys[i as int],
            decreases i - j,
        {
            assert(keys[j as int] == ss@[j as int].0@);
            assert(keys[i as int] == ss@[i as int].0@);
            if same(ss[j].0.as_slice(), ss[i].0.as_slice()) {
                return true;
            }
            j = j + 1;
        }
        i = i + 1;
    }
    false
}

/// Put a signature into its place among others.
fn place(ss: &mut Vec<Signature>, s: Signature)
    ensures
        signature_views(final(ss)@) == placed(signature_views(old(ss)@), (s.0@, s.1@)),
{
    let ghost all = signature_views(ss@);
    let ghost view: SignatureView = (s.0@, s.1@);
    let mut k: usize = ss.len();
    while k > 0 && is_before(s.0.as_slice(), ss[k - 1].0.as_slice())
        invariant
            k <= ss@.len(),
            all == signature_views(ss@),
            view == (s.0@, s.1@),
            ss@ == old(ss)@,
            forall|j: int| k <= j < all.len() ==> bytes::before(view.0, (#[trigger] all[j]).0),
        decreases k,
    {
        assert(all[k - 1].0 == ss@[k - 1].0@);
        k = k - 1;
    }
    proof {
        if k > 0 {
            assert(all[k - 1].0 == ss@[k - 1].0@);
        }
        placed_at(all, view, k as int);
    }
    ss.insert(k, s);
    assert(signature_views(ss@) =~= all.insert(k as int, view));
}

/// Put a body behind the signatures over it.
pub fn assemble(body: &[u8], signatures: &Vec<Signature>) -> (r: Result<Vec<u8>, FormatError>)
    ensures
        tlv::agrees(r, envelope(body@, signature_views(signatures@))),
{
    let ghost all = signature_views(signatures@);
    let n: usize = signatures.len();
    if n == 0 || n > MAX_SIGNERS || has_twins(signatures) {
        return Err(bad(0, n));
    }
    let mut sorted: Vec<Signature> = Vec::new();
    let mut i: usize = 0;
    assert(all.take(0) =~= Seq::empty());
    assert(signature_views(sorted@) =~= Seq::empty());
    while i < n
        invariant
            i <= n,
            n == signatures@.len(),
            all == signature_views(signatures@),
            signature_views(sorted@) == in_order(all.take(i as int)),
        decreases n - i,
    {
        proof {
            let head = all.take(i as int + 1);
            assert(head.drop_last() =~= all.take(i as int));
            assert(head.last() == (signatures@[i as int].0@, signatures@[i as int].1@));
        }
        place(&mut sorted, signatures[i]);
        i = i + 1;
    }
    let ghost ordered = in_order(all);
    proof {
        assert(all.take(n as int) =~= all);
        in_order_keeps_all(all);
        assert(signature_views(sorted@).len() == sorted@.len());
        assert(ordered.skip(0) =~= ordered);
    }
    let mut out = one(n as u8);
    assert(out@ + signatures_wire(ordered) =~= seq![n as u8] + signatures_wire(ordered));
    i = 0;
    while i < n
        invariant
            i <= n,
            n == sorted@.len(),
            ordered == signature_views(sorted@),
            seq![n as u8] + signatures_wire(ordered)
                == out@ + signatures_wire(ordered.skip(i as int)),
        decreases n - i,
    {
        let ghost prior = out@;
        let ghost rest = ordered.skip(i as int);
        proof {
            assert(rest[0] == (sorted@[i as int].0@, sorted@[i as int].1@));
            assert(rest.drop_first() =~= ordered.skip(i as int + 1));
        }
        append(&mut out, sorted[i].0.as_slice());
        append(&mut out, sorted[i].1.as_slice());
        assert(out@ + signatures_wire(rest.drop_first()) =~= prior + signatures_wire(rest));
        i = i + 1;
    }
    proof {
        assert(ordered.skip(n as int) =~= Seq::empty());
        assert(out@ + Seq::<u8>::empty() =~= out@);
    }
    append(&mut out, body);
    Ok(out)
}

/// The keys of the signatures.
fn keys_in(ss: &Vec<Signature>) -> (r: Vec<[u8; KEY]>)
    ensures
        bytes::arrays(r@) == signers_of(signature_views(ss@)),
{
    let mut out: Vec<[u8; KEY]> = Vec::new();
    let mut i: usize = 0;
    while i < ss.len()
        invariant
            i <= ss@.len(),
            out@.len() == i,
            forall|j: int| 0 <= j < i ==> (#[trigger] out@[j])@ == ss@[j].0@,
        decreases ss@.len() - i,
    {
        out.push(ss[i].0);
        i = i + 1;
    }
    assert(bytes::arrays(out@) =~= signers_of(signature_views(ss@)));
    out
}

/// The signatures and the body in an envelope.
pub fn split_request(bytes: &[u8]) -> (r: Result<(Vec<Signature>, &[u8]), FormatError>)
    ensures
        match r {
            Ok((ss, body)) => enveloped(bytes@) == Ok::<
                (Seq<SignatureView>, Seq<u8>),
                FormatError,
            >((signature_views(ss@), body@)),
            Err(e) => enveloped(bytes@) == Err::<(Seq<SignatureView>, Seq<u8>), FormatError>(e),
        },
{
    if bytes.len() > MAX_DOCUMENT_LEN || bytes.len() == 0 {
        return Err(bad(0, bytes.len()));
    }
    let count: usize = bytes[0] as usize;
    if count == 0 || count > MAX_SIGNERS {
        return Err(bad(0, count));
    }
    let mut ss: Vec<Signature> = Vec::new();
    let mut rest = part(bytes, 1, bytes.len());
    let ghost whole = signatures_in(bytes@.skip(1), count as nat);
    proof {
        assert(rest@ =~= bytes@.skip(1));
        if whole is Ok {
            assert(signature_views(ss@) + whole->Ok_0.0 =~= whole->Ok_0.0);
        }
    }
    let mut i: usize = 0;
    while i < count
        invariant
            i <= count,
            0 < count <= MAX_SIGNERS,
            0 < bytes@.len() <= MAX_DOCUMENT_LEN,
            count == bytes@[0],
            whole == signatures_in(bytes@.skip(1), count as nat),
            ss@.len() == i,
            match signatures_in(rest@, (count - i) as nat) {
                Ok((more, body)) => whole == Ok::<(Seq<SignatureView>, Seq<u8>), FormatError>(
                    (signature_views(ss@) + more, body),
                ),
                Err(e) => whole == Err::<(Seq<SignatureView>, Seq<u8>), FormatError>(e),
            },
        decreases count - i,
    {
        if rest.len() < KEY {
            return Err(bad(0, rest.len()));
        }
        if rest.len() - KEY < SIG {
            return Err(bad(0, rest.len() - KEY));
        }
        let key = part(rest, 0, KEY);
        let signature = part(rest, KEY, KEY + SIG);
        let tail = part(rest, KEY + SIG, rest.len());
        let ghost prior = signature_views(ss@);
        let s: Signature = (array(key), array(signature));
        ss.push(s);
        proof {
            assert(key@ =~= rest@.take(KEY as int));
            assert(tail@ =~= rest@.skip(KEY + SIG));
            assert(signature_views(ss@) =~= prior.push((key@, signature@)));
            let later = signatures_in(tail@, (count - i - 1) as nat);
            if later is Ok {
                let more = later->Ok_0.0;
                assert(prior + (seq![(key@, signature@)] + more) =~= signature_views(ss@) + more);
            }
        }
        rest = tail;
        i = i + 1;
    }
    assert(signature_views(ss@) + Seq::<SignatureView>::empty() =~= signature_views(ss@));
    let keys = keys_in(&ss);
    if !do_keys_ascend(&keys) {
        return Err(bad(0, count));
    }
    Ok((ss, rest))
}

/// What several claims say.
pub open spec fn claim_views(cs: Seq<Claim>) -> Seq<ClaimView> {
    cs.map_values(|c: Claim| c@)
}

/// The signatures in an envelope that are to be checked, each under the key beside it and
/// all over the same body.
pub open spec fn claims_in(label: Label, b: Seq<u8>) -> Result<Seq<ClaimView>, FormatError> {
    match enveloped(b) {
        Err(e) => Err(e),
        Ok((ss, body)) => Ok(
            ss.map_values(
                |s: SignatureView|
                    ClaimView {
                        key: s.0,
                        transcript: TranscriptView { label, body },
                        signature: s.1,
                    },
            ),
        ),
    }
}

/// The signatures in an envelope that are to be checked.
fn envelope_claims(label: Label, bytes: &[u8]) -> (r: Result<Vec<Claim>, FormatError>)
    ensures
        match r {
            Ok(cs) => claims_in(label, bytes@) == Ok::<Seq<ClaimView>, FormatError>(
                claim_views(cs@),
            ),
            Err(e) => claims_in(label, bytes@) == Err::<Seq<ClaimView>, FormatError>(e),
        },
{
    let (ss, body) = split_request(bytes)?;
    let mut out: Vec<Claim> = Vec::new();
    let mut i: usize = 0;
    while i < ss.len()
        invariant
            i <= ss@.len(),
            out@.len() == i,
            forall|j: int|
                0 <= j < i ==> (#[trigger] out@[j])@ == (ClaimView {
                    key: ss@[j].0@,
                    transcript: TranscriptView { label, body: body@ },
                    signature: ss@[j].1@,
                }),
        decreases ss@.len() - i,
    {
        let (key, signature) = ss[i];
        out.push(Claim { key, transcript: Transcript::new(label, body), signature });
        i = i + 1;
    }
    assert(claim_views(out@) =~= claims_in(label, bytes@)->Ok_0);
    Ok(out)
}

/// The signatures that are to be checked before an order is read, in the order of the
/// envelope.
pub fn request_claims(bytes: &[u8]) -> (r: Result<Vec<Claim>, FormatError>)
    ensures
        match r {
            Ok(cs) => claims_in(Label::ControlRequest, bytes@) == Ok::<Seq<ClaimView>, FormatError>(
                claim_views(cs@),
            ),
            Err(e) => claims_in(Label::ControlRequest, bytes@) == Err::<
                Seq<ClaimView>,
                FormatError,
            >(e),
        },
{
    envelope_claims(Label::ControlRequest, bytes)
}

/// The signatures that are to be checked before a transfer is read, in the order of the
/// envelope.
pub fn transfer_claims(bytes: &[u8]) -> (r: Result<Vec<Claim>, FormatError>)
    ensures
        match r {
            Ok(cs) => claims_in(Label::AuthorityTransfer, bytes@) == Ok::<
                Seq<ClaimView>,
                FormatError,
            >(claim_views(cs@)),
            Err(e) => claims_in(Label::AuthorityTransfer, bytes@) == Err::<
                Seq<ClaimView>,
                FormatError,
            >(e),
        },
{
    envelope_claims(Label::AuthorityTransfer, bytes)
}

/// Each of so many signatures holds.
pub open spec fn all_hold(held: Seq<bool>, n: nat) -> bool {
    held.len() >= n && forall|i: int| 0 <= i < n ==> #[trigger] held[i]
}

/// Each of so many signatures holds.
fn do_all_hold(held: &[bool], n: usize) -> (r: bool)
    ensures
        r == all_hold(held@, n as nat),
{
    if held.len() < n {
        return false;
    }
    let mut i: usize = 0;
    while i < n
        invariant
            i <= n <= held@.len(),
            forall|j: int| 0 <= j < i ==> #[trigger] held@[j],
        decreases n - i,
    {
        if !held[i] {
            assert(!held@[i as int]);
            return false;
        }
        i = i + 1;
    }
    true
}

/// An order whose signatures were checked.
#[derive(Debug, Clone, PartialEq, Eq)]
pub struct SignedRequest {
    pub request: ControlRequest,
    /// The hash of the body, the same for all who signed it.
    pub body_hash: [u8; 32],
    /// Who signed, ascending.
    pub signers: Vec<[u8; KEY]>,
}

/// What a signed order says.
pub struct SignedRequestView {
    pub request: RequestView,
    pub body_hash: Seq<u8>,
    pub signers: Seq<Seq<u8>>,
}

impl View for SignedRequest {
    type V = SignedRequestView;

    open spec fn view(&self) -> SignedRequestView {
        SignedRequestView {
            request: self.request@,
            body_hash: self.body_hash@,
            signers: bytes::arrays(self.signers@),
        }
    }
}

/// The order in an envelope, and who signed it. Every signature holds, and nothing is
/// read of a body before that is known.
pub open spec fn opened_request(b: Seq<u8>, held: Seq<bool>, body_hash: Seq<u8>) -> Result<
    SignedRequestView,
    FormatError,
> {
    match enveloped(b) {
        Err(e) => Err(e),
        Ok((ss, body)) => if !all_hold(held, ss.len()) {
            Err(FormatError::BadHeaderSignature)
        } else {
            match request_of(body) {
                Err(e) => Err(e),
                Ok(request) => Ok(
                    SignedRequestView { request, body_hash, signers: signers_of(ss) },
                ),
            }
        },
    }
}

/// The envelope with one more signature over the same body. The signer has not signed
/// before; `unreadable` is what the reader of the body has against it.
pub open spec fn cosigned(
    ss: Seq<SignatureView>,
    body: Seq<u8>,
    held: Seq<bool>,
    unreadable: Option<FormatError>,
    key: Seq<u8>,
    signature: Option<Seq<u8>>,
) -> Result<Seq<u8>, FormatError> {
    if !all_hold(held, ss.len()) {
        Err(FormatError::BadHeaderSignature)
    } else if unreadable is Some {
        Err(unreadable->0)
    } else if signers_of(ss).contains(key) {
        Err(FormatError::BadFieldLength { tag: 0, len: ss.len() as usize })
    } else {
        match signature {
            None => Err(FormatError::BadHeaderSignature),
            Some(s) => envelope(body, ss.push((key, s))),
        }
    }
}

/// The envelope of an order with one more signature.
pub open spec fn cosigned_request(
    b: Seq<u8>,
    held: Seq<bool>,
    key: Seq<u8>,
    signature: Option<Seq<u8>>,
) -> Result<Seq<u8>, FormatError> {
    match enveloped(b) {
        Err(e) => Err(e),
        Ok((ss, body)) => cosigned(
            ss,
            body,
            held,
            match request_of(body) {
                Err(e) => Some(e),
                Ok(_) => None,
            },
            key,
            signature,
        ),
    }
}

/// An order that was opened was signed by someone, each signature holds, and no key
/// signed twice.
pub proof fn opened_request_is_signed(b: Seq<u8>, held: Seq<bool>, body_hash: Seq<u8>)
    requires
        opened_request(b, held, body_hash) is Ok,
    ensures
        ({
            let signers = opened_request(b, held, body_hash)->Ok_0.signers;
            &&& 0 < signers.len() <= MAX_SIGNERS
            &&& all_hold(held, signers.len())
            &&& signers.no_duplicates()
        }),
{
    let (ss, body) = enveloped(b)->Ok_0;
    signatures_in_counts(b.skip(1), b[0] as nat);
    no_key_twice(signers_of(ss));
}

/// An order that was opened was read from the very body that each signature was checked
/// over, and its signers are the keys that were checked.
pub proof fn request_is_read_from_what_was_signed(b: Seq<u8>, held: Seq<bool>, body_hash: Seq<u8>)
    requires
        opened_request(b, held, body_hash) is Ok,
    ensures
        claims_in(Label::ControlRequest, b) is Ok,
        ({
            let claims = claims_in(Label::ControlRequest, b)->Ok_0;
            let opened = opened_request(b, held, body_hash)->Ok_0;
            &&& opened.signers == claims.map_values(|c: ClaimView| c.key)
            &&& forall|i: int|
                0 <= i < claims.len()
                    ==> request_of((#[trigger] claims[i]).transcript.body) == Ok::<
                    RequestView,
                    FormatError,
                >(opened.request)
        }),
{
    let claims = claims_in(Label::ControlRequest, b)->Ok_0;
    assert(opened_request(b, held, body_hash)->Ok_0.signers =~= claims.map_values(
        |c: ClaimView| c.key,
    ));
}

/// One signature that does not hold is enough: the request is refused, whatever its body.
pub proof fn a_broken_signature_refuses_the_request(
    b: Seq<u8>,
    held: Seq<bool>,
    body_hash: Seq<u8>,
    i: int,
)
    requires
        enveloped(b) is Ok,
        0 <= i < enveloped(b)->Ok_0.0.len(),
        i < held.len(),
        !held[i],
    ensures
        opened_request(b, held, body_hash) == Err::<SignedRequestView, FormatError>(
            FormatError::BadHeaderSignature,
        ),
{
}

proof fn signatures_in_counts(b: Seq<u8>, n: nat)
    requires
        signatures_in(b, n) is Ok,
    ensures
        ({
            let (ss, rest) = signatures_in(b, n)->Ok_0;
            ss.len() == n && signatures_sized(ss)
        }),
    decreases n,
{
    if n > 0 {
        signatures_in_counts(b.skip(KEY + SIG), (n - 1) as nat);
    }
}

/// An order that one key signed is opened again, where the signature holds.
pub proof fn signed_request_opens(
    q: RequestView,
    key: Seq<u8>,
    signature: Seq<u8>,
    body_hash: Seq<u8>,
)
    requires
        q.sized(),
        q.payload.urls_are_distinct(),
        key.len() == KEY,
        signature.len() == SIG,
        request_bytes(q) is Ok,
    ensures
        opened_request(
            first_signed(request_bytes(q), key, Some(signature))->Ok_0,
            seq![true],
            body_hash,
        ) == Ok::<SignedRequestView, FormatError>(
            SignedRequestView { request: q, body_hash, signers: seq![key] },
        ),
{
    let ss = seq![(key, signature)];
    assert(signers_of(ss) =~= seq![key]);
    assert(ss.drop_last() =~= Seq::<SignatureView>::empty());
    assert(in_order(ss) =~= ss) by {
        reveal_with_fuel(in_order, 2);
    }
    request_round_trip(q);
    request_is_small(q);
    signatures_in_wire(ss, request_bytes(q)->Ok_0);
    envelope_round_trip(request_bytes(q)->Ok_0, ss);
}

/// One more signature leaves the body as it is and adds one signer.
proof fn cosigned_envelope(
    b: Seq<u8>,
    held: Seq<bool>,
    unreadable: Option<FormatError>,
    key: Seq<u8>,
    signature: Seq<u8>,
)
    requires
        enveloped(b) is Ok,
        key.len() == KEY,
        signature.len() == SIG,
        b.len() + 96 <= MAX_DOCUMENT_LEN,
        ({
            let (ss, body) = enveloped(b)->Ok_0;
            cosigned(ss, body, held, unreadable, key, Some(signature)) is Ok
        }),
    ensures
        ({
            let (ss, body) = enveloped(b)->Ok_0;
            let more = cosigned(ss, body, held, unreadable, key, Some(signature))->Ok_0;
            &&& enveloped(more) == Ok::<(Seq<SignatureView>, Seq<u8>), FormatError>(
                (placed(ss, (key, signature)), body),
            )
            &&& placed(ss, (key, signature)).to_multiset() == ss.to_multiset().insert(
                (key, signature),
            )
            &&& placed(ss, (key, signature)).len() == ss.len() + 1
        }),
{
    let (ss, body) = enveloped(b)->Ok_0;
    let s = (key, signature);
    signatures_in_counts(b.skip(1), b[0] as nat);
    signatures_in_splits(b.skip(1), b[0] as nat);
    let all = ss.push(s);
    assert forall|i: int| 0 <= i < all.len() implies (#[trigger] all[i]).0.len() == KEY
        && all[i].1.len() == SIG by {
        if i < ss.len() {
            assert(ss[i].0.len() == KEY);
        }
    }
    assert(all.drop_last() =~= ss);
    ascending_is_in_order(ss);
    placed_keeps_all(ss, s);
    in_order_ascends(all);
    signatures_in_wire(ss, body);
    signatures_in_wire(in_order(all), body);
    envelope_round_trip(body, all);
}

/// Who signs an order after others adds one signature, in its place among them, and
/// changes nothing else: the order that is opened stays the same.
pub proof fn cosigning_keeps_the_request(
    b: Seq<u8>,
    held: Seq<bool>,
    key: Seq<u8>,
    signature: Seq<u8>,
    held_then: Seq<bool>,
    body_hash: Seq<u8>,
)
    requires
        key.len() == KEY,
        signature.len() == SIG,
        cosigned_request(b, held, key, Some(signature)) is Ok,
        b.len() + 96 <= MAX_DOCUMENT_LEN,
        ({
            let (ss, body) = enveloped(b)->Ok_0;
            all_hold(held_then, ss.len() + 1)
        }),
    ensures
        ({
            let (ss, body) = enveloped(b)->Ok_0;
            let more = cosigned_request(b, held, key, Some(signature))->Ok_0;
            &&& placed(ss, (key, signature)).to_multiset() == ss.to_multiset().insert(
                (key, signature),
            )
            &&& opened_request(more, held_then, body_hash) == Ok::<SignedRequestView, FormatError>(
                SignedRequestView {
                    request: opened_request(b, held, body_hash)->Ok_0.request,
                    body_hash,
                    signers: signers_of(placed(ss, (key, signature))),
                },
            )
        }),
{
    cosigned_envelope(b, held, None, key, signature);
}

proof fn signatures_in_splits(b: Seq<u8>, n: nat)
    requires
        signatures_in(b, n) is Ok,
    ensures
        ({
            let (ss, rest) = signatures_in(b, n)->Ok_0;
            b == signatures_wire(ss) + rest
        }),
    decreases n,
{
    if n == 0 {
        assert(Seq::<u8>::empty() + b =~= b);
    } else {
        let tail = b.skip(KEY + SIG);
        signatures_in_splits(tail, (n - 1) as nat);
        let (more, rest) = signatures_in(tail, (n - 1) as nat)->Ok_0;
        let (ss, _) = signatures_in(b, n)->Ok_0;
        assert(ss.drop_first() =~= more);
        assert(b =~= b.take(KEY as int) + b.subrange(KEY as int, KEY + SIG) + tail);
        assert(b =~= signatures_wire(ss) + rest);
    }
}

impl ControlRequest {
    /// Write the order with its first signature: the key of the signer, and what it
    /// made over [`ControlRequest::transcript`], if it made one.
    pub fn sign(&self, key: [u8; KEY], signature: Option<[u8; SIG]>) -> (r: Result<
        Vec<u8>,
        FormatError,
    >)
        ensures
            tlv::agrees(r, first_signed(request_bytes(self@), key@, bytes::opt_array(signature))),
    {
        let body = self.body()?;
        seal_first(body, key, signature)
    }
}

/// A body behind its first signature.
pub open spec fn first_signed(
    body: Result<Seq<u8>, FormatError>,
    key: Seq<u8>,
    signature: Option<Seq<u8>>,
) -> Result<Seq<u8>, FormatError> {
    match body {
        Err(e) => Err(e),
        Ok(body) => match signature {
            None => Err(FormatError::BadHeaderSignature),
            Some(s) => envelope(body, seq![(key, s)]),
        },
    }
}

/// A body behind its first signature.
fn seal_first(body: Vec<u8>, key: [u8; KEY], signature: Option<[u8; SIG]>) -> (r: Result<
    Vec<u8>,
    FormatError,
>)
    ensures
        tlv::agrees(r, first_signed(Ok(body@), key@, bytes::opt_array(signature))),
{
    match signature {
        None => Err(FormatError::BadHeaderSignature),
        Some(s) => {
            let mut ss: Vec<Signature> = Vec::new();
            ss.push((key, s));
            assert(signature_views(ss@) =~= seq![(key@, s@)]);
            assemble(body.as_slice(), &ss)
        },
    }
}

/// One more signature.
fn seal_again(
    signatures: Vec<Signature>,
    body: &[u8],
    key: [u8; KEY],
    signature: Option<[u8; SIG]>,
) -> (r: Result<Vec<u8>, FormatError>)
    ensures
        tlv::agrees(
            r,
            cosigned(
                signature_views(signatures@),
                body@,
                Seq::new(signatures@.len(), |i: int| true),
                None,
                key@,
                bytes::opt_array(signature),
            ),
        ),
{
    let mut ss = signatures;
    let ghost all = signature_views(ss@);
    let keys = keys_in(&ss);
    if has_key(&keys, &key) {
        return Err(bad(0, ss.len()));
    }
    match signature {
        None => Err(FormatError::BadHeaderSignature),
        Some(s) => {
            ss.push((key, s));
            assert(signature_views(ss@) =~= all.push((key@, s@)));
            assemble(body, &ss)
        },
    }
}

/// The list holds the key.
fn has_key(keys: &Vec<[u8; KEY]>, key: &[u8; KEY]) -> (r: bool)
    ensures
        r == bytes::arrays(keys@).contains(key@),
{
    let ghost all = bytes::arrays(keys@);
    let mut i: usize = 0;
    while i < keys.len()
        invariant
            i <= keys@.len(),
            all == bytes::arrays(keys@),
            forall|j: int| 0 <= j < i ==> #[trigger] all[j] != key@,
        decreases keys@.len() - i,
    {
        assert(all[i as int] == keys@[i as int]@);
        if same(keys[i].as_slice(), key.as_slice()) {
            return true;
        }
        i = i + 1;
    }
    false
}

/// Read an order whose signatures hold. `held` says of each signature in the envelope
/// (see [`request_claims`]) whether it holds under the key beside it; `body_hash` is the
/// hash of the body. Who may sign is for the server to decide.
pub fn open_request(bytes: &[u8], held: &[bool], body_hash: [u8; 32]) -> (r: Result<
    SignedRequest,
    FormatError,
>)
    ensures
        tlv::agrees(r, opened_request(bytes@, held@, body_hash@)),
{
    let (signatures, body) = split_request(bytes)?;
    if !do_all_hold(held, signatures.len()) {
        return Err(FormatError::BadHeaderSignature);
    }
    let request = ControlRequest::decode_body(body)?;
    Ok(SignedRequest { request, body_hash, signers: keys_in(&signatures) })
}

/// Add the signature of one more controller over the same body.
pub fn cosign(bytes: &[u8], held: &[bool], key: [u8; KEY], signature: Option<[u8; SIG]>) -> (r:
    Result<Vec<u8>, FormatError>)
    ensures
        tlv::agrees(r, cosigned_request(bytes@, held@, key@, bytes::opt_array(signature))),
{
    let (signatures, body) = split_request(bytes)?;
    if !do_all_hold(held, signatures.len()) {
        return Err(FormatError::BadHeaderSignature);
    }
    let _ = ControlRequest::decode_body(body)?;
    seal_again(signatures, body, key, signature)
}

/// What became of an order.
#[derive(Debug, Clone, Copy, PartialEq, Eq, Structural)]
pub enum Outcome {
    /// It was carried out.
    Committed,
    /// It was refused, and nothing changed.
    Rejected,
    /// The server has written it, and no replica has confirmed it yet.
    PendingDurability,
    /// Another order has the same identity.
    IdConflict,
    /// It was composed on another revision.
    StaleRevision,
}

impl Outcome {
    /// The number in documents.
    pub open spec fn number(self) -> u8 {
        match self {
            Outcome::Committed => 1,
            Outcome::Rejected => 2,
            Outcome::PendingDurability => 3,
            Outcome::IdConflict => 4,
            Outcome::StaleRevision => 5,
        }
    }

    /// What a number means; most mean nothing.
    pub open spec fn numbered(v: u8) -> Option<Outcome> {
        if v == 1 {
            Some(Outcome::Committed)
        } else if v == 2 {
            Some(Outcome::Rejected)
        } else if v == 3 {
            Some(Outcome::PendingDurability)
        } else if v == 4 {
            Some(Outcome::IdConflict)
        } else if v == 5 {
            Some(Outcome::StaleRevision)
        } else {
            None
        }
    }

    /// The number in documents.
    pub fn as_u8(self) -> (r: u8)
        ensures
            r == self.number(),
    {
        match self {
            Outcome::Committed => 1,
            Outcome::Rejected => 2,
            Outcome::PendingDurability => 3,
            Outcome::IdConflict => 4,
            Outcome::StaleRevision => 5,
        }
    }

    /// What a number means; an unknown one means nothing.
    pub fn from_u8(v: u8) -> (r: Option<Outcome>)
        ensures
            r == Outcome::numbered(v),
    {
        match v {
            1 => Some(Outcome::Committed),
            2 => Some(Outcome::Rejected),
            3 => Some(Outcome::PendingDurability),
            4 => Some(Outcome::IdConflict),
            5 => Some(Outcome::StaleRevision),
            _ => None,
        }
    }

    /// The verdict on a value that should hold such a number.
    pub open spec fn fault(tag: u16, value: Seq<u8>) -> Option<FormatError> {
        if value.len() == 1 && Outcome::numbered(value[0]) is Some {
            None
        } else {
            Some(FormatError::BadFieldLength { tag, len: value.len() as usize })
        }
    }

    /// The verdict on a value that should hold such a number.
    fn check(tag: u16, value: &[u8]) -> (r: Option<FormatError>)
        ensures
            r == Outcome::fault(tag, value@),
    {
        if value.len() == 1 && Outcome::from_u8(value[0]).is_some() {
            None
        } else {
            Some(bad(tag, value.len()))
        }
    }

    /// Read a value that holds such a number.
    fn read(value: &[u8]) -> (r: Outcome)
        requires
            Outcome::fault(0, value@) is None,
        ensures
            Some(r) == Outcome::numbered(value@[0]),
    {
        match Outcome::from_u8(value[0]) {
            Some(v) => v,
            None => Outcome::Committed,
        }
    }
}

/// What a server did with an order.
#[derive(Debug, Clone, PartialEq, Eq)]
pub struct Receipt {
    pub request_hash: [u8; 32],
    pub operation_id: [u8; 16],
    pub outcome: Outcome,
    /// The revision of the binding behind the operation.
    pub revision: u64,
    /// The digest of the binding that was fixed; zeros where none was.
    pub commit: [u8; 32],
    pub epoch: u64,
    /// What the change counts as done by.
    pub durability: Durability,
    pub reason: String,
    pub at: i64,
}

/// What a receipt says.
pub struct ReceiptView {
    pub request_hash: Seq<u8>,
    pub operation_id: Seq<u8>,
    pub outcome: Outcome,
    pub revision: u64,
    pub commit: Seq<u8>,
    pub epoch: u64,
    pub durability: Durability,
    pub reason: Seq<char>,
    pub at: i64,
}

impl View for Receipt {
    type V = ReceiptView;

    open spec fn view(&self) -> ReceiptView {
        ReceiptView {
            request_hash: self.request_hash@,
            operation_id: self.operation_id@,
            outcome: self.outcome,
            revision: self.revision,
            commit: self.commit@,
            epoch: self.epoch,
            durability: self.durability,
            reason: self.reason@,
            at: self.at,
        }
    }
}

impl ReceiptView {
    /// The fields of fixed length have it.
    pub open spec fn sized(self) -> bool {
        self.request_hash.len() == 32 && self.operation_id.len() == 16 && self.commit.len() == 32
    }

    /// The first objection.
    pub open spec fn fault(self) -> Option<FormatError> {
        reason_fault(self.reason, receipt_tag::REASON)
    }

    /// The records of the body.
    pub open spec fn recs(self) -> Seq<Rec> {
        let rs = Seq::<Rec>::empty();
        let rs = rs.push((receipt_tag::VERSION, seq![VERSION]));
        let rs = rs.push((receipt_tag::REQUEST_HASH, self.request_hash));
        let rs = rs.push((receipt_tag::OPERATION_ID, self.operation_id));
        let rs = rs.push((receipt_tag::OUTCOME, seq![self.outcome.number()]));
        let rs = rs.push((receipt_tag::REVISION, bytes::le64(self.revision)));
        let rs = rs.push((receipt_tag::COMMIT, self.commit));
        let rs = rs.push((receipt_tag::EPOCH, bytes::le64(self.epoch)));
        let rs = rs.push((receipt_tag::DURABILITY, seq![self.durability.number()]));
        let rs = rs.push((receipt_tag::REASON, encode_utf8(self.reason)));
        let rs = rs.push((receipt_tag::AT, bytes::le64s(self.at)));
        rs
    }
}

/// The bytes of a receipt that are signed.
pub open spec fn receipt_bytes(d: ReceiptView) -> Result<Seq<u8>, FormatError> {
    if d.fault() is Some {
        Err(d.fault()->0)
    } else {
        tlv::sealed(d.recs())
    }
}

/// The rule for the fields of a receipt.
pub struct ReceiptSchema;

impl Schema for ReceiptSchema {
    open spec fn fault(&self, tag: u16, value: Seq<u8>) -> Option<FormatError> {
        if tag == receipt_tag::VERSION {
            tlv::length_fault(tag, value, 1)
        } else if tag == receipt_tag::REQUEST_HASH || tag == receipt_tag::COMMIT {
            tlv::length_fault(tag, value, 32)
        } else if tag == receipt_tag::OPERATION_ID {
            tlv::length_fault(tag, value, 16)
        } else if tag == receipt_tag::OUTCOME {
            Outcome::fault(tag, value)
        } else if tag == receipt_tag::REVISION || tag == receipt_tag::EPOCH
            || tag == receipt_tag::AT {
            tlv::length_fault(tag, value, 8)
        } else if tag == receipt_tag::DURABILITY {
            Durability::fault(tag, value)
        } else if tag == receipt_tag::REASON {
            text_fault(tag, value)
        } else {
            unknown::unknown_fault(tag)
        }
    }

    fn check(&self, tag: u16, value: &[u8]) -> (r: Option<FormatError>) {
        if tag == receipt_tag::VERSION {
            check_length(tag, value, 1)
        } else if tag == receipt_tag::REQUEST_HASH || tag == receipt_tag::COMMIT {
            check_length(tag, value, 32)
        } else if tag == receipt_tag::OPERATION_ID {
            check_length(tag, value, 16)
        } else if tag == receipt_tag::OUTCOME {
            Outcome::check(tag, value)
        } else if tag == receipt_tag::REVISION || tag == receipt_tag::EPOCH
            || tag == receipt_tag::AT {
            check_length(tag, value, 8)
        } else if tag == receipt_tag::DURABILITY {
            Durability::check(tag, value)
        } else if tag == receipt_tag::REASON {
            check_text(tag, value)
        } else {
            unknown_verdict(tag)
        }
    }
}

/// The receipt that the records hold: of the one version, and with every field.
pub open spec fn receipt_in(rs: Seq<Rec>) -> Result<ReceiptView, FormatError> {
    if tlv::lookup(rs, receipt_tag::VERSION) != Some(seq![VERSION]) {
        Err(FormatError::BadFieldLength { tag: receipt_tag::VERSION, len: 1 })
    } else if tlv::lookup(rs, receipt_tag::REQUEST_HASH) is None {
        Err(FormatError::MissingField { tag: receipt_tag::REQUEST_HASH })
    } else if tlv::lookup(rs, receipt_tag::OPERATION_ID) is None {
        Err(FormatError::MissingField { tag: receipt_tag::OPERATION_ID })
    } else if tlv::lookup(rs, receipt_tag::OUTCOME) is None {
        Err(FormatError::MissingField { tag: receipt_tag::OUTCOME })
    } else if tlv::lookup(rs, receipt_tag::REVISION) is None {
        Err(FormatError::MissingField { tag: receipt_tag::REVISION })
    } else if tlv::lookup(rs, receipt_tag::COMMIT) is None {
        Err(FormatError::MissingField { tag: receipt_tag::COMMIT })
    } else if tlv::lookup(rs, receipt_tag::EPOCH) is None {
        Err(FormatError::MissingField { tag: receipt_tag::EPOCH })
    } else if tlv::lookup(rs, receipt_tag::DURABILITY) is None {
        Err(FormatError::MissingField { tag: receipt_tag::DURABILITY })
    } else if tlv::lookup(rs, receipt_tag::REASON) is None {
        Err(FormatError::MissingField { tag: receipt_tag::REASON })
    } else if tlv::lookup(rs, receipt_tag::AT) is None {
        Err(FormatError::MissingField { tag: receipt_tag::AT })
    } else {
        Ok(
            ReceiptView {
                request_hash: tlv::lookup(rs, receipt_tag::REQUEST_HASH)->0,
                operation_id: tlv::lookup(rs, receipt_tag::OPERATION_ID)->0,
                outcome: Outcome::numbered(tlv::lookup(rs, receipt_tag::OUTCOME)->0[0])->0,
                revision: bytes::num64(tlv::lookup(rs, receipt_tag::REVISION)->0),
                commit: tlv::lookup(rs, receipt_tag::COMMIT)->0,
                epoch: bytes::num64(tlv::lookup(rs, receipt_tag::EPOCH)->0),
                durability: Durability::numbered(tlv::lookup(rs, receipt_tag::DURABILITY)->0[0])->0,
                reason: decode_utf8(tlv::lookup(rs, receipt_tag::REASON)->0),
                at: bytes::num64s(tlv::lookup(rs, receipt_tag::AT)->0),
            },
        )
    }
}

/// The receipt that a body holds, in the one form that it has.
pub open spec fn receipt_of(body: Seq<u8>) -> Result<ReceiptView, FormatError> {
    match tlv::read(ReceiptSchema, body) {
        Err(e) => Err(e),
        Ok(rs) => match receipt_in(rs) {
            Err(e) => Err(e),
            Ok(d) => match receipt_bytes(d) {
                Err(e) => Err(e),
                Ok(written) => if written == tlv::wire(unknown::critical(rs)) {
                    Ok(d)
                } else {
                    Err(FormatError::BadFieldLength { tag: 0, len: body.len() as usize })
                },
            },
        },
    }
}

/// An optional field that is not known changes nothing in the receipt that is read.
pub proof fn receipt_reads_past_optional_fields(body: Seq<u8>)
    requires
        receipt_of(body) is Ok,
    ensures
        receipt_of(unknown::without_optional(body)) == receipt_of(body),
{
    unknown::optional_records_are_skipped(ReceiptSchema, body);
    unknown::kept_is_idempotent(tlv::read(ReceiptSchema, body)->Ok_0, Set::empty());
}

/// The body of a receipt survives being written and read back.
pub proof fn receipt_round_trip(d: ReceiptView)
    requires
        d.sized(),
        receipt_bytes(d) is Ok,
    ensures
        receipt_of(receipt_bytes(d)->Ok_0) == Ok::<ReceiptView, FormatError>(d),
{
    broadcast use {tlv::group_records, bytes::group_numbers};

    encode_utf8_valid_utf8(d.reason);
    encode_utf8_decode_utf8(d.reason);
    all_critical(d.recs());
    tlv::read_wire(ReceiptSchema, d.recs());
}

impl Receipt {
    /// The first objection.
    fn check(&self) -> (r: Option<FormatError>)
        ensures
            r == self@.fault(),
    {
        check_reason(self.reason.as_str(), receipt_tag::REASON)
    }

    /// The bytes of the receipt that are signed.
    pub fn body(&self) -> (r: Result<Vec<u8>, FormatError>)
        ensures
            tlv::agrees(r, receipt_bytes(self@)),
    {
        broadcast use {tlv::group_records, bytes::group_numbers};

        refuse(self.check())?;
        let mut w = TlvWriter::new();
        w.put(receipt_tag::VERSION, one(VERSION).as_slice())?;
        w.put(receipt_tag::REQUEST_HASH, self.request_hash.as_slice())?;
        w.put(receipt_tag::OPERATION_ID, self.operation_id.as_slice())?;
        w.put(receipt_tag::OUTCOME, one(self.outcome.as_u8()).as_slice())?;
        w.put(receipt_tag::REVISION, write64(self.revision).as_slice())?;
        w.put(receipt_tag::COMMIT, self.commit.as_slice())?;
        w.put(receipt_tag::EPOCH, write64(self.epoch).as_slice())?;
        w.put(receipt_tag::DURABILITY, one(self.durability.as_u8()).as_slice())?;
        w.put(receipt_tag::REASON, self.reason.as_str().as_bytes())?;
        w.put(receipt_tag::AT, write64s(self.at).as_slice())?;
        Ok(w.finish())
    }

    /// What is signed of the receipt.
    pub fn transcript(&self) -> (r: Result<Transcript, FormatError>)
        ensures
            tlv::agrees(r, transcribed(Label::OperationReceipt, receipt_bytes(self@))),
    {
        let body = self.body()?;
        Ok(Transcript::new(Label::OperationReceipt, body.as_slice()))
    }

    /// The signature that is to be checked before the receipt is read: under the key of
    /// the server.
    pub fn claim(bytes: &[u8], server_key: &[u8; KEY]) -> (r: Result<Claim, FormatError>)
        ensures
            tlv::agrees(r, signed_claim(Label::OperationReceipt, bytes@, server_key@)),
    {
        claim_of(Label::OperationReceipt, bytes, server_key)
    }

    /// Read the body of a receipt.
    fn decode_body(body: &[u8]) -> (r: Result<Receipt, FormatError>)
        ensures
            tlv::agrees(r, receipt_of(body@)),
    {
        let fs = read_fields(&ReceiptSchema, body)?;
        if !has_byte(&fs, receipt_tag::VERSION, VERSION) {
            return Err(bad(receipt_tag::VERSION, 1));
        }
        let request_hash = need(&fs, receipt_tag::REQUEST_HASH)?;
        let operation_id = need(&fs, receipt_tag::OPERATION_ID)?;
        let outcome = need(&fs, receipt_tag::OUTCOME)?;
        let revision = need(&fs, receipt_tag::REVISION)?;
        let commit = need(&fs, receipt_tag::COMMIT)?;
        let epoch = need(&fs, receipt_tag::EPOCH)?;
        let durability = need(&fs, receipt_tag::DURABILITY)?;
        let reason = need(&fs, receipt_tag::REASON)?;
        let at = need(&fs, receipt_tag::AT)?;
        let document = Receipt {
            request_hash: array(request_hash),
            operation_id: array(operation_id),
            outcome: Outcome::read(outcome),
            revision: read64(revision),
            commit: array(commit),
            epoch: read64(epoch),
            durability: Durability::read(durability),
            reason: utf8_text(reason),
            at: read64s(at),
        };
        let written = document.body()?;
        if !same(written.as_slice(), strip(&fs).as_slice()) {
            return Err(bad(0, body.len()));
        }
        Ok(document)
    }

    /// Write the signed receipt; `signature` is what the key for leases made over
    /// [`Receipt::transcript`], if it made one.
    pub fn sign(&self, signature: Option<[u8; SIG]>) -> (r: Result<Vec<u8>, FormatError>)
        ensures
            tlv::agrees(r, signed_receipt(self@, bytes::opt_array(signature))),
    {
        let body = self.body()?;
        match signature {
            Some(s) => Ok(join_signed(&s, body.as_slice())),
            None => Err(FormatError::BadHeaderSignature),
        }
    }

    /// Read a receipt. `signed` says whether its signature (see [`Receipt::claim`]) holds
    /// under the key of the server.
    pub fn open(bytes: &[u8], signed: bool) -> (r: Result<Receipt, FormatError>)
        ensures
            tlv::agrees(r, opened_receipt(bytes@, signed)),
    {
        let (_, body) = split_signed(bytes)?;
        if !signed {
            return Err(FormatError::BadHeaderSignature);
        }
        Receipt::decode_body(body)
    }
}

/// The bytes of a signed receipt.
pub open spec fn signed_receipt(d: ReceiptView, signature: Option<Seq<u8>>) -> Result<
    Seq<u8>,
    FormatError,
> {
    match receipt_bytes(d) {
        Err(e) => Err(e),
        Ok(body) => match signature {
            None => Err(FormatError::BadHeaderSignature),
            Some(s) => Ok(s + body),
        },
    }
}

/// The receipt that the bytes hold, where `signed` says whether the signature holds
/// under the key of the server.
pub open spec fn opened_receipt(b: Seq<u8>, signed: bool) -> Result<ReceiptView, FormatError> {
    if signed_fault(b) is Some {
        Err(signed_fault(b)->0)
    } else if !signed {
        Err(FormatError::BadHeaderSignature)
    } else {
        receipt_of(b.skip(SIG as int))
    }
}

/// Under a signature that does not hold, no body is told from another: each receipt that is
/// not too long is refused alike.
pub proof fn unsigned_receipt_is_refused(b: Seq<u8>)
    requires
        SIG <= b.len() <= MAX_DOCUMENT_LEN,
    ensures
        opened_receipt(b, false)
            == Err::<ReceiptView, FormatError>(FormatError::BadHeaderSignature),
{
}

/// A receipt that was opened was read from the very body that its signature was checked over.
pub proof fn receipt_is_read_from_what_was_signed(b: Seq<u8>, server_key: Seq<u8>)
    requires
        opened_receipt(b, true) is Ok,
    ensures
        signed_claim(Label::OperationReceipt, b, server_key) is Ok,
        ({
            let claim = signed_claim(Label::OperationReceipt, b, server_key)->Ok_0;
            opened_receipt(b, true) == receipt_of(claim.transcript.body)
        }),
{
}

/// A receipt is far from the limit of a document.
proof fn receipt_is_small(d: ReceiptView)
    requires
        d.sized(),
        receipt_bytes(d) is Ok,
    ensures
        receipt_bytes(d)->Ok_0.len() <= 4096,
{
    broadcast use {tlv::wire_len_push, bytes::group_numbers};

    text::utf8_len(d.reason);
}

/// A signed receipt is opened again.
pub proof fn signed_receipt_opens(d: ReceiptView, signature: Seq<u8>)
    requires
        d.sized(),
        signature.len() == SIG,
        signed_receipt(d, Some(signature)) is Ok,
    ensures
        opened_receipt(signed_receipt(d, Some(signature))->Ok_0, true) == Ok::<
            ReceiptView,
            FormatError,
        >(d),
{
    receipt_round_trip(d);
    receipt_is_small(d);
    let bytes = signed_receipt(d, Some(signature))->Ok_0;
    assert(bytes.skip(SIG as int) =~= receipt_bytes(d)->Ok_0);
}

/// What becomes of leases that the epoch before granted.
#[derive(Debug, Clone, Copy, PartialEq, Eq, Structural)]
pub enum OldLeases {
    /// They hold to their end.
    Honour,
    /// Those granted behind the transition are not accepted.
    RejectAfterTransition,
}

impl OldLeases {
    /// The number in documents.
    pub open spec fn number(self) -> u8 {
        match self {
            OldLeases::Honour => 0,
            OldLeases::RejectAfterTransition => 1,
        }
    }

    /// What a number means; most mean nothing.
    pub open spec fn numbered(v: u8) -> Option<OldLeases> {
        if v == 0 {
            Some(OldLeases::Honour)
        } else if v == 1 {
            Some(OldLeases::RejectAfterTransition)
        } else {
            None
        }
    }

    /// The number in documents.
    pub fn as_u8(self) -> (r: u8)
        ensures
            r == self.number(),
    {
        match self {
            OldLeases::Honour => 0,
            OldLeases::RejectAfterTransition => 1,
        }
    }

    /// What a number means; an unknown one means nothing.
    pub fn from_u8(v: u8) -> (r: Option<OldLeases>)
        ensures
            r == OldLeases::numbered(v),
    {
        match v {
            0 => Some(OldLeases::Honour),
            1 => Some(OldLeases::RejectAfterTransition),
            _ => None,
        }
    }

    /// The verdict on a value that should hold such a number.
    pub open spec fn fault(tag: u16, value: Seq<u8>) -> Option<FormatError> {
        if value.len() == 1 && OldLeases::numbered(value[0]) is Some {
            None
        } else {
            Some(FormatError::BadFieldLength { tag, len: value.len() as usize })
        }
    }

    /// The verdict on a value that should hold such a number.
    fn check(tag: u16, value: &[u8]) -> (r: Option<FormatError>)
        ensures
            r == OldLeases::fault(tag, value@),
    {
        if value.len() == 1 && OldLeases::from_u8(value[0]).is_some() {
            None
        } else {
            Some(bad(tag, value.len()))
        }
    }

    /// Read a value that holds such a number.
    fn read(value: &[u8]) -> (r: OldLeases)
        requires
            OldLeases::fault(0, value@) is None,
        ensures
            Some(r) == OldLeases::numbered(value@[0]),
    {
        match OldLeases::from_u8(value[0]) {
            Some(v) => v,
            None => OldLeases::Honour,
        }
    }
}

/// How authority passes on: the controllers of one epoch name the next.
#[derive(Debug, Clone, PartialEq, Eq)]
pub struct Transfer {
    /// The identity of the server: it stays.
    pub authority_id: [u8; 16],
    pub from_epoch: u64,
    pub to_epoch: u64,
    /// The key for leases of the epoch before.
    pub from_lease: [u8; 32],
    /// From this moment on the new epoch has the authority.
    pub transition_at: i64,
    pub old_leases: OldLeases,
    pub issued_at: i64,
    pub expires_at: i64,
    /// The signed binding of the new epoch.
    pub binding: Vec<u8>,
}

/// What a transfer says.
pub struct TransferView {
    pub authority_id: Seq<u8>,
    pub from_epoch: u64,
    pub to_epoch: u64,
    pub from_lease: Seq<u8>,
    pub transition_at: i64,
    pub old_leases: OldLeases,
    pub issued_at: i64,
    pub expires_at: i64,
    pub binding: Seq<u8>,
}

impl View for Transfer {
    type V = TransferView;

    open spec fn view(&self) -> TransferView {
        TransferView {
            authority_id: self.authority_id@,
            from_epoch: self.from_epoch,
            to_epoch: self.to_epoch,
            from_lease: self.from_lease@,
            transition_at: self.transition_at,
            old_leases: self.old_leases,
            issued_at: self.issued_at,
            expires_at: self.expires_at,
            binding: self.binding@,
        }
    }
}

impl TransferView {
    /// The fields of fixed length have it.
    pub open spec fn sized(self) -> bool {
        self.authority_id.len() == 16 && self.from_lease.len() == KEY
    }

    /// The first objection.
    pub open spec fn fault(self) -> Option<FormatError> {
        if self.to_epoch != self.from_epoch + 1 {
            Some(FormatError::BadFieldLength { tag: transfer_tag::TO_EPOCH, len: 8 })
        } else if self.expires_at <= self.issued_at {
            Some(FormatError::BadFieldLength { tag: transfer_tag::EXPIRES_AT, len: 8 })
        } else if self.binding.len() == 0 || self.binding.len() > MAX_DOCUMENT_LEN {
            Some(
                FormatError::BadFieldLength {
                    tag: transfer_tag::BINDING,
                    len: self.binding.len() as usize,
                },
            )
        } else {
            None
        }
    }

    /// The records of the body.
    pub open spec fn recs(self) -> Seq<Rec> {
        let rs = Seq::<Rec>::empty();
        let rs = rs.push((transfer_tag::VERSION, seq![VERSION]));
        let rs = rs.push((transfer_tag::AUTHORITY_ID, self.authority_id));
        let rs = rs.push((transfer_tag::FROM_EPOCH, bytes::le64(self.from_epoch)));
        let rs = rs.push((transfer_tag::TO_EPOCH, bytes::le64(self.to_epoch)));
        let rs = rs.push((transfer_tag::FROM_LEASE, self.from_lease));
        let rs = rs.push((transfer_tag::TRANSITION_AT, bytes::le64s(self.transition_at)));
        let rs = rs.push((transfer_tag::OLD_LEASES, seq![self.old_leases.number()]));
        let rs = rs.push((transfer_tag::ISSUED_AT, bytes::le64s(self.issued_at)));
        let rs = rs.push((transfer_tag::EXPIRES_AT, bytes::le64s(self.expires_at)));
        let rs = rs.push((transfer_tag::BINDING, self.binding));
        rs
    }
}

/// The bytes of a transfer that are signed.
pub open spec fn transfer_bytes(d: TransferView) -> Result<Seq<u8>, FormatError> {
    if d.fault() is Some {
        Err(d.fault()->0)
    } else {
        tlv::sealed(d.recs())
    }
}

/// The rule for the fields of a transfer.
pub struct TransferSchema;

impl Schema for TransferSchema {
    open spec fn fault(&self, tag: u16, value: Seq<u8>) -> Option<FormatError> {
        if tag == transfer_tag::VERSION {
            tlv::length_fault(tag, value, 1)
        } else if tag == transfer_tag::AUTHORITY_ID {
            tlv::length_fault(tag, value, 16)
        } else if tag == transfer_tag::FROM_EPOCH || tag == transfer_tag::TO_EPOCH
            || tag == transfer_tag::TRANSITION_AT || tag == transfer_tag::ISSUED_AT
            || tag == transfer_tag::EXPIRES_AT {
            tlv::length_fault(tag, value, 8)
        } else if tag == transfer_tag::FROM_LEASE {
            tlv::length_fault(tag, value, KEY as nat)
        } else if tag == transfer_tag::OLD_LEASES {
            OldLeases::fault(tag, value)
        } else if tag == transfer_tag::BINDING {
            None
        } else {
            unknown::unknown_fault(tag)
        }
    }

    fn check(&self, tag: u16, value: &[u8]) -> (r: Option<FormatError>) {
        if tag == transfer_tag::VERSION {
            check_length(tag, value, 1)
        } else if tag == transfer_tag::AUTHORITY_ID {
            check_length(tag, value, 16)
        } else if tag == transfer_tag::FROM_EPOCH || tag == transfer_tag::TO_EPOCH
            || tag == transfer_tag::TRANSITION_AT || tag == transfer_tag::ISSUED_AT
            || tag == transfer_tag::EXPIRES_AT {
            check_length(tag, value, 8)
        } else if tag == transfer_tag::FROM_LEASE {
            check_length(tag, value, KEY)
        } else if tag == transfer_tag::OLD_LEASES {
            OldLeases::check(tag, value)
        } else if tag == transfer_tag::BINDING {
            None
        } else {
            unknown_verdict(tag)
        }
    }
}

/// The transfer that the records hold: of the one version, and with every field.
pub open spec fn transfer_in(rs: Seq<Rec>) -> Result<TransferView, FormatError> {
    if tlv::lookup(rs, transfer_tag::VERSION) != Some(seq![VERSION]) {
        Err(FormatError::BadFieldLength { tag: transfer_tag::VERSION, len: 1 })
    } else if tlv::lookup(rs, transfer_tag::AUTHORITY_ID) is None {
        Err(FormatError::MissingField { tag: transfer_tag::AUTHORITY_ID })
    } else if tlv::lookup(rs, transfer_tag::FROM_EPOCH) is None {
        Err(FormatError::MissingField { tag: transfer_tag::FROM_EPOCH })
    } else if tlv::lookup(rs, transfer_tag::TO_EPOCH) is None {
        Err(FormatError::MissingField { tag: transfer_tag::TO_EPOCH })
    } else if tlv::lookup(rs, transfer_tag::FROM_LEASE) is None {
        Err(FormatError::MissingField { tag: transfer_tag::FROM_LEASE })
    } else if tlv::lookup(rs, transfer_tag::TRANSITION_AT) is None {
        Err(FormatError::MissingField { tag: transfer_tag::TRANSITION_AT })
    } else if tlv::lookup(rs, transfer_tag::OLD_LEASES) is None {
        Err(FormatError::MissingField { tag: transfer_tag::OLD_LEASES })
    } else if tlv::lookup(rs, transfer_tag::ISSUED_AT) is None {
        Err(FormatError::MissingField { tag: transfer_tag::ISSUED_AT })
    } else if tlv::lookup(rs, transfer_tag::EXPIRES_AT) is None {
        Err(FormatError::MissingField { tag: transfer_tag::EXPIRES_AT })
    } else if tlv::lookup(rs, transfer_tag::BINDING) is None {
        Err(FormatError::MissingField { tag: transfer_tag::BINDING })
    } else {
        Ok(
            TransferView {
                authority_id: tlv::lookup(rs, transfer_tag::AUTHORITY_ID)->0,
                from_epoch: bytes::num64(tlv::lookup(rs, transfer_tag::FROM_EPOCH)->0),
                to_epoch: bytes::num64(tlv::lookup(rs, transfer_tag::TO_EPOCH)->0),
                from_lease: tlv::lookup(rs, transfer_tag::FROM_LEASE)->0,
                transition_at: bytes::num64s(tlv::lookup(rs, transfer_tag::TRANSITION_AT)->0),
                old_leases: OldLeases::numbered(tlv::lookup(rs, transfer_tag::OLD_LEASES)->0[0])->0,
                issued_at: bytes::num64s(tlv::lookup(rs, transfer_tag::ISSUED_AT)->0),
                expires_at: bytes::num64s(tlv::lookup(rs, transfer_tag::EXPIRES_AT)->0),
                binding: tlv::lookup(rs, transfer_tag::BINDING)->0,
            },
        )
    }
}

/// The transfer that a body holds, in the one form that it has.
pub open spec fn transfer_of(body: Seq<u8>) -> Result<TransferView, FormatError> {
    match tlv::read(TransferSchema, body) {
        Err(e) => Err(e),
        Ok(rs) => match transfer_in(rs) {
            Err(e) => Err(e),
            Ok(d) => match transfer_bytes(d) {
                Err(e) => Err(e),
                Ok(written) => if written == tlv::wire(unknown::critical(rs)) {
                    Ok(d)
                } else {
                    Err(FormatError::BadFieldLength { tag: 0, len: body.len() as usize })
                },
            },
        },
    }
}

/// An optional field that is not known changes nothing in the transfer that is read.
pub proof fn transfer_reads_past_optional_fields(body: Seq<u8>)
    requires
        transfer_of(body) is Ok,
    ensures
        transfer_of(unknown::without_optional(body)) == transfer_of(body),
{
    unknown::optional_records_are_skipped(TransferSchema, body);
    unknown::kept_is_idempotent(tlv::read(TransferSchema, body)->Ok_0, Set::empty());
}

/// The body of a transfer survives being written and read back.
pub proof fn transfer_round_trip(d: TransferView)
    requires
        d.sized(),
        transfer_bytes(d) is Ok,
    ensures
        transfer_of(transfer_bytes(d)->Ok_0) == Ok::<TransferView, FormatError>(d),
{
    broadcast use {tlv::group_records, bytes::group_numbers};

    all_critical(d.recs());
    tlv::read_wire(TransferSchema, d.recs());
}

impl Transfer {
    /// The first objection.
    fn check(&self) -> (r: Option<FormatError>)
        ensures
            r == self@.fault(),
    {
        match self.from_epoch.checked_add(1) {
            Some(next) => if self.to_epoch != next {
                Some(bad(transfer_tag::TO_EPOCH, 8))
            } else if self.expires_at <= self.issued_at {
                Some(bad(transfer_tag::EXPIRES_AT, 8))
            } else if self.binding.len() == 0 || self.binding.len() > MAX_DOCUMENT_LEN {
                Some(bad(transfer_tag::BINDING, self.binding.len()))
            } else {
                None
            },
            None => Some(bad(transfer_tag::TO_EPOCH, 8)),
        }
    }

    /// The bytes of the transfer that are signed.
    pub fn body(&self) -> (r: Result<Vec<u8>, FormatError>)
        ensures
            tlv::agrees(r, transfer_bytes(self@)),
    {
        broadcast use {tlv::group_records, bytes::group_numbers};

        refuse(self.check())?;
        let mut w = TlvWriter::new();
        w.put(transfer_tag::VERSION, one(VERSION).as_slice())?;
        w.put(transfer_tag::AUTHORITY_ID, self.authority_id.as_slice())?;
        w.put(transfer_tag::FROM_EPOCH, write64(self.from_epoch).as_slice())?;
        w.put(transfer_tag::TO_EPOCH, write64(self.to_epoch).as_slice())?;
        w.put(transfer_tag::FROM_LEASE, self.from_lease.as_slice())?;
        w.put(transfer_tag::TRANSITION_AT, write64s(self.transition_at).as_slice())?;
        w.put(transfer_tag::OLD_LEASES, one(self.old_leases.as_u8()).as_slice())?;
        w.put(transfer_tag::ISSUED_AT, write64s(self.issued_at).as_slice())?;
        w.put(transfer_tag::EXPIRES_AT, write64s(self.expires_at).as_slice())?;
        w.put(transfer_tag::BINDING, self.binding.as_slice())?;
        Ok(w.finish())
    }

    /// What is signed of the transfer.
    pub fn transcript(&self) -> (r: Result<Transcript, FormatError>)
        ensures
            tlv::agrees(r, transcribed(Label::AuthorityTransfer, transfer_bytes(self@))),
    {
        let body = self.body()?;
        Ok(Transcript::new(Label::AuthorityTransfer, body.as_slice()))
    }

    /// Read the body of a transfer.
    fn decode_body(body: &[u8]) -> (r: Result<Transfer, FormatError>)
        ensures
            tlv::agrees(r, transfer_of(body@)),
    {
        let fs = read_fields(&TransferSchema, body)?;
        if !has_byte(&fs, transfer_tag::VERSION, VERSION) {
            return Err(bad(transfer_tag::VERSION, 1));
        }
        let authority_id = need(&fs, transfer_tag::AUTHORITY_ID)?;
        let from_epoch = need(&fs, transfer_tag::FROM_EPOCH)?;
        let to_epoch = need(&fs, transfer_tag::TO_EPOCH)?;
        let from_lease = need(&fs, transfer_tag::FROM_LEASE)?;
        let transition_at = need(&fs, transfer_tag::TRANSITION_AT)?;
        let old_leases = need(&fs, transfer_tag::OLD_LEASES)?;
        let issued_at = need(&fs, transfer_tag::ISSUED_AT)?;
        let expires_at = need(&fs, transfer_tag::EXPIRES_AT)?;
        let binding = need(&fs, transfer_tag::BINDING)?;
        let document = Transfer {
            authority_id: array(authority_id),
            from_epoch: read64(from_epoch),
            to_epoch: read64(to_epoch),
            from_lease: array(from_lease),
            transition_at: read64s(transition_at),
            old_leases: OldLeases::read(old_leases),
            issued_at: read64s(issued_at),
            expires_at: read64s(expires_at),
            binding: owned(binding),
        };
        let written = document.body()?;
        if !same(written.as_slice(), strip(&fs).as_slice()) {
            return Err(bad(0, body.len()));
        }
        Ok(document)
    }

    /// Write the transfer with its first signature: the key of the signer, and what it
    /// made over [`Transfer::transcript`], if it made one.
    pub fn sign(&self, key: [u8; KEY], signature: Option<[u8; SIG]>) -> (r: Result<
        Vec<u8>,
        FormatError,
    >)
        ensures
            tlv::agrees(r, first_signed(transfer_bytes(self@), key@, bytes::opt_array(signature))),
    {
        let body = self.body()?;
        seal_first(body, key, signature)
    }
}

/// The transfer in an envelope, and who signed it. Every signature holds, and nothing
/// is read of a body before that is known.
pub open spec fn opened_transfer(b: Seq<u8>, held: Seq<bool>) -> Result<
    (TransferView, Seq<Seq<u8>>),
    FormatError,
> {
    match enveloped(b) {
        Err(e) => Err(e),
        Ok((ss, body)) => if !all_hold(held, ss.len()) {
            Err(FormatError::BadHeaderSignature)
        } else {
            match transfer_of(body) {
                Err(e) => Err(e),
                Ok(t) => Ok((t, signers_of(ss))),
            }
        },
    }
}

/// A transfer that was opened was read from the very body that each signature was checked
/// over, and its signers are the keys that were checked.
pub proof fn transfer_is_read_from_what_was_signed(b: Seq<u8>, held: Seq<bool>)
    requires
        opened_transfer(b, held) is Ok,
    ensures
        claims_in(Label::AuthorityTransfer, b) is Ok,
        ({
            let claims = claims_in(Label::AuthorityTransfer, b)->Ok_0;
            let (transfer, signers) = opened_transfer(b, held)->Ok_0;
            &&& signers == claims.map_values(|c: ClaimView| c.key)
            &&& forall|i: int|
                0 <= i < claims.len() ==> transfer_of((#[trigger] claims[i]).transcript.body)
                    == Ok::<TransferView, FormatError>(transfer)
        }),
{
    let claims = claims_in(Label::AuthorityTransfer, b)->Ok_0;
    assert(opened_transfer(b, held)->Ok_0.1 =~= claims.map_values(|c: ClaimView| c.key));
}

/// One signature that does not hold is enough: the transfer is refused, whatever its body.
pub proof fn a_broken_signature_refuses_the_transfer(b: Seq<u8>, held: Seq<bool>, i: int)
    requires
        enveloped(b) is Ok,
        0 <= i < enveloped(b)->Ok_0.0.len(),
        i < held.len(),
        !held[i],
    ensures
        opened_transfer(b, held) == Err::<(TransferView, Seq<Seq<u8>>), FormatError>(
            FormatError::BadHeaderSignature,
        ),
{
}

/// A transfer that was opened has at least one signer and not too many, each with its own
/// signature, which holds.
pub proof fn opened_transfer_is_signed(b: Seq<u8>, held: Seq<bool>)
    requires
        opened_transfer(b, held) is Ok,
    ensures
        ({
            let signers = opened_transfer(b, held)->Ok_0.1;
            &&& 0 < signers.len() <= MAX_SIGNERS
            &&& all_hold(held, signers.len())
            &&& signers.no_duplicates()
        }),
{
    let (ss, body) = enveloped(b)->Ok_0;
    signatures_in_counts(b.skip(1), b[0] as nat);
    no_key_twice(signers_of(ss));
}

/// The envelope of a transfer with one more signature.
pub open spec fn cosigned_transfer(
    b: Seq<u8>,
    held: Seq<bool>,
    key: Seq<u8>,
    signature: Option<Seq<u8>>,
) -> Result<Seq<u8>, FormatError> {
    match enveloped(b) {
        Err(e) => Err(e),
        Ok((ss, body)) => cosigned(
            ss,
            body,
            held,
            match transfer_of(body) {
                Err(e) => Some(e),
                Ok(_) => None,
            },
            key,
            signature,
        ),
    }
}

/// A transfer that one key signed is opened again, where the signature holds and the
/// document is not too long.
pub proof fn signed_transfer_opens(t: TransferView, key: Seq<u8>, signature: Seq<u8>)
    requires
        t.sized(),
        key.len() == KEY,
        signature.len() == SIG,
        transfer_bytes(t) is Ok,
        transfer_bytes(t)->Ok_0.len() + 97 <= MAX_DOCUMENT_LEN,
    ensures
        opened_transfer(
            first_signed(transfer_bytes(t), key, Some(signature))->Ok_0,
            seq![true],
        ) == Ok::<(TransferView, Seq<Seq<u8>>), FormatError>((t, seq![key])),
{
    let ss = seq![(key, signature)];
    assert(signers_of(ss) =~= seq![key]);
    assert(ss.drop_last() =~= Seq::<SignatureView>::empty());
    assert(in_order(ss) =~= ss) by {
        reveal_with_fuel(in_order, 2);
    }
    transfer_round_trip(t);
    signatures_in_wire(ss, transfer_bytes(t)->Ok_0);
    envelope_round_trip(transfer_bytes(t)->Ok_0, ss);
}

/// Who signs a transfer after others adds one signature and changes nothing else.
pub proof fn cosigning_keeps_the_transfer(
    b: Seq<u8>,
    held: Seq<bool>,
    key: Seq<u8>,
    signature: Seq<u8>,
    held_then: Seq<bool>,
)
    requires
        key.len() == KEY,
        signature.len() == SIG,
        cosigned_transfer(b, held, key, Some(signature)) is Ok,
        b.len() + 96 <= MAX_DOCUMENT_LEN,
        ({
            let (ss, body) = enveloped(b)->Ok_0;
            all_hold(held_then, ss.len() + 1)
        }),
    ensures
        ({
            let (ss, body) = enveloped(b)->Ok_0;
            let (t, signers) = opened_transfer(b, held)->Ok_0;
            let more = cosigned_transfer(b, held, key, Some(signature))->Ok_0;
            opened_transfer(more, held_then) == Ok::<(TransferView, Seq<Seq<u8>>), FormatError>(
                (t, signers_of(placed(ss, (key, signature)))),
            )
        }),
{
    cosigned_envelope(b, held, None, key, signature);
}

/// Read a transfer whose signatures hold. `held` says of each signature in the envelope
/// (see [`transfer_claims`]) whether it holds under the key beside it. Who may sign is told
/// by the binding of the epoch before.
pub fn open_transfer(bytes: &[u8], held: &[bool]) -> (r: Result<
    (Transfer, Vec<[u8; KEY]>),
    FormatError,
>)
    ensures
        match r {
            Ok((t, signers)) => opened_transfer(bytes@, held@) == Ok::<
                (TransferView, Seq<Seq<u8>>),
                FormatError,
            >((t@, bytes::arrays(signers@))),
            Err(e) => opened_transfer(bytes@, held@) == Err::<
                (TransferView, Seq<Seq<u8>>),
                FormatError,
            >(e),
        },
{
    let (signatures, body) = split_request(bytes)?;
    if !do_all_hold(held, signatures.len()) {
        return Err(FormatError::BadHeaderSignature);
    }
    let transfer = Transfer::decode_body(body)?;
    Ok((transfer, keys_in(&signatures)))
}

/// Add the signature of one more controller over the same transfer.
pub fn cosign_transfer(
    bytes: &[u8],
    held: &[bool],
    key: [u8; KEY],
    signature: Option<[u8; SIG]>,
) -> (r: Result<Vec<u8>, FormatError>)
    ensures
        tlv::agrees(r, cosigned_transfer(bytes@, held@, key@, bytes::opt_array(signature))),
{
    let (signatures, body) = split_request(bytes)?;
    if !do_all_hold(held, signatures.len()) {
        return Err(FormatError::BadHeaderSignature);
    }
    let _ = Transfer::decode_body(body)?;
    seal_again(signatures, body, key, signature)
}

/// What a server has become behind a chain of transfers.
#[derive(Debug, Clone, PartialEq, Eq)]
pub struct Effective {
    /// The binding of the epoch that has the authority.
    pub binding: Binding,
    /// Its signed bytes.
    pub bytes: Vec<u8>,
    /// The moment of the last transition, if there was one.
    pub transition_at: Option<i64>,
    /// What becomes of leases that the epoch before granted.
    pub old_leases: Option<OldLeases>,
    /// The keys of the epochs before, in order: old leases are checked with them.
    pub previous_keys: Vec<[u8; KEY]>,
}

/// What a server has become behind a chain of transfers.
pub struct EffectiveView {
    pub binding: BindingView,
    pub bytes: Seq<u8>,
    pub transition_at: Option<i64>,
    pub old_leases: Option<OldLeases>,
    pub previous_keys: Seq<Seq<u8>>,
}

impl View for Effective {
    type V = EffectiveView;

    open spec fn view(&self) -> EffectiveView {
        EffectiveView {
            binding: self.binding@,
            bytes: self.bytes@,
            transition_at: self.transition_at,
            old_leases: self.old_leases,
            previous_keys: bytes::arrays(self.previous_keys@),
        }
    }
}

/// Why a chain of transfers is refused.
#[derive(Debug, Clone, PartialEq, Eq)]
pub enum ChainError {
    /// The first binding does not hold under the anchor.
    NotAnchored,
    /// Not enough controllers of the epoch before signed the transfer.
    NotAuthorized { have: u8, need: u8 },
    /// Epochs do not follow, the identity changed, or the key is another.
    Broken(&'static str),
    /// A document cannot be read.
    Malformed(String),
    /// The transfer is out of date.
    Expired { expires_at: i64, now: i64 },
}

/// What the refusal of a chain says.
pub enum ChainErrorView {
    NotAnchored,
    NotAuthorized { have: u8, need: u8 },
    Broken(Seq<char>),
    Malformed(Seq<char>),
    Expired { expires_at: i64, now: i64 },
}

impl View for ChainError {
    type V = ChainErrorView;

    open spec fn view(&self) -> ChainErrorView {
        match *self {
            ChainError::NotAnchored => ChainErrorView::NotAnchored,
            ChainError::NotAuthorized { have, need } => ChainErrorView::NotAuthorized { have, need },
            ChainError::Broken(why) => ChainErrorView::Broken(why@),
            ChainError::Malformed(why) => ChainErrorView::Malformed(why@),
            ChainError::Expired { expires_at, now } => ChainErrorView::Expired { expires_at, now },
        }
    }
}

impl ChainErrorView {
    /// The reason in words.
    pub open spec fn says(self) -> Seq<char> {
        match self {
            ChainErrorView::NotAnchored =>
                "первая привязка цепочки не проверяется ключом сервера из контейнера"@,
            ChainErrorView::NotAuthorized { have, need } => "передачу подписали "@ + text::digits(
                have as nat,
            ) + " управляющих прежней эпохи из нужных "@ + text::digits(need as nat)
                + ": произвольный новый сервер доверенным не становится"@,
            ChainErrorView::Broken(why) => "цепочка не сходится: "@ + why,
            ChainErrorView::Malformed(why) => "документ цепочки не разбирается: "@ + why,
            ChainErrorView::Expired { expires_at, now } => "сертификат передачи просрочен ("@
                + text::signed_digits(expires_at as int) + " при текущем "@
                    + text::signed_digits(now as int)
                + ")"@,
        }
    }
}

impl ChainError {
    /// The reason in words.
    pub fn text(&self) -> (r: String)
        ensures
            r@ == self@.says(),
    {
        match self {
            ChainError::NotAnchored =>
                "первая привязка цепочки не проверяется ключом сервера из контейнера".to_owned(),
            ChainError::NotAuthorized { have, need } => "передачу подписали ".to_owned().concat(
                decimal(*have as u64).as_str(),
            ).concat(" управляющих прежней эпохи из нужных ").concat(
                decimal(*need as u64).as_str(),
            ).concat(": произвольный новый сервер доверенным не становится"),
            ChainError::Broken(why) => "цепочка не сходится: ".to_owned().concat(*why),
            ChainError::Malformed(why) => "документ цепочки не разбирается: ".to_owned().concat(
                why.as_str(),
            ),
            ChainError::Expired { expires_at, now } => "сертификат передачи просрочен (".to_owned().concat(
                signed_decimal(*expires_at).as_str(),
            ).concat(" при текущем ").concat(signed_decimal(*now).as_str()).concat(")"),
        }
    }
}

/// A transfer, with what its bytes alone do not tell.
pub struct SignedTransfer<'a> {
    pub bytes: &'a [u8],
    /// Of each signature in the envelope, whether it holds under the key beside it.
    pub held: &'a [bool],
    /// The key under which the signature of the binding inside holds, where it does.
    pub signer: Option<[u8; KEY]>,
}

/// What is known of a transfer.
pub struct SignedTransferView {
    pub bytes: Seq<u8>,
    pub held: Seq<bool>,
    pub signer: Option<Seq<u8>>,
}

impl<'a> View for SignedTransfer<'a> {
    type V = SignedTransferView;

    open spec fn view(&self) -> SignedTransferView {
        SignedTransferView {
            bytes: self.bytes@,
            held: self.held@,
            signer: bytes::opt_array(self.signer),
        }
    }
}

/// What is known of several transfers.
pub open spec fn transfer_views(ts: Seq<SignedTransfer>) -> Seq<SignedTransferView> {
    ts.map_values(|t: SignedTransfer| t@)
}

/// What a server is before any transfer. The signature of its binding holds under
/// `signer`, where it holds; that has to be the anchor.
pub open spec fn anchored(first: Seq<u8>, signer: Option<Seq<u8>>, anchor: Seq<u8>) -> Result<
    EffectiveView,
    ChainErrorView,
> {
    match opened_binding(first, anchor, signer == Some(anchor)) {
        Err(FormatError::BadHeaderSignature) => Err(ChainErrorView::NotAnchored),
        Err(e) => Err(ChainErrorView::Malformed(e.says())),
        Ok(binding) => Ok(
            EffectiveView {
                binding,
                bytes: first,
                transition_at: None,
                old_leases: None,
                previous_keys: Seq::empty(),
            },
        ),
    }
}

/// How many of the signers are in the roster.
pub open spec fn votes(signers: Seq<Seq<u8>>, roster: Seq<Seq<u8>>) -> nat
    decreases signers.len(),
{
    if signers.len() == 0 {
        0
    } else if roster.contains(signers.last()) {
        votes(signers.drop_last(), roster) + 1
    } else {
        votes(signers.drop_last(), roster)
    }
}

/// What a server becomes by a transfer. The controllers of the epoch before authorise
/// it, and the new binding, whose bytes they signed, is signed with its own key.
pub open spec fn passed_on(e: EffectiveView, t: SignedTransferView, now: i64) -> Result<
    EffectiveView,
    ChainErrorView,
> {
    match opened_transfer(t.bytes, t.held) {
        Err(e) => Err(ChainErrorView::Malformed(e.says())),
        Ok((transfer, signers)) => {
            let have = votes(signers, e.binding.roster) as u8;
            if transfer.authority_id != e.binding.authority_id {
                Err(ChainErrorView::Broken("тождество сервера сменилось"@))
            } else if transfer.from_epoch != e.binding.epoch {
                Err(ChainErrorView::Broken("сертификат выписан не от действующей эпохи"@))
            } else if transfer.from_lease != e.binding.lease_public {
                Err(ChainErrorView::Broken("сертификат называет другой прежний ключ"@))
            } else if transfer.expires_at < now {
                Err(ChainErrorView::Expired { expires_at: transfer.expires_at, now })
            } else if e.binding.roster.len() == 0 || e.binding.threshold == 0 || have
                < e.binding.threshold {
                Err(ChainErrorView::NotAuthorized { have, need: e.binding.threshold })
            } else {
                match peeked_binding(transfer.binding) {
                    Err(e) => Err(ChainErrorView::Malformed(e.says())),
                    Ok(next) => if t.signer != Some(next.lease_public) {
                        Err(
                            ChainErrorView::Broken(
                                "привязка новой эпохи не подписана своим ключом"@,
                            ),
                        )
                    } else if next.epoch != transfer.to_epoch || next.authority_id
                        != transfer.authority_id {
                        Err(
                            ChainErrorView::Broken(
                                "привязка новой эпохи не та, что названа сертификатом"@,
                            ),
                        )
                    } else {
                        Ok(
                            EffectiveView {
                                binding: next,
                                bytes: transfer.binding,
                                transition_at: Some(transfer.transition_at),
                                old_leases: Some(transfer.old_leases),
                                previous_keys: e.previous_keys.push(e.binding.lease_public),
                            },
                        )
                    },
                }
            }
        },
    }
}

/// What a server has become behind transfers.
pub open spec fn succession(
    first: Seq<u8>,
    signer: Option<Seq<u8>>,
    transfers: Seq<SignedTransferView>,
    anchor: Seq<u8>,
    now: i64,
) -> Result<EffectiveView, ChainErrorView>
    decreases transfers.len(),
{
    if transfers.len() == 0 {
        anchored(first, signer, anchor)
    } else {
        match succession(first, signer, transfers.drop_last(), anchor, now) {
            Err(e) => Err(e),
            Ok(e) => passed_on(e, transfers.last(), now),
        }
    }
}

/// A transfer is accepted only where a quorum of the roster before it signed, and each
/// signature holds. The identity stays, and the epoch is the next.
pub proof fn passing_on_is_authorised(e: EffectiveView, t: SignedTransferView, now: i64)
    requires
        passed_on(e, t, now) is Ok,
    ensures
        ({
            let (transfer, signers) = opened_transfer(t.bytes, t.held)->Ok_0;
            let next = passed_on(e, t, now)->Ok_0;
            &&& votes(signers, e.binding.roster) >= e.binding.threshold >= 1
            &&& all_hold(t.held, signers.len())
            &&& t.signer == Some(next.binding.lease_public)
            &&& next.binding.authority_id == e.binding.authority_id
            &&& next.binding.epoch == e.binding.epoch + 1
            &&& next.previous_keys == e.previous_keys.push(e.binding.lease_public)
        }),
{
    let (ss, body) = enveloped(t.bytes)->Ok_0;
    signatures_in_counts(t.bytes.skip(1), t.bytes[0] as nat);
    votes_are_few(signers_of(ss), e.binding.roster);
}

proof fn votes_are_few(signers: Seq<Seq<u8>>, roster: Seq<Seq<u8>>)
    ensures
        votes(signers, roster) <= signers.len(),
    decreases signers.len(),
{
    if signers.len() > 0 {
        votes_are_few(signers.drop_last(), roster);
    }
}

/// The chain starts with the anchor and keeps the identity of the server. Each transfer
/// leads to the next epoch, and leaves one key behind.
pub proof fn succession_keeps_the_identity(
    first: Seq<u8>,
    signer: Option<Seq<u8>>,
    transfers: Seq<SignedTransferView>,
    anchor: Seq<u8>,
    now: i64,
)
    requires
        succession(first, signer, transfers, anchor, now) is Ok,
    ensures
        ({
            let root = opened_binding(first, anchor, signer == Some(anchor));
            let last = succession(first, signer, transfers, anchor, now)->Ok_0;
            &&& root is Ok
            &&& root->Ok_0.lease_public == anchor
            &&& signer == Some(anchor)
            &&& last.binding.authority_id == root->Ok_0.authority_id
            &&& last.binding.epoch == root->Ok_0.epoch + transfers.len()
            &&& last.previous_keys.len() == transfers.len()
            &&& transfers.len() > 0 ==> last.previous_keys[0] == anchor
        }),
    decreases transfers.len(),
{
    if transfers.len() > 0 {
        let head = transfers.drop_last();
        succession_keeps_the_identity(first, signer, head, anchor, now);
        let e = succession(first, signer, head, anchor, now)->Ok_0;
        passing_on_is_authorised(e, transfers.last(), now);
    }
}

proof fn succession_prefix(
    first: Seq<u8>,
    signer: Option<Seq<u8>>,
    transfers: Seq<SignedTransferView>,
    anchor: Seq<u8>,
    now: i64,
    n: int,
)
    requires
        0 <= n <= transfers.len(),
        succession(first, signer, transfers.take(n), anchor, now) is Err,
    ensures
        succession(first, signer, transfers, anchor, now) == succession(
            first,
            signer,
            transfers.take(n),
            anchor,
            now,
        ),
    decreases transfers.len() - n,
{
    if n == transfers.len() {
        assert(transfers.take(n) =~= transfers);
    } else {
        assert(transfers.take(n + 1).drop_last() =~= transfers.take(n));
        succession_prefix(first, signer, transfers, anchor, now, n + 1);
    }
}

/// The key is there, and it is the given one.
fn is_key(signer: &Option<[u8; KEY]>, key: &[u8; KEY]) -> (r: bool)
    ensures
        r == (bytes::opt_array(*signer) == Some(key@)),
{
    match signer {
        Some(k) => same(k.as_slice(), key.as_slice()),
        None => false,
    }
}

/// How many of the signers are in the roster.
fn count_votes(signers: &Vec<[u8; KEY]>, roster: &Vec<[u8; KEY]>) -> (r: usize)
    ensures
        r == votes(bytes::arrays(signers@), bytes::arrays(roster@)),
        r <= signers@.len(),
{
    let ghost all = bytes::arrays(signers@);
    let mut n: usize = 0;
    let mut i: usize = 0;
    assert(all.take(0) =~= Seq::empty());
    while i < signers.len()
        invariant
            n <= i <= signers@.len(),
            all == bytes::arrays(signers@),
            n == votes(all.take(i as int), bytes::arrays(roster@)),
        decreases signers@.len() - i,
    {
        proof {
            assert(all.take(i as int + 1).drop_last() =~= all.take(i as int));
            assert(all.take(i as int + 1).last() == signers@[i as int]@);
        }
        if has_key(roster, &signers[i]) {
            n = n + 1;
        }
        i = i + 1;
    }
    assert(all.take(i as int) =~= all);
    n
}

/// What a server becomes by a transfer.
fn pass_on(e: Effective, t: &SignedTransfer, now: i64) -> (r: Result<Effective, ChainError>)
    ensures
        match r {
            Ok(next) => passed_on(e@, t@, now) == Ok::<EffectiveView, ChainErrorView>(next@),
            Err(err) => passed_on(e@, t@, now) == Err::<EffectiveView, ChainErrorView>(err@),
        },
{
    let (transfer, signers) = match open_transfer(t.bytes, t.held) {
        Ok(opened) => opened,
        Err(err) => {
            return Err(ChainError::Malformed(err.text()));
        },
    };
    if !same(transfer.authority_id.as_slice(), e.binding.authority_id.as_slice()) {
        return Err(ChainError::Broken("тождество сервера сменилось"));
    }
    if transfer.from_epoch != e.binding.epoch {
        return Err(ChainError::Broken("сертификат выписан не от действующей эпохи"));
    }
    if !same(transfer.from_lease.as_slice(), e.binding.lease_public.as_slice()) {
        return Err(ChainError::Broken("сертификат называет другой прежний ключ"));
    }
    if transfer.expires_at < now {
        return Err(ChainError::Expired { expires_at: transfer.expires_at, now });
    }
    proof {
        signatures_in_counts(t.bytes@.skip(1), t.bytes@[0] as nat);
    }
    let have = count_votes(&signers, &e.binding.roster) as u8;
    if e.binding.roster.len() == 0 || e.binding.threshold == 0 || have < e.binding.threshold {
        return Err(ChainError::NotAuthorized { have, need: e.binding.threshold });
    }
    let next = match Binding::peek(transfer.binding.as_slice()) {
        Ok(next) => next,
        Err(err) => {
            return Err(ChainError::Malformed(err.text()));
        },
    };
    if !is_key(&t.signer, &next.lease_public) {
        return Err(ChainError::Broken("привязка новой эпохи не подписана своим ключом"));
    }
    if next.epoch != transfer.to_epoch || !same(
        next.authority_id.as_slice(),
        transfer.authority_id.as_slice(),
    ) {
        return Err(ChainError::Broken("привязка новой эпохи не та, что названа сертификатом"));
    }
    let mut previous_keys = e.previous_keys;
    previous_keys.push(e.binding.lease_public);
    assert(bytes::arrays(previous_keys@) =~= e@.previous_keys.push(e@.binding.lease_public));
    Ok(
        Effective {
            binding: next,
            bytes: transfer.binding,
            transition_at: Some(transfer.transition_at),
            old_leases: Some(transfer.old_leases),
            previous_keys,
        },
    )
}

/// Check a chain: the first binding by the anchor, each transfer by the roster of the
/// epoch before. No document of the chain makes itself trusted. `signer` is the key under
/// which the signature of the first binding holds, where it does.
pub fn verify_chain(
    first: &[u8],
    signer: Option<[u8; KEY]>,
    transfers: &[SignedTransfer],
    anchor: &[u8; KEY],
    now: i64,
) -> (r: Result<Effective, ChainError>)
    ensures
        ({
            let s = succession(
                first@,
                bytes::opt_array(signer),
                transfer_views(transfers@),
                anchor@,
                now,
            );
            match r {
                Ok(e) => s == Ok::<EffectiveView, ChainErrorView>(e@),
                Err(e) => s == Err::<EffectiveView, ChainErrorView>(e@),
            }
        }),
{
    let ghost all = transfer_views(transfers@);
    let ghost key = bytes::opt_array(signer);
    assert(all.take(0) =~= Seq::empty());
    let binding = match Binding::open(first, anchor, is_key(&signer, anchor)) {
        Ok(binding) => binding,
        Err(e) => {
            proof {
                succession_prefix(first@, key, all, anchor@, now, 0);
            }
            return match e {
                FormatError::BadHeaderSignature => Err(ChainError::NotAnchored),
                _ => Err(ChainError::Malformed(e.text())),
            };
        },
    };
    let previous_keys: Vec<[u8; KEY]> = Vec::new();
    assert(bytes::arrays(previous_keys@) =~= Seq::empty());
    let mut e = Effective {
        binding,
        bytes: owned(first),
        transition_at: None,
        old_leases: None,
        previous_keys,
    };
    let mut i: usize = 0;
    while i < transfers.len()
        invariant
            i <= transfers@.len(),
            all == transfer_views(transfers@),
            key == bytes::opt_array(signer),
            succession(first@, key, all.take(i as int), anchor@, now) == Ok::<
                EffectiveView,
                ChainErrorView,
            >(e@),
        decreases transfers@.len() - i,
    {
        proof {
            assert(all.take(i as int + 1).drop_last() =~= all.take(i as int));
            assert(all.take(i as int + 1).last() == transfers@[i as int]@);
        }
        e = match pass_on(e, &transfers[i], now) {
            Ok(next) => next,
            Err(err) => {
                proof {
                    succession_prefix(first@, key, all, anchor@, now, i as int + 1);
                }
                return Err(err);
            },
        };
        i = i + 1;
    }
    assert(all.take(i as int) =~= all);
    Ok(e)
}

} // verus!
