//! Records: how they are laid out, and what a reader does with unknown ones.

use oc_protocol::bytes::{
    all_zero, array, flag_byte, is_before, join_arrays, read16, read16be, read32, read64, read64s,
    same, split_arrays, write16, write16be, write32, write64, write64s,
};
use oc_protocol::error::{bad, FormatError};
use oc_protocol::tlv::{
    check_bounded, check_flag, check_length, find, need, refuse, value_in, Field, TlvReader,
    TlvWriter, HEAD_LEN,
};
use oc_protocol::unknown::{refuse_if_critical, strip, unknown_verdict, LAST_CRITICAL_TAG};

fn fields(bytes: &[u8]) -> Result<Vec<Field<'_>>, FormatError> {
    let mut reader = TlvReader::new(bytes);
    let mut out = Vec::new();
    while let Some(f) = reader.next_field()? {
        out.push(f);
    }
    Ok(out)
}

fn document() -> Vec<u8> {
    let mut w = TlvWriter::new();
    w.put(1, b"one").unwrap();
    w.put(5, b"").unwrap();
    w.put(0x8000, b"later").unwrap();
    w.finish()
}

#[test]
fn a_record_is_a_tag_a_length_and_a_value() {
    let mut w = TlvWriter::new();
    w.put(0x0102, b"ab").unwrap();
    assert_eq!(w.finish(), [0x02, 0x01, 2, 0, 0, 0, b'a', b'b']);
    assert_eq!(HEAD_LEN, 6);
    assert!(TlvWriter::new().finish().is_empty());
}

#[test]
fn records_are_read_as_they_were_written() {
    let bytes = document();
    let read = fields(&bytes).unwrap();
    let pairs: Vec<(u16, &[u8])> = read.iter().map(|f| (f.tag, f.value)).collect();
    assert_eq!(pairs, vec![(1, b"one".as_slice()), (5, b""), (0x8000, b"later")]);
    assert_eq!(find(&read, 5), Some(b"".as_slice()));
    assert_eq!(find(&read, 6), None);
    assert_eq!(need(&read, 1), Ok(b"one".as_slice()));
    assert_eq!(need(&read, 2), Err(FormatError::MissingField { tag: 2 }));
}

#[test]
fn tags_ascend() {
    let mut w = TlvWriter::new();
    w.put(4, b"x").unwrap();
    assert_eq!(w.put(4, b"y"), Err(FormatError::FieldsOutOfOrder { previous: 4, found: 4 }));
    assert_eq!(w.put(2, b"y"), Err(FormatError::FieldsOutOfOrder { previous: 4, found: 2 }));
    w.put(5, b"z").unwrap();
    let bytes = w.finish();
    let mut doubled = bytes.clone();
    doubled.extend_from_slice(&bytes);
    assert!(matches!(
        fields(&doubled),
        Err(FormatError::FieldsOutOfOrder { previous: 5, found: 4 })
    ));
}

#[test]
fn a_document_that_breaks_off_is_refused() {
    let bytes = document();
    for n in 0..bytes.len() {
        let whole = n == 0 || n == 9 || n == 15;
        assert_eq!(fields(&bytes[..n]).is_ok(), whole, "{}", n);
    }
    let mut long = TlvWriter::new();
    long.put(1, b"abc").unwrap();
    let mut long = long.finish();
    long[2..6].copy_from_slice(&u32::MAX.to_le_bytes());
    assert!(fields(&long).is_err());
}

#[test]
fn a_value_is_found_before_a_broken_place() {
    let mut bytes = document();
    assert_eq!(value_in(&bytes, 1), Some(b"one".to_vec()));
    assert_eq!(value_in(&bytes, 5), Some(Vec::new()));
    assert_eq!(value_in(&bytes, 0x8000), Some(b"later".to_vec()));
    assert_eq!(value_in(&bytes, 7), None);
    bytes.pop();
    assert_eq!(value_in(&bytes, 1), Some(b"one".to_vec()));
    assert_eq!(value_in(&bytes, 0x8000), None);
    assert_eq!(value_in(&[1, 2, 3], 1), None);
}

#[test]
fn an_unknown_tag_is_fatal_where_it_is_critical() {
    assert_eq!(LAST_CRITICAL_TAG, 0x7fff);
    assert_eq!(unknown_verdict(0x7fff), Some(FormatError::UnknownCriticalField { tag: 0x7fff }));
    assert_eq!(unknown_verdict(0x8000), None);
    assert_eq!(refuse_if_critical(3), Err(FormatError::UnknownCriticalField { tag: 3 }));
    assert_eq!(refuse_if_critical(0xffff), Ok(()));
}

#[test]
fn a_document_is_stripped_of_its_optional_records() {
    let bytes = document();
    let stripped = strip(&fields(&bytes).unwrap());
    let mut w = TlvWriter::new();
    w.put(1, b"one").unwrap();
    w.put(5, b"").unwrap();
    assert_eq!(stripped, w.finish());
    assert_eq!(strip(&fields(&stripped).unwrap()), stripped);
}

#[test]
fn values_are_held_to_their_lengths() {
    assert_eq!(check_length(3, b"abcd", 4), None);
    assert_eq!(check_length(3, b"abc", 4), Some(bad(3, 3)));
    assert_eq!(check_bounded(3, b"abc", 3), None);
    assert_eq!(check_bounded(3, b"abcd", 3), Some(bad(3, 4)));
    assert_eq!(check_bounded(3, b"", 3), Some(bad(3, 0)));
    assert_eq!(check_flag(3, &[0]), None);
    assert_eq!(check_flag(3, &[1]), None);
    assert_eq!(check_flag(3, &[2]), Some(bad(3, 1)));
    assert_eq!(check_flag(3, &[1, 1]), Some(bad(3, 2)));
    assert_eq!(refuse(None), Ok(()));
    assert_eq!(refuse(Some(bad(1, 1))), Err(bad(1, 1)));
}

#[test]
fn numbers_are_laid_out_from_the_small_end() {
    assert_eq!(write16(0x0102), [2, 1]);
    assert_eq!(write16be(0x0102), [1, 2]);
    assert_eq!(write32(0x0102_0304), [4, 3, 2, 1]);
    assert_eq!(write64(1), [1, 0, 0, 0, 0, 0, 0, 0]);
    assert_eq!(write64s(-1), [0xff; 8]);
    assert_eq!(read16(&write16(0xbeef)), 0xbeef);
    assert_eq!(read16be(&write16be(0xbeef)), 0xbeef);
    assert_eq!(read32(&write32(0xdead_beef)), 0xdead_beef);
    assert_eq!(read64(&write64(u64::MAX - 1)), u64::MAX - 1);
    assert_eq!(read64s(&write64s(i64::MIN)), i64::MIN);
    assert_eq!(flag_byte(true), [1]);
    assert_eq!(flag_byte(false), [0]);
}

#[test]
fn bytes_are_compared_and_parted() {
    assert!(same(b"abc", b"abc"));
    assert!(!same(b"abc", b"abd"));
    assert!(!same(b"abc", b"ab"));
    assert!(is_before(b"abc", b"abd"));
    assert!(is_before(b"ab", b"abc"));
    assert!(!is_before(b"abc", b"abc"));
    assert!(!is_before(b"b", b"abc"));
    assert!(all_zero(&[0, 0]));
    assert!(!all_zero(&[0, 1]));
    let parts: Vec<[u8; 2]> = split_arrays(&[1, 2, 3, 4]);
    assert_eq!(parts, [[1, 2], [3, 4]]);
    assert_eq!(join_arrays(&parts), [1, 2, 3, 4]);
    let two: [u8; 2] = array(&[7, 8]);
    assert_eq!(two, [7, 8]);
}
