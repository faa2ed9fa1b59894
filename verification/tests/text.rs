//! Text in documents, and the words of the errors.

use oc_protocol::error::{bad, missing, FormatError};
use oc_protocol::text::{
    byte_len, check_phrase, check_tenant, decimal, find_unsafe, hexadecimal, is_blank,
    is_display_unsafe, note_bytes_verdict, note_verdict, same_text, signed_decimal, text_of,
    utf8_text, MAX_NOTE, MAX_TENANT,
};

#[test]
fn bytes_are_read_as_utf8_or_not_at_all() {
    assert_eq!(text_of(b"abc"), Some("abc".to_owned()));
    assert_eq!(text_of("записка €😀".as_bytes()), Some("записка €😀".to_owned()));
    assert_eq!(text_of(b""), Some(String::new()));
    assert_eq!(text_of(&[0xff]), None);
    assert_eq!(text_of(&[b'a', 0xd0]), None);
    assert_eq!(text_of(&[0xc0, 0x80]), None);
    assert_eq!(text_of(&[0xed, 0xa0, 0x80]), None);
    assert_eq!(utf8_text("ключ".as_bytes()), "ключ");
}

#[test]
fn numbers_are_written_in_digits() {
    assert_eq!(decimal(0), "0");
    assert_eq!(decimal(7), "7");
    assert_eq!(decimal(1203), "1203");
    assert_eq!(decimal(u64::MAX), "18446744073709551615");
    assert_eq!(signed_decimal(0), "0");
    assert_eq!(signed_decimal(-42), "-42");
    assert_eq!(signed_decimal(i64::MIN), "-9223372036854775808");
    assert_eq!(signed_decimal(i64::MAX), "9223372036854775807");
    assert_eq!(hexadecimal(0x1b, 4), "001B");
    assert_eq!(hexadecimal(0x202e, 4), "202E");
    assert_eq!(hexadecimal(0xe0001, 4), "E0001");
    assert_eq!(hexadecimal(0, 1), "0");
}

#[test]
fn characters_that_repaint_a_screen_are_known() {
    for c in [
        '\0', '\n', '\u{1b}', '\u{7f}', '\u{85}', '\u{ad}', '\u{200b}', '\u{202e}', '\u{2066}', '\u{feff}',
    ] {
        assert!(is_display_unsafe(c), "{:?}", c);
    }
    for c in ['a', ' ', '~', 'я', '€', '😀', '\u{a0}'] {
        assert!(!is_display_unsafe(c), "{:?}", c);
    }
    assert_eq!(find_unsafe("ab\u{202e}c\n"), Some('\u{202e}'));
    assert_eq!(find_unsafe("всё чисто"), None);
}

#[test]
fn a_note_is_short_and_clean() {
    assert_eq!(note_verdict(9, "срочно"), None);
    assert_eq!(note_verdict(9, ""), None);
    assert_eq!(note_verdict(9, &"a".repeat(MAX_NOTE)), None);
    assert_eq!(note_verdict(9, &"a".repeat(MAX_NOTE + 1)), Some(bad(9, MAX_NOTE + 1)));
    assert_eq!(
        note_verdict(9, "a\u{1b}[2J"),
        Some(FormatError::BadNoteChar { tag: 9, code: 0x1b }),
    );
    assert_eq!(note_bytes_verdict(9, &[0xff, 0xfe]), Some(FormatError::NotUtf8 { tag: 9 }));
    assert_eq!(note_bytes_verdict(9, "да".as_bytes()), None);
}

#[test]
fn a_phrase_says_something() {
    assert_eq!(check_phrase(3, "отдел кадров", 64), None);
    assert_eq!(check_phrase(3, "", 64), Some(bad(3, 0)));
    assert_eq!(check_phrase(3, " \u{2003}\t", 64), Some(bad(3, 5)));
    assert_eq!(check_phrase(3, "четыре", 5), Some(bad(3, 12)));
    assert_eq!(
        check_phrase(3, "x\u{200b}y", 64),
        Some(FormatError::BadNoteChar { tag: 3, code: 0x200b })
    );
    assert!(is_blank("  "));
    assert!(!is_blank(" a "));
}

#[test]
fn the_name_of_an_organisation_is_narrow() {
    assert_eq!(check_tenant(1, "acme-2.example_x"), None);
    assert_eq!(check_tenant(1, &"a".repeat(MAX_TENANT)), None);
    assert_eq!(check_tenant(1, &"a".repeat(MAX_TENANT + 1)), Some(bad(1, MAX_TENANT + 1)));
    assert_eq!(check_tenant(1, ""), Some(bad(1, 0)));
    assert_eq!(check_tenant(1, "Acme"), Some(bad(1, 4)));
    assert_eq!(check_tenant(1, "акме"), Some(bad(1, 8)));
}

#[test]
fn texts_are_compared_by_what_they_say() {
    assert!(same_text("ключ", "ключ"));
    assert!(!same_text("ключ", "ключи"));
    assert!(!same_text("a", "b"));
    assert_eq!(byte_len("ключ"), 8);
}

#[test]
fn every_error_has_its_words() {
    assert_eq!(bad(7, 33).text(), "поле 7: длина или значение 33 не допускается");
    assert_eq!(missing(7).text(), "нет обязательного поля 7");
    assert_eq!(
        FormatError::UnknownCriticalField { tag: 12 }.text(),
        "незнакомое критичное поле 12"
    );
    assert_eq!(FormatError::NotUtf8 { tag: 5 }.text(), "поле 5 не в UTF-8");
    assert_eq!(
        FormatError::BadNoteChar { tag: 5, code: 0x202e }.text(),
        "поле 5: знак U+202E показывать нельзя"
    );
    assert_eq!(
        FormatError::BadAddressByte { tag: 5, byte: 47 }.text(),
        "поле 5: байт 47 в адресе не допускается"
    );
    assert_eq!(
        FormatError::FieldsOutOfOrder { previous: 4, found: 2 }.text(),
        "поля не по возрастанию: 2 после 4"
    );
    assert_eq!(FormatError::OffsetOverflow.text(), "смещение или длина вне раскладки");
    assert_eq!(
        FormatError::Truncated { need: 8, have: 3 }.text(),
        "документ обрывается: нужно 8, осталось 3"
    );
    assert_eq!(FormatError::BadHeaderSignature.text(), "подпись не сходится");
    assert_eq!(
        FormatError::UnsupportedLeaseVersion { version: 3 }.text(),
        "версия лиза 3 здесь не читается"
    );
}
