//! Why a document was not accepted, or could not be written.

use crate::text::{self, decimal, hexadecimal};
use vstd::prelude::*;

verus! {

/// The reasons for which the layout of a document is refused.
#[derive(Debug, Clone, Copy, PartialEq, Eq, Structural)]
pub enum FormatError {
    /// A value has a length, or holds a number, that its field does not admit.
    BadFieldLength { tag: u16, len: usize },
    /// A required field is absent.
    MissingField { tag: u16 },
    /// A field that must be understood is not known here.
    UnknownCriticalField { tag: u16 },
    /// A text field does not hold UTF-8.
    NotUtf8 { tag: u16 },
    /// A text field holds a character that could repaint the screen.
    BadNoteChar { tag: u16, code: u32 },
    /// An address holds a byte outside its alphabet.
    BadAddressByte { tag: u16, byte: u8 },
    /// The tags do not ascend.
    FieldsOutOfOrder { previous: u16, found: u16 },
    /// An offset or a length is outside what the layout can hold.
    OffsetOverflow,
    /// The bytes end before the document does.
    Truncated { need: u64, have: u64 },
    /// A signature does not hold.
    BadHeaderSignature,
    /// A lease of a version that is not read here.
    UnsupportedLeaseVersion { version: u16 },
}

impl FormatError {
    /// The reason in words. A character that may not be shown is named by its code.
    pub open spec fn says(self) -> Seq<char> {
        match self {
            FormatError::BadFieldLength { tag, len } => "поле "@ + text::digits(tag as nat)
                + ": длина или значение "@ + text::digits(len as nat) + " не допускается"@,
            FormatError::MissingField { tag } => "нет обязательного поля "@
                + text::digits(tag as nat),
            FormatError::UnknownCriticalField { tag } => "незнакомое критичное поле "@
                + text::digits(tag as nat),
            FormatError::NotUtf8 { tag } => "поле "@ + text::digits(tag as nat) + " не в UTF-8"@,
            FormatError::BadNoteChar { tag, code } => "поле "@ + text::digits(tag as nat)
                + ": знак U+"@ + text::hex_digits(code as nat, 4) + " показывать нельзя"@,
            FormatError::BadAddressByte { tag, byte } => "поле "@ + text::digits(tag as nat)
                + ": байт "@ + text::digits(byte as nat) + " в адресе не допускается"@,
            FormatError::FieldsOutOfOrder { previous, found } => "поля не по возрастанию: "@
                + text::digits(found as nat) + " после "@ + text::digits(previous as nat),
            FormatError::OffsetOverflow => "смещение или длина вне раскладки"@,
            FormatError::Truncated { need, have } => "документ обрывается: нужно "@
                + text::digits(need as nat) + ", осталось "@ + text::digits(have as nat),
            FormatError::BadHeaderSignature => "подпись не сходится"@,
            FormatError::UnsupportedLeaseVersion { version } => "версия лиза "@
                + text::digits(version as nat) + " здесь не читается"@,
        }
    }

    /// The reason in words.
    pub fn text(&self) -> (r: String)
        ensures
            r@ == self.says(),
    {
        match self {
            FormatError::BadFieldLength { tag, len } => "поле ".to_owned()
                .concat(decimal(*tag as u64).as_str())
                .concat(": длина или значение ")
                .concat(decimal(*len as u64).as_str())
                .concat(" не допускается"),
            FormatError::MissingField { tag } => "нет обязательного поля ".to_owned().concat(
                decimal(*tag as u64).as_str(),
            ),
            FormatError::UnknownCriticalField { tag } => "незнакомое критичное поле ".to_owned().concat(
                decimal(*tag as u64).as_str(),
            ),
            FormatError::NotUtf8 { tag } => "поле ".to_owned()
                .concat(decimal(*tag as u64).as_str())
                .concat(" не в UTF-8"),
            FormatError::BadNoteChar { tag, code } => "поле ".to_owned()
                .concat(decimal(*tag as u64).as_str())
                .concat(": знак U+")
                .concat(hexadecimal(*code, 4).as_str())
                .concat(" показывать нельзя"),
            FormatError::BadAddressByte { tag, byte } => "поле ".to_owned()
                .concat(decimal(*tag as u64).as_str())
                .concat(": байт ")
                .concat(decimal(*byte as u64).as_str())
                .concat(" в адресе не допускается"),
            FormatError::FieldsOutOfOrder { previous, found } => "поля не по возрастанию: ".to_owned()
                .concat(decimal(*found as u64).as_str())
                .concat(" после ")
                .concat(decimal(*previous as u64).as_str()),
            FormatError::OffsetOverflow => "смещение или длина вне раскладки".to_owned(),
            FormatError::Truncated { need, have } => "документ обрывается: нужно ".to_owned()
                .concat(decimal(*need as u64).as_str())
                .concat(", осталось ")
                .concat(decimal(*have as u64).as_str()),
            FormatError::BadHeaderSignature => "подпись не сходится".to_owned(),
            FormatError::UnsupportedLeaseVersion { version } => "версия лиза ".to_owned()
                .concat(decimal(*version as u64).as_str())
                .concat(" здесь не читается"),
        }
    }
}

/// The refusal of a value by its length.
pub fn bad(tag: u16, len: usize) -> (e: FormatError)
    ensures
        e == (FormatError::BadFieldLength { tag, len }),
{
    FormatError::BadFieldLength { tag, len }
}

/// The refusal of a document without a required field.
pub fn missing(tag: u16) -> (e: FormatError)
    ensures
        e == (FormatError::MissingField { tag }),
{
    FormatError::MissingField { tag }
}

} // verus!
