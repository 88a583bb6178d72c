//! Text columns: from the bytes of a value and the code page of its column
//! to a string.

use vstd::prelude::*;

use crate::byte_io::{le_u16_at, u16_at};
use crate::error::ReadError;

verus! {

/// The code page whose text is UTF-16, little-endian.
pub const UTF16LE_CODE_PAGE: i32 = 1200;

/// The longest text, in bytes, that is handed to a code page decoder.
pub const MAX_TEXT_BYTES: usize = 0x1000_0000;

/// Makes the error of `String::from_utf16` known as a type; nothing is said
/// of what it holds.
#[verifier::external_type_specification]
#[verifier::external_body]
pub struct ExFromUtf16Error(std::string::FromUtf16Error);

/// What `codepage::to_encoding` and then
/// `encoding_rs::Encoding::decode_with_bom_removal` make of `bytes` for the
/// Windows code page `page`: nothing where the first knows no encoding for
/// the code page; else the text that the second decodes, and whether it met
/// a malformed sequence.
pub uninterp spec fn code_page_decoding(page: u16, bytes: Seq<u8>) -> Option<(Seq<char>, bool)>;

/// What `String::from_utf16` makes of `units`: the text, or nothing where
/// the units are not valid UTF-16.
pub uninterp spec fn utf16_decoding(units: Seq<u16>) -> Option<Seq<char>>;

/// Looks the code page up with `codepage::to_encoding` and decodes `bytes`
/// with `encoding_rs::Encoding::decode_with_bom_removal`.
///
/// The contract only names the outcome: it is a function of the code page
/// and the bytes. The size of `bytes` is bounded because the decoder panics
/// where three times the size, and a little more, passes `usize`.
#[verifier::external_body]
fn decode_in_code_page(code_page: u16, bytes: &[u8]) -> (r: Option<(String, bool)>)
    requires
        bytes@.len() <= MAX_TEXT_BYTES,
    ensures
        match r {
            Some((text, malformed)) => code_page_decoding(code_page, bytes@) == Some(
                (text@, malformed),
            ),
            None => code_page_decoding(code_page, bytes@).is_none(),
        },
{
    match codepage::to_encoding(code_page) {
        Some(encoding) => {
            let (text, malformed) = encoding.decode_with_bom_removal(bytes);
            Some((text.into_owned(), malformed))
        },
        None => None,
    }
}

/// Calls `String::from_utf16`. The contract only names the outcome: it is a
/// function of the units.
#[verifier::external_body]
fn string_from_utf16(units: &[u16]) -> (r: Result<String, std::string::FromUtf16Error>)
    ensures
        match r {
            Ok(text) => utf16_decoding(units@) == Some(text@),
            Err(_) => utf16_decoding(units@).is_none(),
        },
{
    String::from_utf16(units)
}

/// The 16-bit units that `bytes` hold, little-endian, two bytes each.
pub open spec fn utf16_units(bytes: Seq<u8>) -> Seq<u16> {
    Seq::new((bytes.len() / 2) as nat, |i: int| le_u16_at(bytes, 2 * i))
}

/// The text of a code page decoding: there must be a decoder, and it must
/// have met no malformed sequence.
pub open spec fn spec_text_of_decoding(outcome: Option<(Seq<char>, bool)>, codepage: i32)
    -> Result<Seq<char>, ReadError> {
    match outcome {
        None => Err(ReadError::UnsupportedCodePage { code_page: codepage }),
        Some((text, malformed)) => if malformed {
            Err(ReadError::DecodeMalformed)
        } else {
            Ok(text)
        },
    }
}

/// The text of a UTF-16 decoding: the units must have been valid.
pub open spec fn spec_text_of_utf16(outcome: Option<Seq<char>>) -> Result<Seq<char>, ReadError> {
    match outcome {
        None => Err(ReadError::DecodeMalformed),
        Some(text) => Ok(text),
    }
}

/// The text that `bytes` hold in code page `codepage`.
///
/// Code page 1200 is UTF-16, little-endian, and takes an even number of
/// bytes. Every other code page from 1 to 65535 is decoded by its decoder,
/// if there is one, after a byte order mark of its own is removed. In both
/// a malformed sequence is a failure.
pub open spec fn spec_decode_string(bytes: Seq<u8>, codepage: i32) -> Result<Seq<char>, ReadError> {
    if codepage == UTF16LE_CODE_PAGE {
        if bytes.len() % 2 != 0 {
            Err(ReadError::DecodeMalformed)
        } else {
            spec_text_of_utf16(utf16_decoding(utf16_units(bytes)))
        }
    } else if codepage <= 0 || codepage > 0xFFFF {
        Err(ReadError::UnsupportedCodePage { code_page: codepage })
    } else if bytes.len() > MAX_TEXT_BYTES {
        Err(ReadError::DecodeMalformed)
    } else {
        spec_text_of_decoding(code_page_decoding(codepage as u16, bytes), codepage)
    }
}

/// Turns the outcome of a code page decoding into the text or the failure.
pub fn text_of_decoding(outcome: Option<(String, bool)>, codepage: i32) -> (r: Result<
    String,
    ReadError,
>)
    ensures
        match outcome {
            None => r == Err::<String, ReadError>(
                ReadError::UnsupportedCodePage { code_page: codepage },
            ),
            Some((text, malformed)) => if malformed {
                r == Err::<String, ReadError>(ReadError::DecodeMalformed)
            } else {
                r == Ok::<String, ReadError>(text)
            },
        },
{
    match outcome {
        None => Err(ReadError::UnsupportedCodePage { code_page: codepage }),
        Some((text, malformed)) => {
            if malformed {
                Err(ReadError::DecodeMalformed)
            } else {
                Ok(text)
            }
        },
    }
}

/// Turns the outcome of a UTF-16 decoding into the text or the failure.
pub fn text_of_utf16(outcome: Result<String, std::string::FromUtf16Error>) -> (r: Result<
    String,
    ReadError,
>)
    ensures
        match outcome {
            Err(_) => r == Err::<String, ReadError>(ReadError::DecodeMalformed),
            Ok(text) => r == Ok::<String, ReadError>(text),
        },
{
    match outcome {
        Ok(text) => Ok(text),
        Err(_) => Err(ReadError::DecodeMalformed),
    }
}

/// Collects the 16-bit units of an even number of bytes.
fn read_utf16_units(bytes: &[u8]) -> (r: Vec<u16>)
    requires
        bytes@.len() % 2 == 0,
    ensures
        r@ == utf16_units(bytes@),
{
    let count: usize = bytes.len() / 2;
    let mut words: Vec<u16> = Vec::new();
    let mut i: usize = 0;
    while i < count
        invariant
            i <= count,
            count == bytes@.len() / 2,
            bytes@.len() % 2 == 0,
            bytes@.len() <= usize::MAX,
            words@.len() == i,
            forall|k: int| 0 <= k < i ==> #[trigger] words@[k] == le_u16_at(bytes@, 2 * k),
        decreases count - i,
    {
        words.push(u16_at(bytes, 2 * i));
        i += 1;
    }
    assert(words@ =~= utf16_units(bytes@));
    words
}

/// Decodes the text that `bytes` hold in code page `codepage`.
pub fn decode_string(bytes: &[u8], codepage: i32) -> (r: Result<String, ReadError>)
    ensures
        match r {
            Ok(text) => spec_decode_string(bytes@, codepage) == Ok::<Seq<char>, ReadError>(text@),
            Err(e) => spec_decode_string(bytes@, codepage) == Err::<Seq<char>, ReadError>(e),
        },
{
    if codepage == UTF16LE_CODE_PAGE {
        if bytes.len() % 2 != 0 {
            return Err(ReadError::DecodeMalformed);
        }
        let words = read_utf16_units(bytes);
        return text_of_utf16(string_from_utf16(words.as_slice()));
    }
    if codepage <= 0 || codepage > 0xFFFF {
        return Err(ReadError::UnsupportedCodePage { code_page: codepage });
    }
    if bytes.len() > MAX_TEXT_BYTES {
        return Err(ReadError::DecodeMalformed);
    }
    text_of_decoding(decode_in_code_page(codepage as u16, bytes), codepage)
}

} // verus!
