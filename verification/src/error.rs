//! The reasons for which decoding or encoding fails.

use vstd::prelude::*;

use crate::data::DataType;
use crate::table::ObjectType;

verus! {

/// Why bytes could not be taken from the input.
#[derive(Clone, Copy, Debug, PartialEq, Eq, Structural)]
pub enum IoErrorKind {
    /// The input ends before the bytes that were asked for.
    UnexpectedEof,
    /// Offsets or lengths found in the input contradict each other.
    InvalidData,
}

/// Why a file, a page or a row cannot be decoded.
#[derive(Clone, Copy, Debug, PartialEq)]
pub enum ReadError {
    Io(IoErrorKind),
    WrongHeaderSignature { expected: u32, read: u32 },
    WrongHeaderChecksum { calculated: u32, read: u32 },
    HeaderLongerThanPage { header_length: usize, page_size: usize },
    PageSizeNotDivisibleBy4 { page_size: usize },
    Page0,
    UnknownFormatVariant,
    UnknownPageType,
    UnexpectedFixedColumnDataType { table_id: i32, column_id: i32, data_type: DataType },
    UnexpectedVariableColumnDataType { table_id: i32, column_id: i32, data_type: DataType },
    UnexpectedTaggedColumnDataType { table_id: i32, column_id: i32, data_type: DataType },
    MissingRequiredColumn { name: &'static str },
    WrongColumnType { name: &'static str, expected: DataType, obtained: DataType },
    WrongObjectType { expected: ObjectType, obtained: ObjectType },
    SeparatedValueWithoutLongValueInfo,
    /// Text bytes are not valid in the column's code page.
    DecodeMalformed,
    /// No decoder is known for the column's code page.
    UnsupportedCodePage { code_page: i32 },
    /// The catalog holds no table of this name.
    TableNotFound { name: &'static str },
}

impl ReadError {
    /// Succeeds when `obtained` is the expected data type of column `name`.
    #[must_use]
    pub fn ensure_column_type(name: &'static str, expected: DataType, obtained: DataType) -> (r:
        Result<(), ReadError>)
        ensures
            expected.code() == obtained.code() ==> r == Ok::<(), ReadError>(()),
            expected.code() != obtained.code() ==> r == Err::<(), ReadError>(
                ReadError::WrongColumnType { name, expected, obtained },
            ),
    {
        if expected == obtained {
            Ok(())
        } else {
            Err(ReadError::WrongColumnType { name, expected, obtained })
        }
    }

    /// Succeeds when `obtained` is the expected kind of catalog object.
    #[must_use]
    pub fn ensure_object_type(expected: ObjectType, obtained: ObjectType) -> (r: Result<
        (),
        ReadError,
    >)
        ensures
            expected.code() == obtained.code() ==> r == Ok::<(), ReadError>(()),
            expected.code() != obtained.code() ==> r == Err::<(), ReadError>(
                ReadError::WrongObjectType { expected, obtained },
            ),
    {
        if expected == obtained {
            Ok(())
        } else {
            Err(ReadError::WrongObjectType { expected, obtained })
        }
    }
}

/// Why a value cannot be written.
#[derive(Clone, Copy, Debug, PartialEq)]
pub enum WriteError {
    Io(IoErrorKind),
    UnsignedOutOfRange { name: &'static str, value: u128, min_value: u128, max_value: u128 },
}

impl WriteError {
    /// Succeeds when `value` is at most `max_value`.
    pub fn check_unsigned_max(name: &'static str, value: u128, max_value: u128) -> (r: Result<
        (),
        WriteError,
    >)
        ensures
            value <= max_value ==> r == Ok::<(), WriteError>(()),
            value > max_value ==> r == Err::<(), WriteError>(
                WriteError::UnsignedOutOfRange { name, value, min_value: 0, max_value },
            ),
    {
        if value <= max_value {
            Ok(())
        } else {
            Err(WriteError::UnsignedOutOfRange { name, value, min_value: 0, max_value })
        }
    }
}

} // verus!
