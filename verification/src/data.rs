//! Column data types and the values that columns hold.

use vstd::prelude::*;

verus! {

/// A stored boolean: zero is false, every other byte is true.
#[derive(Clone, Copy, Debug, Default, PartialEq, Eq, Structural, PartialOrd, Ord, Hash)]
pub struct Bit(pub u8);

impl Bit {
    /// Whether the stored byte means true.
    pub open spec fn spec_is_set(self) -> bool {
        self.0 != 0
    }

    /// Whether the stored byte means true.
    pub fn is_set(self) -> (r: bool)
        ensures
            r == self.spec_is_set(),
    {
        self.0 != 0x00
    }

    /// The byte that stores `value`: all bits set for true, none for false.
    pub fn from_bool(value: bool) -> (r: Bit)
        ensures
            r.spec_is_set() == value,
            r.0 == if value { 0xFFu8 } else { 0x00u8 },
    {
        Bit(if value { 0xFF } else { 0x00 })
    }
}

impl From<Bit> for bool {
    fn from(value: Bit) -> (r: bool) {
        value.0 != 0x00
    }
}

impl vstd::std_specs::convert::FromSpecImpl<Bit> for bool {
    open spec fn obeys_from_spec() -> bool {
        true
    }

    open spec fn from_spec(value: Bit) -> bool {
        value.0 != 0
    }
}

impl From<bool> for Bit {
    fn from(value: bool) -> (r: Bit) {
        Bit(if value { 0xFF } else { 0x00 })
    }
}

impl vstd::std_specs::convert::FromSpecImpl<bool> for Bit {
    open spec fn obeys_from_spec() -> bool {
        true
    }

    open spec fn from_spec(value: bool) -> Bit {
        Bit(if value { 0xFFu8 } else { 0x00u8 })
    }
}

/// The type of a column, as the catalog numbers it.
///
/// `Other` stands for every number without a name of its own. A value is
/// well formed when it is the one that `from_base_type` gives for its number.
#[derive(Clone, Copy, Debug)]
pub enum DataType {
    Nil,
    Bit,
    UnsignedByte,
    Short,
    Long,
    Currency,
    IeeeSingle,
    IeeeDouble,
    DateTime,
    Binary,
    Text,
    LongBinary,
    LongText,
    SuperLongValue,
    UnsignedLong,
    LongLong,
    Guid,
    UnsignedShort,
    Other(i32),
}

impl DataType {
    /// The catalog's number for this type.
    pub open spec fn code(self) -> i32 {
        match self {
            DataType::Nil => 0,
            DataType::Bit => 1,
            DataType::UnsignedByte => 2,
            DataType::Short => 3,
            DataType::Long => 4,
            DataType::Currency => 5,
            DataType::IeeeSingle => 6,
            DataType::IeeeDouble => 7,
            DataType::DateTime => 8,
            DataType::Binary => 9,
            DataType::Text => 10,
            DataType::LongBinary => 11,
            DataType::LongText => 12,
            DataType::SuperLongValue => 13,
            DataType::UnsignedLong => 14,
            DataType::LongLong => 15,
            DataType::Guid => 16,
            DataType::UnsignedShort => 17,
            DataType::Other(n) => n,
        }
    }

    /// The type that the catalog numbers `n`.
    pub open spec fn of_code(n: i32) -> DataType {
        if n == 0 {
            DataType::Nil
        } else if n == 1 {
            DataType::Bit
        } else if n == 2 {
            DataType::UnsignedByte
        } else if n == 3 {
            DataType::Short
        } else if n == 4 {
            DataType::Long
        } else if n == 5 {
            DataType::Currency
        } else if n == 6 {
            DataType::IeeeSingle
        } else if n == 7 {
            DataType::IeeeDouble
        } else if n == 8 {
            DataType::DateTime
        } else if n == 9 {
            DataType::Binary
        } else if n == 10 {
            DataType::Text
        } else if n == 11 {
            DataType::LongBinary
        } else if n == 12 {
            DataType::LongText
        } else if n == 13 {
            DataType::SuperLongValue
        } else if n == 14 {
            DataType::UnsignedLong
        } else if n == 15 {
            DataType::LongLong
        } else if n == 16 {
            DataType::Guid
        } else if n == 17 {
            DataType::UnsignedShort
        } else {
            DataType::Other(n)
        }
    }

    /// `Other` holds no number that has a name.
    pub open spec fn wf(self) -> bool {
        self matches DataType::Other(n) ==> !(0 <= n <= 17)
    }

    /// The number of bytes a value of this type takes in the fixed region of
    /// a row; `None` for the types of variable width.
    pub open spec fn spec_fixed_size(self) -> Option<usize> {
        match self {
            DataType::Nil => Some(0usize),
            DataType::Bit => Some(1usize),
            DataType::UnsignedByte => Some(1usize),
            DataType::Short => Some(2usize),
            DataType::Long => Some(4usize),
            DataType::Currency => Some(8usize),
            DataType::IeeeSingle => Some(4usize),
            DataType::IeeeDouble => Some(8usize),
            DataType::DateTime => Some(8usize),
            DataType::Binary => None,
            DataType::Text => None,
            DataType::LongBinary => None,
            DataType::LongText => None,
            DataType::SuperLongValue => None,
            DataType::UnsignedLong => Some(4usize),
            DataType::LongLong => Some(8usize),
            DataType::Guid => Some(16usize),
            DataType::UnsignedShort => Some(2usize),
            DataType::Other(_) => None,
        }
    }

    pub fn fixed_size(&self) -> (r: Option<usize>)
        ensures
            r == self.spec_fixed_size(),
    {
        match self {
            DataType::Nil => Some(0),
            DataType::Bit => Some(1),
            DataType::UnsignedByte => Some(1),
            DataType::Short => Some(2),
            DataType::Long => Some(4),
            DataType::Currency => Some(8),
            DataType::IeeeSingle => Some(4),
            DataType::IeeeDouble => Some(8),
            DataType::DateTime => Some(8),
            DataType::Binary => None,
            DataType::Text => None,
            DataType::LongBinary => None,
            DataType::LongText => None,
            DataType::SuperLongValue => None,
            DataType::UnsignedLong => Some(4),
            DataType::LongLong => Some(8),
            DataType::Guid => Some(16),
            DataType::UnsignedShort => Some(2),
            DataType::Other(_) => None,
        }
    }

    pub fn from_base_type(n: i32) -> (r: DataType)
        ensures
            r == Self::of_code(n),
            r.wf(),
            r.code() == n,
    {
        match n {
            0 => DataType::Nil,
            1 => DataType::Bit,
            2 => DataType::UnsignedByte,
            3 => DataType::Short,
            4 => DataType::Long,
            5 => DataType::Currency,
            6 => DataType::IeeeSingle,
            7 => DataType::IeeeDouble,
            8 => DataType::DateTime,
            9 => DataType::Binary,
            10 => DataType::Text,
            11 => DataType::LongBinary,
            12 => DataType::LongText,
            13 => DataType::SuperLongValue,
            14 => DataType::UnsignedLong,
            15 => DataType::LongLong,
            16 => DataType::Guid,
            17 => DataType::UnsignedShort,
            _ => DataType::Other(n),
        }
    }

    pub fn to_base_type(&self) -> (r: i32)
        ensures
            r == self.code(),
    {
        match self {
            DataType::Nil => 0,
            DataType::Bit => 1,
            DataType::UnsignedByte => 2,
            DataType::Short => 3,
            DataType::Long => 4,
            DataType::Currency => 5,
            DataType::IeeeSingle => 6,
            DataType::IeeeDouble => 7,
            DataType::DateTime => 8,
            DataType::Binary => 9,
            DataType::Text => 10,
            DataType::LongBinary => 11,
            DataType::LongText => 12,
            DataType::SuperLongValue => 13,
            DataType::UnsignedLong => 14,
            DataType::LongLong => 15,
            DataType::Guid => 16,
            DataType::UnsignedShort => 17,
            DataType::Other(n) => *n,
        }
    }
}

/// Two data types are equal when the catalog gives them the same number.
impl PartialEq for DataType {
    fn eq(&self, other: &DataType) -> (r: bool) {
        self.to_base_type() == other.to_base_type()
    }
}

impl vstd::std_specs::cmp::PartialEqSpecImpl for DataType {
    open spec fn obeys_eq_spec() -> bool {
        true
    }

    open spec fn eq_spec(&self, other: &DataType) -> bool {
        self.code() == other.code()
    }
}

impl Eq for DataType {

}

/// One decoded column value.
///
/// The two IEEE variants hold the bit pattern of the number, and `Guid`
/// holds the sixteen bytes of the identifier in its canonical field order.
#[derive(Clone, Debug, PartialEq)]
pub enum Data {
    Nil,
    Bit(Bit),
    UnsignedByte(u8),
    Short(i16),
    Long(i32),
    Currency(i64),
    IeeeSingle(u32),
    IeeeDouble(u64),
    DateTime(i64),
    Binary(Vec<u8>),
    Text(String),
    LongBinary(Vec<u8>),
    LongText(String),
    SuperLongValue(Vec<u8>),
    UnsignedLong(u32),
    LongLong(i64),
    Guid([u8; 16]),
    UnsignedShort(u16),
    Other(i32, Vec<u8>),
}

/// What a `Data` value holds, with byte and character sequences in place of
/// buffers.
pub enum DataView {
    Nil,
    Bit(Bit),
    UnsignedByte(u8),
    Short(i16),
    Long(i32),
    Currency(i64),
    IeeeSingle(u32),
    IeeeDouble(u64),
    DateTime(i64),
    Binary(Seq<u8>),
    Text(Seq<char>),
    LongBinary(Seq<u8>),
    LongText(Seq<char>),
    SuperLongValue(Seq<u8>),
    UnsignedLong(u32),
    LongLong(i64),
    Guid(Seq<u8>),
    UnsignedShort(u16),
    Other(i32, Seq<u8>),
}

impl View for Data {
    type V = DataView;

    open spec fn view(&self) -> DataView {
        match *self {
            Data::Nil => DataView::Nil,
            Data::Bit(b) => DataView::Bit(b),
            Data::UnsignedByte(v) => DataView::UnsignedByte(v),
            Data::Short(v) => DataView::Short(v),
            Data::Long(v) => DataView::Long(v),
            Data::Currency(v) => DataView::Currency(v),
            Data::IeeeSingle(v) => DataView::IeeeSingle(v),
            Data::IeeeDouble(v) => DataView::IeeeDouble(v),
            Data::DateTime(v) => DataView::DateTime(v),
            Data::Binary(v) => DataView::Binary(v@),
            Data::Text(v) => DataView::Text(v@),
            Data::LongBinary(v) => DataView::LongBinary(v@),
            Data::LongText(v) => DataView::LongText(v@),
            Data::SuperLongValue(v) => DataView::SuperLongValue(v@),
            Data::UnsignedLong(v) => DataView::UnsignedLong(v),
            Data::LongLong(v) => DataView::LongLong(v),
            Data::Guid(v) => DataView::Guid(v@),
            Data::UnsignedShort(v) => DataView::UnsignedShort(v),
            Data::Other(code, v) => DataView::Other(code, v@),
        }
    }
}

impl DataView {
    /// The type of the value.
    pub open spec fn data_type(self) -> DataType {
        match self {
            DataView::Nil => DataType::Nil,
            DataView::Bit(_) => DataType::Bit,
            DataView::UnsignedByte(_) => DataType::UnsignedByte,
            DataView::Short(_) => DataType::Short,
            DataView::Long(_) => DataType::Long,
            DataView::Currency(_) => DataType::Currency,
            DataView::IeeeSingle(_) => DataType::IeeeSingle,
            DataView::IeeeDouble(_) => DataType::IeeeDouble,
            DataView::DateTime(_) => DataType::DateTime,
            DataView::Binary(_) => DataType::Binary,
            DataView::Text(_) => DataType::Text,
            DataView::LongBinary(_) => DataType::LongBinary,
            DataView::LongText(_) => DataType::LongText,
            DataView::SuperLongValue(_) => DataType::SuperLongValue,
            DataView::UnsignedLong(_) => DataType::UnsignedLong,
            DataView::LongLong(_) => DataType::LongLong,
            DataView::Guid(_) => DataType::Guid,
            DataView::UnsignedShort(_) => DataType::UnsignedShort,
            DataView::Other(code, _) => DataType::Other(code),
        }
    }
}

impl Data {
    pub fn data_type(&self) -> (r: DataType)
        ensures
            r == self@.data_type(),
    {
        match self {
            Data::Nil => DataType::Nil,
            Data::Bit(_) => DataType::Bit,
            Data::UnsignedByte(_) => DataType::UnsignedByte,
            Data::Short(_) => DataType::Short,
            Data::Long(_) => DataType::Long,
            Data::Currency(_) => DataType::Currency,
            Data::IeeeSingle(_) => DataType::IeeeSingle,
            Data::IeeeDouble(_) => DataType::IeeeDouble,
            Data::DateTime(_) => DataType::DateTime,
            Data::Binary(_) => DataType::Binary,
            Data::Text(_) => DataType::Text,
            Data::LongBinary(_) => DataType::LongBinary,
            Data::LongText(_) => DataType::LongText,
            Data::SuperLongValue(_) => DataType::SuperLongValue,
            Data::UnsignedLong(_) => DataType::UnsignedLong,
            Data::LongLong(_) => DataType::LongLong,
            Data::Guid(_) => DataType::Guid,
            Data::UnsignedShort(_) => DataType::UnsignedShort,
            Data::Other(code, _value) => DataType::Other(*code),
        }
    }
}

} // verus!
