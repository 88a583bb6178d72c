use esedb::data::{Bit, Data, DataType};
use esedb::error::{ReadError, WriteError};
use esedb::table::ObjectType;

#[test]
fn fixed_sizes_follow_the_type() {
    let sized = [
        (DataType::Nil, Some(0)),
        (DataType::Bit, Some(1)),
        (DataType::UnsignedByte, Some(1)),
        (DataType::Short, Some(2)),
        (DataType::Long, Some(4)),
        (DataType::Currency, Some(8)),
        (DataType::IeeeSingle, Some(4)),
        (DataType::IeeeDouble, Some(8)),
        (DataType::DateTime, Some(8)),
        (DataType::Binary, None),
        (DataType::Text, None),
        (DataType::LongBinary, None),
        (DataType::LongText, None),
        (DataType::SuperLongValue, None),
        (DataType::UnsignedLong, Some(4)),
        (DataType::LongLong, Some(8)),
        (DataType::Guid, Some(16)),
        (DataType::UnsignedShort, Some(2)),
        (DataType::Other(42), None),
    ];
    for (code, (data_type, size)) in sized.iter().enumerate() {
        assert_eq!(data_type.fixed_size(), *size);
        if code < 18 {
            assert_eq!(data_type.to_base_type(), code as i32);
            assert_eq!(DataType::from_base_type(code as i32), *data_type);
        }
    }
    assert_eq!(DataType::from_base_type(42).to_base_type(), 42);
    assert_eq!(DataType::from_base_type(-1).to_base_type(), -1);
    assert_eq!(DataType::Other(4), DataType::Long);
    assert_ne!(DataType::Other(18), DataType::UnsignedShort);
}

#[test]
fn data_knows_its_type() {
    let values = vec![
        Data::Nil,
        Data::Bit(Bit(1)),
        Data::UnsignedByte(1),
        Data::Short(1),
        Data::Long(1),
        Data::Currency(1),
        Data::IeeeSingle(1),
        Data::IeeeDouble(1),
        Data::DateTime(1),
        Data::Binary(vec![1]),
        Data::Text("1".to_string()),
        Data::LongBinary(vec![1]),
        Data::LongText("1".to_string()),
        Data::SuperLongValue(vec![1]),
        Data::UnsignedLong(1),
        Data::LongLong(1),
        Data::Guid([1; 16]),
        Data::UnsignedShort(1),
    ];
    for (code, value) in values.iter().enumerate() {
        assert_eq!(value.data_type().to_base_type(), code as i32);
    }
    assert_eq!(Data::Other(77, vec![]).data_type().to_base_type(), 77);
}

#[test]
fn bits_are_true_unless_zero() {
    assert!(!Bit(0).is_set());
    assert!(Bit(1).is_set());
    assert!(Bit(0x80).is_set());
    assert_eq!(Bit::from_bool(true), Bit(0xFF));
    assert_eq!(Bit::from_bool(false), Bit(0));
    assert!(bool::from(Bit(2)));
    assert!(!bool::from(Bit(0)));
    assert_eq!(Bit::from(true), Bit(0xFF));
    assert_eq!(Bit::from(false), Bit(0));
    assert_eq!(Bit::default(), Bit(0));
}

#[test]
fn column_types_are_compared_by_number() {
    assert_eq!(ReadError::ensure_column_type("Id", DataType::Long, DataType::Long), Ok(()));
    assert_eq!(ReadError::ensure_column_type("Id", DataType::Long, DataType::Other(4)), Ok(()));
    assert_eq!(
        ReadError::ensure_column_type("Id", DataType::Long, DataType::Short),
        Err(ReadError::WrongColumnType {
            name: "Id",
            expected: DataType::Long,
            obtained: DataType::Short
        })
    );
}

#[test]
fn object_types_are_compared_by_number() {
    assert_eq!(ReadError::ensure_object_type(ObjectType::Table, ObjectType::Table), Ok(()));
    assert_eq!(ReadError::ensure_object_type(ObjectType::Index, ObjectType::Other(3)), Ok(()));
    assert_eq!(
        ReadError::ensure_object_type(ObjectType::Table, ObjectType::Callback),
        Err(ReadError::WrongObjectType {
            expected: ObjectType::Table,
            obtained: ObjectType::Callback
        })
    );
    for code in 1..=5i16 {
        assert_eq!(ObjectType::from_base_type(code).to_base_type(), code);
    }
    assert_eq!(ObjectType::from_base_type(1), ObjectType::Table);
    assert_eq!(ObjectType::from_base_type(2), ObjectType::Column);
    assert_eq!(ObjectType::from_base_type(3), ObjectType::Index);
    assert_eq!(ObjectType::from_base_type(4), ObjectType::LongValue);
    assert_eq!(ObjectType::from_base_type(5), ObjectType::Callback);
    assert_eq!(ObjectType::from_base_type(0).to_base_type(), 0);
    assert_eq!(ObjectType::from_base_type(-7).to_base_type(), -7);
}

#[test]
fn unsigned_values_are_checked_against_their_maximum() {
    assert_eq!(WriteError::check_unsigned_max("value_offset", 0, 0), Ok(()));
    assert_eq!(WriteError::check_unsigned_max("value_offset", 0x1FFF, 0x1FFF), Ok(()));
    assert_eq!(
        WriteError::check_unsigned_max("value_offset", 0x2000, 0x1FFF),
        Err(WriteError::UnsignedOutOfRange {
            name: "value_offset",
            value: 0x2000,
            min_value: 0,
            max_value: 0x1FFF
        })
    );
    assert_eq!(
        WriteError::check_unsigned_max("wide", u128::MAX, u128::MAX - 1),
        Err(WriteError::UnsignedOutOfRange {
            name: "wide",
            value: u128::MAX,
            min_value: 0,
            max_value: u128::MAX - 1
        })
    );
}
