use std::collections::BTreeMap;

use esedb::data::{Bit, Data, DataType};
use esedb::error::{IoErrorKind, ReadError};
use esedb::header::{read_header, Header};
use esedb::row::{
    decode_row, decode_tagged_value, read_table_from_pages, reference_bytes_to_value_number,
};
use esedb::table::{
    Column, ColumnFlags, SmallTagFlags, TagFlags, Value, SMALL_TAG_DERIVED,
    SMALL_TAG_HAS_EXTENDED_FLAGS, SMALL_TAG_NULL, TAG_DERIVED, TAG_MULTI_VALUES, TAG_NULL,
    TAG_SEPARATED, TAG_TWO_VALUES,
};

const ROW_LEAF_PAGE: u32 = 0x2;
const ROW_BRANCH_PAGE: u32 = 0x4;
const ROW_ROOT_PAGE: u32 = 0x1;

fn row_file(page_size: u32, pages: usize) -> (Vec<u8>, Header) {
    let mut page = vec![0u8; page_size as usize];
    page[4..8].copy_from_slice(&[0xEF, 0xCD, 0xAB, 0x89]);
    page[8..12].copy_from_slice(&0x620u32.to_le_bytes());
    page[232..236].copy_from_slice(&0x0Cu32.to_le_bytes());
    page[236..240].copy_from_slice(&page_size.to_le_bytes());
    let mut checksum = 0u32;
    let mut at = 8;
    while at + 4 <= page.len() {
        checksum ^= u32::from_le_bytes([page[at], page[at + 1], page[at + 2], page[at + 3]]);
        at += 4;
    }
    page[0..4].copy_from_slice(&checksum.to_le_bytes());
    let header = read_header(&page, 0).expect("a valid header");
    let mut file = page.clone();
    file.extend_from_slice(&page);
    file.resize((pages + 2) * page_size as usize, 0);
    (file, header)
}

fn put_row_page(file: &mut [u8], page_size: usize, number: u64, flags: u32, payloads: &[Vec<u8>]) {
    let start = (number as usize + 1) * page_size;
    let page = &mut file[start..start + page_size];
    page[4..8].copy_from_slice(&(number as u32).to_le_bytes());
    page[34..36].copy_from_slice(&(payloads.len() as u16).to_le_bytes());
    page[36..40].copy_from_slice(&flags.to_le_bytes());
    let mut offset = 0usize;
    for (i, payload) in payloads.iter().enumerate() {
        page[40 + offset..40 + offset + payload.len()].copy_from_slice(payload);
        let tag_at = page_size - 4 * (i + 1);
        page[tag_at..tag_at + 2].copy_from_slice(&(payload.len() as u16).to_le_bytes());
        page[tag_at + 2..tag_at + 4].copy_from_slice(&(offset as u16).to_le_bytes());
        offset += payload.len();
    }
}

fn row_leaf(data: &[u8]) -> Vec<u8> {
    let mut payload = vec![0u8, 0];
    payload.extend_from_slice(data);
    payload
}

fn row_branch(child: u32) -> Vec<u8> {
    let mut payload = vec![0u8, 0];
    payload.extend_from_slice(&child.to_le_bytes());
    payload
}

/// A file whose page 1 roots a tree with a single leaf, page 2, that holds
/// `chunks` as its leaf entries.
fn long_value_file(chunks: &[&[u8]]) -> (Vec<u8>, Header) {
    let (mut file, header) = row_file(1024, 2);
    put_row_page(
        &mut file,
        1024,
        1,
        ROW_ROOT_PAGE | ROW_BRANCH_PAGE,
        &[vec![0; 16], row_branch(2)],
    );
    let mut payloads = vec![vec![0u8; 16]];
    for chunk in chunks {
        payloads.push(row_leaf(chunk));
    }
    put_row_page(&mut file, 1024, 2, ROW_LEAF_PAGE, &payloads);
    (file, header)
}

fn column(id: i32, column_type: DataType, length: i32, codepage: i32) -> Column {
    Column {
        table_object_id: 9,
        column_id: id,
        column_type,
        length,
        flags: ColumnFlags { bits: 0 },
        codepage,
        root_flag: None,
        record_offset: None,
        name: format!("c{}", id),
    }
}

fn decoded(row: &[u8], columns: &[Column]) -> Result<BTreeMap<i32, Value>, ReadError> {
    let (file, header) = row_file(1024, 0);
    decode_row(&file, &header, row, columns, 1024, None)
}

fn row_of(pairs: Vec<(i32, Value)>) -> BTreeMap<i32, Value> {
    let mut row = BTreeMap::new();
    for (key, value) in pairs {
        row.insert(key, value);
    }
    row
}

fn eof<T>() -> Result<T, ReadError> {
    Err(ReadError::Io(IoErrorKind::UnexpectedEof))
}

fn invalid<T>() -> Result<T, ReadError> {
    Err(ReadError::Io(IoErrorKind::InvalidData))
}

#[test]
fn four_long_columns_are_read_from_the_fixed_region() {
    let columns: Vec<Column> = (1..=4).map(|id| column(id, DataType::Long, 4, 1252)).collect();
    let fixed: [u8; 16] = [
        0x01, 0x00, 0x00, 0x00, 0xFF, 0xFF, 0xFF, 0xFF, 0x78, 0x56, 0x34, 0x12, 0x00, 0x00, 0x00,
        0x80,
    ];
    let mut row = vec![0x04, 0x00, 0x15, 0x00];
    row.extend_from_slice(&fixed);
    row.push(0x00);
    let mut expected = Vec::new();
    for i in 1..=4usize {
        let at = 4 + 4 * (i - 1);
        let v = i32::from_le_bytes([row[at], row[at + 1], row[at + 2], row[at + 3]]);
        expected.push((i as i32, Value::Simple(Data::Long(v))));
    }
    assert_eq!(decoded(&row, &columns), Ok(row_of(expected)));
    assert_eq!(
        decoded(&row, &columns).unwrap().get(&4),
        Some(&Value::Simple(Data::Long(i32::MIN)))
    );
    // The order of the schema does not matter.
    let mut shuffled = columns.clone();
    shuffled.reverse();
    assert_eq!(decoded(&row, &shuffled), decoded(&row, &columns));
    // The fixed region ends where the row says it ends: one byte less leaves
    // no room for the fourth value.
    let mut short = row.clone();
    short[2] = 0x14;
    assert_eq!(decoded(&short, &columns), eof());
}

#[test]
fn null_bit_makes_a_fixed_column_nil() {
    let columns = vec![column(1, DataType::Bit, 1, 1252)];
    assert_eq!(
        decoded(&[0x01, 0x00, 0x06, 0x00, 0xFF, 0x01], &columns),
        Ok(row_of(vec![(1, Value::Simple(Data::Nil))]))
    );
    assert_eq!(
        decoded(&[0x01, 0x00, 0x06, 0x00, 0xFF, 0x00], &columns),
        Ok(row_of(vec![(1, Value::Simple(Data::Bit(Bit(0xFF))))]))
    );
    assert_eq!(
        decoded(&[0x01, 0x00, 0x06, 0x00, 0xFF, 0xFE], &columns),
        Ok(row_of(vec![(1, Value::Simple(Data::Bit(Bit(0xFF))))]))
    );
}

#[test]
fn null_bits_are_counted_by_column_id() {
    let columns: Vec<Column> =
        (1..=9).map(|id| column(id, DataType::UnsignedByte, 1, 1252)).collect();
    let mut row = vec![9, 0, 15, 0];
    row.extend_from_slice(&[1, 2, 3, 4, 5, 6, 7, 8, 9]);
    row.extend_from_slice(&[0b1000_0010, 0b0000_0001]);
    let decoded = decoded(&row, &columns).expect("a row");
    for id in 1..=9 {
        let expected = if id == 2 || id == 8 || id == 9 {
            Data::Nil
        } else {
            Data::UnsignedByte(id as u8)
        };
        assert_eq!(decoded.get(&id), Some(&Value::Simple(expected)));
    }
}

#[test]
fn fixed_columns_of_every_width_are_read() {
    let columns = vec![
        column(1, DataType::Bit, 1, 1252),
        column(2, DataType::UnsignedByte, 1, 1252),
        column(3, DataType::Short, 2, 1252),
        column(4, DataType::Long, 4, 1252),
        column(5, DataType::Currency, 8, 1252),
        column(6, DataType::IeeeSingle, 4, 1252),
        column(7, DataType::IeeeDouble, 8, 1252),
        column(8, DataType::DateTime, 8, 1252),
        column(9, DataType::Binary, 3, 1252),
        column(10, DataType::Text, 2, 1252),
        column(11, DataType::UnsignedLong, 4, 1252),
        column(12, DataType::LongLong, 8, 1252),
        column(13, DataType::Guid, 16, 1252),
        column(14, DataType::UnsignedShort, 2, 1252),
    ];
    let guid: [u8; 16] = [
        0xA1, 0xA2, 0xA3, 0xA4, 0xB1, 0xB2, 0xC1, 0xC2, 0xD1, 0xD2, 0xD3, 0xD4, 0xD5, 0xD6, 0xD7,
        0xD8,
    ];
    let mut fixed = vec![0x00, 0x07, 0xFE, 0xFF];
    fixed.extend_from_slice(&(-5i32).to_le_bytes());
    fixed.extend_from_slice(&(-6i64).to_le_bytes());
    fixed.extend_from_slice(&1.5f32.to_le_bytes());
    fixed.extend_from_slice(&(-2.25f64).to_le_bytes());
    fixed.extend_from_slice(&0x0102_0304_0506_0708i64.to_le_bytes());
    fixed.extend_from_slice(&[9, 8, 7]);
    fixed.extend_from_slice(b"h\xE9");
    fixed.extend_from_slice(&0xFFFF_FFF0u32.to_le_bytes());
    fixed.extend_from_slice(&i64::MAX.to_le_bytes());
    fixed.extend_from_slice(&guid);
    fixed.extend_from_slice(&0xFFFEu16.to_le_bytes());
    let end = 4 + fixed.len() + 2;
    let mut row = vec![14, 0, end as u8, 0];
    row.extend_from_slice(&fixed);
    row.extend_from_slice(&[0, 0]);
    let decoded = decoded(&row, &columns).expect("a row");
    let simple = |id: i32| match decoded.get(&id) {
        Some(Value::Simple(data)) => data.clone(),
        other => panic!("unexpected {:?}", other),
    };
    assert_eq!(simple(1), Data::Bit(Bit(0)));
    assert_eq!(simple(2), Data::UnsignedByte(7));
    assert_eq!(simple(3), Data::Short(-2));
    assert_eq!(simple(4), Data::Long(-5));
    assert_eq!(simple(5), Data::Currency(-6));
    assert_eq!(simple(6), Data::IeeeSingle(1.5f32.to_bits()));
    assert_eq!(simple(7), Data::IeeeDouble((-2.25f64).to_bits()));
    assert_eq!(simple(8), Data::DateTime(0x0102_0304_0506_0708));
    assert_eq!(simple(9), Data::Binary(vec![9, 8, 7]));
    assert_eq!(simple(10), Data::Text("h\u{e9}".to_string()));
    assert_eq!(simple(11), Data::UnsignedLong(0xFFFF_FFF0));
    assert_eq!(simple(12), Data::LongLong(i64::MAX));
    assert_eq!(simple(13), Data::Guid(uuid::Uuid::from_bytes_le(guid).into_bytes()));
    assert_eq!(
        simple(13),
        Data::Guid([
            0xA4, 0xA3, 0xA2, 0xA1, 0xB2, 0xB1, 0xC2, 0xC1, 0xD1, 0xD2, 0xD3, 0xD4, 0xD5, 0xD6,
            0xD7, 0xD8
        ])
    );
    assert_eq!(simple(14), Data::UnsignedShort(0xFFFE));
    assert_eq!(decoded.len(), 14);
}

#[test]
fn row_holds_no_more_fixed_columns_than_it_says() {
    let columns: Vec<Column> = (1..=3).map(|id| column(id, DataType::Short, 2, 1252)).collect();
    assert_eq!(
        decoded(&[2, 0, 9, 0, 1, 0, 2, 0, 0], &columns),
        Ok(row_of(vec![
            (1, Value::Simple(Data::Short(1))),
            (2, Value::Simple(Data::Short(2)))
        ]))
    );
    // A schema with fewer fixed columns than the row holds reads what it knows.
    assert_eq!(
        decoded(&[5, 0, 11, 0, 1, 0, 2, 0, 3, 0, 0], &columns),
        Ok(row_of(vec![
            (1, Value::Simple(Data::Short(1))),
            (2, Value::Simple(Data::Short(2))),
            (3, Value::Simple(Data::Short(3)))
        ]))
    );
    assert_eq!(decoded(&[0, 0, 4, 0], &columns), Ok(BTreeMap::new()));
}

#[test]
fn types_that_cannot_be_fixed_are_rejected() {
    for data_type in [
        DataType::Nil,
        DataType::LongBinary,
        DataType::LongText,
        DataType::SuperLongValue,
        DataType::Other(99),
    ] {
        let columns = vec![column(1, data_type, 4, 1252)];
        assert_eq!(
            decoded(&[1, 0, 9, 0, 0, 0, 0, 0, 0], &columns),
            Err(ReadError::UnexpectedFixedColumnDataType {
                table_id: 9,
                column_id: 1,
                data_type
            })
        );
    }
    let negative = vec![column(1, DataType::Binary, -1, 1252)];
    assert_eq!(decoded(&[1, 0, 9, 0, 0, 0, 0, 0, 0], &negative), invalid());
}

#[test]
fn rows_that_are_cut_short_fail() {
    let columns = vec![column(1, DataType::Long, 4, 1252)];
    assert_eq!(decoded(&[], &columns), eof());
    assert_eq!(decoded(&[1, 0, 9], &columns), eof());
    assert_eq!(decoded(&[1, 0, 4, 0], &columns), invalid());
    assert_eq!(decoded(&[1, 0, 9, 0, 0, 0, 0, 0], &columns), eof());
    assert_eq!(decoded(&[1, 0, 8, 0, 1, 2, 3, 0], &columns), eof());
    assert_eq!(decoded(&[0, 128, 4, 0, 3], &columns), eof());
    assert_eq!(decoded(&[0, 128, 4, 0, 3, 0, 1, 2], &columns), eof());
    assert_eq!(decoded(&[0, 129, 4, 0, 3, 0, 1, 0, 1, 2, 3], &columns), invalid());
}

#[test]
fn variable_columns_are_cut_by_their_end_offsets() {
    let columns = vec![
        column(128, DataType::Text, 255, 1252),
        column(129, DataType::Binary, 255, 1252),
        column(130, DataType::Text, 255, 1200),
        column(131, DataType::Binary, 255, 1252),
    ];
    let mut row = vec![0, 131, 4, 0];
    row.extend_from_slice(&[3, 0, 3, 0x80, 7, 0, 9, 0]);
    row.extend_from_slice(b"abc");
    row.extend_from_slice(&[0x78, 0, 0x79, 0]);
    row.extend_from_slice(&[0xAA, 0xBB]);
    assert_eq!(
        decoded(&row, &columns),
        Ok(row_of(vec![
            (128, Value::Simple(Data::Text("abc".to_string()))),
            (130, Value::Simple(Data::Text("xy".to_string()))),
            (131, Value::Simple(Data::Binary(vec![0xAA, 0xBB]))),
        ]))
    );
}

#[test]
fn unknown_variable_column_keeps_its_bytes() {
    let columns = vec![column(128, DataType::Text, 255, 1252)];
    let mut row = vec![0, 129, 4, 0];
    row.extend_from_slice(&[2, 0, 6, 0]);
    row.extend_from_slice(b"hi");
    row.extend_from_slice(&[0xDE, 0xAD, 0xBE, 0xEF]);
    assert_eq!(
        decoded(&row, &columns),
        Ok(row_of(vec![
            (128, Value::Simple(Data::Text("hi".to_string()))),
            (129, Value::Simple(Data::Binary(vec![0xDE, 0xAD, 0xBE, 0xEF]))),
        ]))
    );
    assert_eq!(
        decoded(&row, &[]),
        Ok(row_of(vec![
            (128, Value::Simple(Data::Binary(b"hi".to_vec()))),
            (129, Value::Simple(Data::Binary(vec![0xDE, 0xAD, 0xBE, 0xEF]))),
        ]))
    );
}

#[test]
fn types_that_cannot_be_variable_are_rejected() {
    for data_type in [DataType::Long, DataType::LongText, DataType::Guid, DataType::Other(-3)] {
        let columns = vec![column(128, data_type, 4, 1252)];
        assert_eq!(
            decoded(&[0, 128, 4, 0, 1, 0, 7], &columns),
            Err(ReadError::UnexpectedVariableColumnDataType {
                table_id: 9,
                column_id: 128,
                data_type
            })
        );
    }
    let text = vec![column(128, DataType::Text, 4, 65001)];
    assert_eq!(decoded(&[0, 128, 4, 0, 1, 0, 0xFF], &text), Err(ReadError::DecodeMalformed));
}

fn tagged_row(entries: &[(u16, u16)], values: &[u8]) -> Vec<u8> {
    let mut row = vec![0, 0, 4, 0];
    for (column, word) in entries {
        row.extend_from_slice(&column.to_le_bytes());
        row.extend_from_slice(&word.to_le_bytes());
    }
    row.extend_from_slice(values);
    row
}

#[test]
fn separated_long_text_is_fetched_from_the_long_value_tree() {
    let chunks: Vec<&[u8]> = vec![b"0", b"1", b"2", b"3", b"4", b"5", b"6", b"foo", b"bar"];
    let (file, header) = long_value_file(&chunks);
    let columns = vec![column(258, DataType::LongText, 0, 1252)];
    let row = tagged_row(&[(258, 0x4004)], &[0x04, 0x07, 0x00, 0x00, 0x00]);
    assert_eq!(
        decode_row(&file, &header, &row, &columns, 1024, Some(1)),
        Ok(row_of(vec![(
            258,
            Value::Multiple {
                values: vec![
                    Data::LongText("foo".to_string()),
                    Data::LongText("bar".to_string())
                ],
                flags: TagFlags { bits: TAG_SEPARATED },
            }
        )]))
    );
    // The values are what a walk from the value's number on keeps.
    let mut walked = Vec::new();
    let mut cursor = 0;
    esedb::page::read_data_from_tree(&file, &header, 1, 7, 1, &mut walked, &mut cursor)
        .expect("a walk");
    assert_eq!(walked, vec![b"foo".to_vec(), b"bar".to_vec()]);

    let binary = vec![column(258, DataType::LongBinary, 0, 1252)];
    let last = tagged_row(&[(258, 0x4004)], &[0x04, 0x08]);
    assert_eq!(
        decode_row(&file, &header, &last, &binary, 1024, Some(1)),
        Ok(row_of(vec![(
            258,
            Value::Complex {
                data: Data::LongBinary(b"bar".to_vec()),
                flags: TagFlags { bits: TAG_SEPARATED }
            }
        )]))
    );
    let none = tagged_row(&[(258, 0x4004)], &[0x04, 0x09, 0x00]);
    assert_eq!(
        decode_row(&file, &header, &none, &binary, 1024, Some(1)),
        Ok(row_of(vec![(
            258,
            Value::Multiple { values: vec![], flags: TagFlags { bits: TAG_SEPARATED } }
        )]))
    );
}

#[test]
fn separated_value_needs_a_long_value_tree() {
    let (file, header) = long_value_file(&[b"x"]);
    let row = tagged_row(&[(258, 0x4004)], &[0x04, 0x00]);
    for data_type in [DataType::LongText, DataType::LongBinary] {
        let columns = vec![column(258, data_type, 0, 1252)];
        assert_eq!(
            decode_row(&file, &header, &row, &columns, 1024, None),
            Err(ReadError::SeparatedValueWithoutLongValueInfo)
        );
        assert_eq!(
            decode_row(&file, &header, &row, &columns, 1024, Some(77)),
            Err(ReadError::Io(IoErrorKind::UnexpectedEof))
        );
    }
    for data_type in [DataType::Long, DataType::Currency] {
        let columns = vec![column(258, data_type, 0, 1252)];
        assert_eq!(
            decode_row(&file, &header, &row, &columns, 1024, Some(1)),
            Err(ReadError::UnexpectedTaggedColumnDataType {
                table_id: 9,
                column_id: 258,
                data_type
            })
        );
    }
}

#[test]
fn two_values_share_a_tag() {
    let columns = vec![column(260, DataType::Long, 4, 1252)];
    let row = tagged_row(&[(260, 0x4004)], &[0x10, 0x04, 0x0A, 0, 0, 0, 0x14, 0, 0, 0]);
    assert_eq!(
        decoded(&row, &columns),
        Ok(row_of(vec![(
            260,
            Value::Multiple {
                values: vec![Data::Long(10), Data::Long(20)],
                flags: TagFlags { bits: TAG_TWO_VALUES },
            }
        )]))
    );
    let short = tagged_row(&[(260, 0x4004)], &[0x10, 0x09, 0x0A, 0, 0, 0]);
    assert_eq!(decoded(&short, &columns), eof());
    let empty = tagged_row(&[(260, 0x4008), (261, 0x4009)], &[0x10, 0]);
    assert_eq!(decoded(&empty, &columns), eof());
}

#[test]
fn many_values_share_a_tag() {
    let columns = vec![column(300, DataType::LongText, 0, 1252)];
    let mut item = vec![TAG_MULTI_VALUES];
    item.extend_from_slice(&[6, 0, 8, 0, 8, 0]);
    item.extend_from_slice(b"abcde");
    let row = tagged_row(&[(300, 0x4004)], &item);
    assert_eq!(
        decoded(&row, &columns),
        Ok(row_of(vec![(
            300,
            Value::Multiple {
                values: vec![
                    Data::LongText("ab".to_string()),
                    Data::LongText(String::new()),
                    Data::LongText("cde".to_string())
                ],
                flags: TagFlags { bits: TAG_MULTI_VALUES },
            }
        )]))
    );
    let one = tagged_row(&[(300, 0x4004)], &[TAG_MULTI_VALUES, 2, 0, b'z']);
    assert_eq!(
        decoded(&one, &columns),
        Ok(row_of(vec![(
            300,
            Value::Complex {
                data: Data::LongText("z".to_string()),
                flags: TagFlags { bits: TAG_MULTI_VALUES }
            }
        )]))
    );
    let none = tagged_row(&[(300, 0x4004)], &[TAG_MULTI_VALUES, 0, 0]);
    assert_eq!(
        decoded(&none, &columns),
        Ok(row_of(vec![(
            300,
            Value::Multiple { values: vec![], flags: TagFlags { bits: TAG_MULTI_VALUES } }
        )]))
    );
    for (broken, failure) in [
        (vec![TAG_MULTI_VALUES, 2], eof()),
        (vec![TAG_MULTI_VALUES, 9, 0, 1], eof()),
        (vec![TAG_MULTI_VALUES, 3, 0, 1], invalid()),
        (vec![TAG_MULTI_VALUES, 4, 0, 2, 0, 1], invalid()),
        (vec![TAG_MULTI_VALUES, 4, 0, 9, 0, 1], eof()),
    ] {
        assert_eq!(decoded(&tagged_row(&[(300, 0x4004)], &broken), &columns), failure);
    }
}

#[test]
fn tagged_values_run_to_the_next_value() {
    let columns = vec![
        column(256, DataType::Long, 4, 1252),
        column(257, DataType::Currency, 8, 1252),
        column(259, DataType::LongBinary, 0, 1252),
        column(400, DataType::LongText, 0, 1200),
    ];
    let mut values = Vec::new();
    values.extend_from_slice(&7i32.to_le_bytes());
    values.extend_from_slice(&(-8i64).to_le_bytes());
    values.extend_from_slice(&[1, 2, 3]);
    values.extend_from_slice(&[0x80, 9, 9]);
    values.extend_from_slice(&[0x00, 0x68, 0, 0x69, 0]);
    let row = tagged_row(
        &[
            (256, 20),
            (257, 24 | SMALL_TAG_DERIVED),
            (258, 32),
            (259, 35 | SMALL_TAG_HAS_EXTENDED_FLAGS | SMALL_TAG_DERIVED),
            (400, 38 | SMALL_TAG_HAS_EXTENDED_FLAGS),
        ],
        &values,
    );
    assert_eq!(
        decoded(&row, &columns),
        Ok(row_of(vec![
            (256, Value::Complex { data: Data::Long(7), flags: TagFlags { bits: 0 } }),
            (
                257,
                Value::Complex { data: Data::Currency(-8), flags: TagFlags { bits: TAG_DERIVED } }
            ),
            // The schema has no column 258: the bytes are kept as they are.
            (
                258,
                Value::Complex { data: Data::Binary(vec![1, 2, 3]), flags: TagFlags { bits: 0 } }
            ),
            (
                259,
                Value::Complex {
                    data: Data::LongBinary(vec![9, 9]),
                    flags: TagFlags { bits: TAG_DERIVED }
                }
            ),
            (
                400,
                Value::Complex {
                    data: Data::LongText("hi".to_string()),
                    flags: TagFlags { bits: 0 }
                }
            ),
        ]))
    );
}

#[test]
fn large_pages_give_every_tagged_value_a_flag_byte() {
    let columns = vec![column(256, DataType::Long, 4, 1252)];
    let (file, header) = row_file(1024, 0);
    let row = tagged_row(&[(256, 0x0004)], &[0x00, 5, 0, 0, 0]);
    assert_eq!(
        decode_row(&file, &header, &row, &columns, 16384, None),
        Ok(row_of(vec![(
            256,
            Value::Complex { data: Data::Long(5), flags: TagFlags { bits: 0 } }
        )]))
    );
    let derived = tagged_row(&[(256, 0x8004)], &[0x20, 5, 0, 0, 0]);
    assert_eq!(
        decode_row(&file, &header, &derived, &columns, 16384, None),
        Ok(row_of(vec![(
            256,
            Value::Complex { data: Data::Long(5), flags: TagFlags { bits: TAG_NULL | TAG_DERIVED } }
        )]))
    );
    // On a small page the same word has no flag byte and a smaller offset.
    assert_eq!(decode_row(&file, &header, &row, &columns, 8192, None), invalid());
    let wide = tagged_row(&[(256, 0x2004)], &[5, 0, 0, 0]);
    assert_eq!(
        decode_row(&file, &header, &wide, &columns, 8192, None),
        Ok(row_of(vec![(
            256,
            Value::Complex { data: Data::Long(5), flags: TagFlags { bits: TAG_NULL } }
        )]))
    );
}

#[test]
fn tagged_region_failures_are_told_apart() {
    let columns = vec![column(256, DataType::Long, 4, 1252), column(257, DataType::Text, 4, 1252)];
    assert_eq!(decoded(&tagged_row(&[], &[1, 2, 3]), &columns), eof());
    assert_eq!(decoded(&tagged_row(&[(256, 9)], &[1, 2, 3]), &columns), eof());
    assert_eq!(decoded(&tagged_row(&[(256, 8), (300, 4)], &[]), &columns), invalid());
    assert_eq!(decoded(&tagged_row(&[(256, 4)], &[1, 2, 3]), &columns), invalid());
    assert_eq!(decoded(&tagged_row(&[(256, 0x4004)], &[]), &columns), eof());
    assert_eq!(
        decoded(&tagged_row(&[(257, 4)], &[1, 2, 3, 4]), &columns),
        Err(ReadError::UnexpectedTaggedColumnDataType {
            table_id: 9,
            column_id: 257,
            data_type: DataType::Text
        })
    );
    // A column that the schema does not know keeps its bytes; a tag with the
    // id of a column of another region is passed over.
    assert_eq!(
        decoded(&tagged_row(&[(999, 4)], &[1, 2, 3]), &columns),
        Ok(row_of(vec![(
            999,
            Value::Complex { data: Data::Binary(vec![1, 2, 3]), flags: TagFlags { bits: 0 } }
        )]))
    );
    let low = vec![column(20, DataType::Long, 4, 1252)];
    assert_eq!(decoded(&tagged_row(&[(20, 4)], &[1, 2, 3, 4]), &low), Ok(BTreeMap::new()));
}

#[test]
fn unknown_tagged_columns_keep_their_bytes() {
    let columns = vec![column(256, DataType::Long, 4, 1252)];
    // The flag byte stays among the bytes, and nothing is looked up for it.
    let row = tagged_row(
        &[(600, 4 | SMALL_TAG_HAS_EXTENDED_FLAGS | SMALL_TAG_DERIVED)],
        &[TAG_SEPARATED, 7, 0, 0, 0],
    );
    assert_eq!(
        decoded(&row, &columns),
        Ok(row_of(vec![(
            600,
            Value::Complex {
                data: Data::Binary(vec![TAG_SEPARATED, 7, 0, 0, 0]),
                flags: TagFlags { bits: TAG_DERIVED }
            }
        )]))
    );
    // An empty value of an unknown column is an empty run of bytes.
    let empty = tagged_row(&[(256, 8), (600, 12)], &[5, 0, 0, 0]);
    assert_eq!(
        decoded(&empty, &columns),
        Ok(row_of(vec![
            (256, Value::Complex { data: Data::Long(5), flags: TagFlags { bits: 0 } }),
            (600, Value::Complex { data: Data::Binary(vec![]), flags: TagFlags { bits: 0 } }),
        ]))
    );
    // Of two entries with one id the later one stays.
    let twice = tagged_row(&[(600, 8), (600, 10)], &[1, 2, 3]);
    assert_eq!(
        decoded(&twice, &columns),
        Ok(row_of(vec![(
            600,
            Value::Complex { data: Data::Binary(vec![3]), flags: TagFlags { bits: 0 } }
        )]))
    );
    // On a large page the first byte of every value is a flag byte: it stays too.
    let (file, header) = row_file(1024, 0);
    let large = tagged_row(&[(600, 4)], &[0x10, 1, 2]);
    assert_eq!(
        decode_row(&file, &header, &large, &columns, 16384, None),
        Ok(row_of(vec![(
            600,
            Value::Complex { data: Data::Binary(vec![0x10, 1, 2]), flags: TagFlags { bits: 0 } }
        )]))
    );
}

#[test]
fn fixed_columns_are_held_by_their_id() {
    // The row holds the fixed columns with an id of at most 2: of the schema's
    // columns 1 and 3 that is the first alone.
    let columns = vec![column(1, DataType::Long, 4, 1252), column(3, DataType::Short, 2, 1252)];
    let row = vec![2, 0, 9, 0, 7, 0, 0, 0, 0x00];
    assert_eq!(decoded(&row, &columns), Ok(row_of(vec![(1, Value::Simple(Data::Long(7)))])));
    // With 3 as the last id both are there, and the bit of column 3 is the third.
    let mut both = vec![3, 0, 11, 0, 7, 0, 0, 0, 5, 0, 0x00];
    assert_eq!(
        decoded(&both, &columns),
        Ok(row_of(vec![(1, Value::Simple(Data::Long(7))), (3, Value::Simple(Data::Short(5)))]))
    );
    both[10] = 0x04;
    assert_eq!(
        decoded(&both, &columns),
        Ok(row_of(vec![(1, Value::Simple(Data::Long(7))), (3, Value::Simple(Data::Nil))]))
    );
    // A row that ends with the id 1 holds nothing of the columns 2 and 3.
    let later = vec![column(2, DataType::Long, 4, 1252), column(3, DataType::Long, 4, 1252)];
    assert_eq!(decoded(&vec![1, 0, 5, 0, 0x00], &later), Ok(BTreeMap::new()));
}

#[test]
fn all_three_regions_fill_one_row() {
    let columns = vec![
        column(300, DataType::Long, 4, 1252),
        column(128, DataType::Text, 255, 1252),
        column(2, DataType::Short, 2, 1252),
        column(1, DataType::Long, 4, 1252),
    ];
    let mut row = vec![2, 128, 11, 0];
    row.extend_from_slice(&[1, 0, 0, 0, 2, 0, 0x02]);
    row.extend_from_slice(&[2, 0]);
    row.extend_from_slice(b"ab");
    row.extend_from_slice(&[0x2C, 0x01, 4, 0]);
    row.extend_from_slice(&[3, 0, 0, 0]);
    let decoded = decoded(&row, &columns).expect("a row");
    assert_eq!(
        decoded,
        row_of(vec![
            (1, Value::Simple(Data::Long(1))),
            (2, Value::Simple(Data::Nil)),
            (128, Value::Simple(Data::Text("ab".to_string()))),
            (300, Value::Complex { data: Data::Long(3), flags: TagFlags { bits: 0 } }),
        ])
    );
    for (key, value) in &decoded {
        let simple = matches!(value, Value::Simple(_));
        assert!(*key >= 1);
        assert_eq!(simple, *key < 256);
        if *key < 128 || *key >= 256 {
            assert!(columns.iter().any(|c| c.column_id == *key));
        }
    }
}

#[test]
fn value_numbers_are_little_endian() {
    assert_eq!(reference_bytes_to_value_number(&[]), Some(0));
    assert_eq!(reference_bytes_to_value_number(&[7, 0, 0, 0]), Some(7));
    assert_eq!(reference_bytes_to_value_number(&[0x34, 0x12]), Some(0x1234));
    assert_eq!(reference_bytes_to_value_number(&[1, 2, 3]), Some(0x03_0201));
    assert_eq!(reference_bytes_to_value_number(&[0xFF; 4]), Some(0xFFFF_FFFF));
    assert_eq!(reference_bytes_to_value_number(&[0xFF; 17]), None);
    assert_eq!(reference_bytes_to_value_number(&[0, 0, 0, 0, 0, 0, 0, 0, 0, 0, 0, 0]), Some(0));
}

#[test]
fn tagged_value_is_complex_with_one_piece_of_data() {
    let (file, header) = row_file(1024, 0);
    let long = column(256, DataType::Long, 4, 1252);
    assert_eq!(
        decode_tagged_value(&file, &header, None, &long, SmallTagFlags { bits: 0 }, &[1, 0, 0, 0]),
        Ok(Value::Complex { data: Data::Long(1), flags: TagFlags { bits: 0 } })
    );
    assert_eq!(
        decode_tagged_value(
            &file,
            &header,
            None,
            &long,
            SmallTagFlags { bits: SMALL_TAG_NULL },
            &[1, 0, 0, 0]
        ),
        Ok(Value::Complex { data: Data::Long(1), flags: TagFlags { bits: TAG_NULL } })
    );
    assert_eq!(
        TagFlags::from_small(SmallTagFlags { bits: 0xE000 }),
        TagFlags { bits: TAG_NULL | TAG_DERIVED }
    );
    assert_eq!(TagFlags::from_small(SmallTagFlags { bits: 0x4000 }), TagFlags::empty());
}

#[test]
fn table_is_read_leaf_by_leaf() {
    let (mut file, header) = row_file(1024, 3);
    put_row_page(
        &mut file,
        1024,
        1,
        ROW_ROOT_PAGE | ROW_BRANCH_PAGE,
        &[vec![0; 16], row_branch(2), row_branch(3)],
    );
    put_row_page(
        &mut file,
        1024,
        2,
        ROW_LEAF_PAGE,
        &[vec![0; 16], row_leaf(&[1, 0, 7, 0, 1, 0, 0]), row_leaf(&[1, 0, 7, 0, 2, 0, 0])],
    );
    put_row_page(&mut file, 1024, 3, ROW_LEAF_PAGE, &[vec![0; 16], row_leaf(&[1, 0, 7, 0, 3, 0, 1])]);
    let columns = vec![column(1, DataType::Short, 2, 1252)];
    assert_eq!(
        read_table_from_pages(&file, &header, 1, &columns, None),
        Ok(vec![
            row_of(vec![(1, Value::Simple(Data::Short(1)))]),
            row_of(vec![(1, Value::Simple(Data::Short(2)))]),
            row_of(vec![(1, Value::Simple(Data::Nil))]),
        ])
    );
    let long = vec![column(1, DataType::Long, 4, 1252)];
    assert_eq!(read_table_from_pages(&file, &header, 1, &long, None), eof());
    assert_eq!(
        read_table_from_pages(&file, &header, 0, &columns, None),
        Err(ReadError::Page0)
    );
}
