use std::collections::BTreeMap;

use esedb::catalog::{
    collect_tables, find_column_named, find_table, metadata_column_defs, read_catalog,
    read_catalog_row, CatalogRecord,
};
use esedb::data::{Bit, Data, DataType};
use esedb::error::{IoErrorKind, ReadError};
use esedb::header::{read_header, Header};
use esedb::table::{
    find_column, Column, ColumnFlags, Index, LongValueInfo, ObjectFlags, ObjectType, Table,
    TableHeader, Value, COLUMN_FIXED, OBJECT_SYSTEM,
};

fn catalog_row(
    kind: i16,
    table: i32,
    id: i32,
    coltyp_or_page: i32,
    space: i32,
    flags: i32,
    pages_or_locale: i32,
    name: &str,
) -> BTreeMap<i32, Value> {
    let mut row = BTreeMap::new();
    row.insert(1, Value::Simple(Data::Long(table)));
    row.insert(2, Value::Simple(Data::Short(kind)));
    row.insert(3, Value::Simple(Data::Long(id)));
    row.insert(4, Value::Simple(Data::Long(coltyp_or_page)));
    row.insert(5, Value::Simple(Data::Long(space)));
    row.insert(6, Value::Simple(Data::Long(flags)));
    row.insert(7, Value::Simple(Data::Long(pages_or_locale)));
    row.insert(128, Value::Simple(Data::Text(name.to_string())));
    row
}

#[test]
fn bootstrap_schema_has_ten_columns() {
    let columns = metadata_column_defs();
    let expected = [
        (1, DataType::Long, 4, "ObjidTable"),
        (2, DataType::Short, 2, "Type"),
        (3, DataType::Long, 4, "Id"),
        (4, DataType::Long, 4, "ColtypOrPgnoFDP"),
        (5, DataType::Long, 4, "SpaceUsage"),
        (6, DataType::Long, 4, "Flags"),
        (7, DataType::Long, 4, "PagesOrLocale"),
        (8, DataType::Bit, 1, "RootFlag"),
        (9, DataType::Short, 2, "RecordOffset"),
        (128, DataType::Text, 255, "Name"),
    ];
    assert_eq!(columns.len(), 10);
    for (column, (id, data_type, length, name)) in columns.iter().zip(expected.iter()) {
        assert_eq!(column.table_object_id, 2);
        assert_eq!(column.column_id, *id);
        assert_eq!(column.column_type, *data_type);
        assert_eq!(column.length, *length);
        assert_eq!(column.codepage, 1252);
        assert_eq!(column.root_flag, None);
        assert_eq!(column.record_offset, if *id == 128 { None } else { Some(4) });
        assert_eq!(
            column.flags,
            ColumnFlags { bits: if *id == 8 || *id == 9 { 0 } else { COLUMN_FIXED } }
        );
        assert_eq!(column.name, *name);
    }
    assert_eq!(find_column_named(&columns, "Flags"), Some(5));
    assert_eq!(find_column_named(&columns, "flags"), None);
    assert_eq!(find_column(&columns, 128), Some(9));
    assert_eq!(find_column(&columns, 10), None);
}

#[test]
fn collected_table_has_its_columns_by_id() {
    let columns = metadata_column_defs();
    let rows = vec![
        catalog_row(2, 5, 128, 10, 255, 0, 1252, "B"),
        catalog_row(1, 5, 5, 40, 80, 0, 3, "T"),
        catalog_row(2, 5, 1, 4, 4, 1, 1252, "A"),
    ];
    let tables = collect_tables(&rows, &columns).expect("a catalog");
    assert_eq!(tables.len(), 1);
    let table = &tables[0];
    assert_eq!(
        table.header,
        TableHeader {
            table_object_id: 5,
            fdp_object_id: 5,
            fdp_page_number: 40,
            density: 80,
            flags: ObjectFlags { bits: 0 },
            page_count: 3,
            root_flag: None,
            name: "T".to_string(),
        }
    );
    let ids: Vec<i32> = table.columns.iter().map(|c| c.column_id).collect();
    assert_eq!(ids, vec![1, 128]);
    assert_eq!(
        table.columns[0],
        Column {
            table_object_id: 5,
            column_id: 1,
            column_type: DataType::Long,
            length: 4,
            flags: ColumnFlags { bits: COLUMN_FIXED },
            codepage: 1252,
            root_flag: None,
            record_offset: None,
            name: "A".to_string(),
        }
    );
    assert_eq!(table.columns[1].column_type, DataType::Text);
    assert_eq!(table.columns[1].name, "B");
    assert!(table.indexes.is_empty());
    assert_eq!(table.long_value, None);
    assert_eq!(table.long_value_page_number(), None);
}

#[test]
fn collected_tables_come_by_id_with_all_that_belongs_to_them() {
    let columns = metadata_column_defs();
    let mut with_flags = catalog_row(2, 7, 3, 1, 1, 0, 1252, "flagged");
    with_flags.insert(8, Value::Simple(Data::Bit(Bit(0xFF))));
    with_flags.insert(9, Value::Simple(Data::Short(12)));
    let mut nil_flags = catalog_row(3, 7, 2, 31, 2, OBJECT_SYSTEM, 1033, "second");
    nil_flags.insert(8, Value::Simple(Data::Nil));
    nil_flags.insert(9, Value::Simple(Data::Nil));
    let rows = vec![
        catalog_row(1, 9, 9, 90, 0, 0, 1, "late"),
        catalog_row(2, 7, 300, 12, 0, 0, 1200, "tagged"),
        catalog_row(3, 7, 5, 30, 1, 0, 1033, "first"),
        nil_flags,
        catalog_row(4, 7, 1, 33, 1, 0, 2, "long"),
        catalog_row(5, 7, 1, 0, 0, 0, 0, "callback"),
        catalog_row(77, 7, 1, 0, 0, 0, 0, "unknown"),
        catalog_row(2, 8, 1, 4, 4, 0, 1252, "orphan"),
        with_flags,
        catalog_row(1, 7, 7, 70, 0, 0, 1, "replaced"),
        catalog_row(4, 7, 1, 34, 1, 0, 2, "longer"),
        catalog_row(2, 7, 3, 2, 2, 0, 1252, "twin"),
        catalog_row(1, 2, 2, 4, 0, 0, 1, "early"),
        catalog_row(1, 7, 7, 71, 0, 0, 1, "seven"),
        catalog_row(4, 9, 1, -3, 1, 0, 2, "negative"),
    ];
    let tables = collect_tables(&rows, &columns).expect("a catalog");
    let names: Vec<&str> = tables.iter().map(|t| t.header.name.as_str()).collect();
    assert_eq!(names, vec!["early", "seven", "late"]);
    let seven = &tables[1];
    assert_eq!(seven.header.fdp_page_number, 71);
    let column_names: Vec<&str> = seven.columns.iter().map(|c| c.name.as_str()).collect();
    assert_eq!(column_names, vec!["flagged", "twin", "tagged"]);
    assert_eq!(seven.columns[0].root_flag, Some(Bit(0xFF)));
    assert_eq!(seven.columns[0].record_offset, Some(12));
    assert_eq!(seven.columns[0].column_type, DataType::Bit);
    assert_eq!(seven.columns[2].column_type, DataType::LongText);
    assert_eq!(
        seven.indexes,
        vec![
            Index {
                table_object_id: 7,
                index_id: 2,
                fdp_page_number: 31,
                used_pages: 2,
                flags: ObjectFlags { bits: OBJECT_SYSTEM },
                locale: 1033,
                root_flag: None,
                record_offset: None,
                name: "second".to_string(),
            },
            Index {
                table_object_id: 7,
                index_id: 5,
                fdp_page_number: 30,
                used_pages: 1,
                flags: ObjectFlags { bits: 0 },
                locale: 1033,
                root_flag: None,
                record_offset: None,
                name: "first".to_string(),
            },
        ]
    );
    assert_eq!(
        seven.long_value,
        Some(LongValueInfo {
            table_object_id: 7,
            long_value_id: 1,
            fdp_page_number: 34,
            used_pages: 1,
            flags: ObjectFlags { bits: 0 },
            page_count: 2,
            name: "longer".to_string(),
        })
    );
    assert_eq!(seven.long_value_page_number(), Some(34));
    assert!(tables[0].columns.is_empty());
    assert_eq!(tables[2].long_value_page_number(), None);
    assert_eq!(find_table(&tables, "seven"), Some(1));
    assert_eq!(find_table(&tables, "replaced"), None);
    assert_eq!(collect_tables(&[], &columns), Ok(vec![]));
}

#[test]
fn catalog_rows_must_hold_what_their_kind_needs() {
    let columns = metadata_column_defs();
    let good = catalog_row(1, 5, 5, 40, 80, 0, 3, "T");
    assert!(matches!(read_catalog_row(&columns, &good), Ok(CatalogRecord::Table(_))));
    assert_eq!(
        read_catalog_row(&columns, &catalog_row(5, 5, 5, 40, 80, 0, 3, "T")),
        Ok(CatalogRecord::Other)
    );
    for (key, name) in [
        (2, "Type"),
        (1, "ObjidTable"),
        (3, "Id"),
        (4, "ColtypOrPgnoFDP"),
        (5, "SpaceUsage"),
        (6, "Flags"),
        (7, "PagesOrLocale"),
        (128, "Name"),
    ] {
        let mut missing = good.clone();
        missing.remove(&key);
        assert_eq!(
            collect_tables(&[missing], &columns),
            Err(ReadError::MissingRequiredColumn { name })
        );
        let mut complex = good.clone();
        complex.insert(
            key,
            Value::Complex { data: Data::Long(1), flags: esedb::table::TagFlags { bits: 0 } },
        );
        assert_eq!(
            collect_tables(&[complex], &columns),
            Err(ReadError::MissingRequiredColumn { name })
        );
        let mut wrong = good.clone();
        wrong.insert(key, Value::Simple(Data::UnsignedByte(1)));
        let expected = if key == 2 {
            DataType::Short
        } else if key == 128 {
            DataType::Text
        } else {
            DataType::Long
        };
        assert_eq!(
            collect_tables(&[wrong], &columns),
            Err(ReadError::WrongColumnType { name, expected, obtained: DataType::UnsignedByte })
        );
    }
    let mut bad_flag = good.clone();
    bad_flag.insert(8, Value::Simple(Data::Long(1)));
    assert_eq!(
        collect_tables(&[bad_flag], &columns),
        Err(ReadError::WrongColumnType {
            name: "RootFlag",
            expected: DataType::Bit,
            obtained: DataType::Long
        })
    );
    let mut bad_offset = catalog_row(2, 5, 1, 4, 4, 0, 1252, "A");
    bad_offset.insert(9, Value::Simple(Data::Long(1)));
    assert_eq!(
        collect_tables(&[good.clone(), bad_offset], &columns),
        Err(ReadError::WrongColumnType {
            name: "RecordOffset",
            expected: DataType::Short,
            obtained: DataType::Long
        })
    );
    assert_eq!(
        collect_tables(&[good.clone()], &columns[2..]),
        Err(ReadError::MissingRequiredColumn { name: "Type" })
    );
}

#[test]
fn records_are_read_as_the_kind_that_is_asked_for() {
    let columns = metadata_column_defs();
    let table = catalog_row(1, 5, 5, 40, 80, 0, 3, "T");
    let column = catalog_row(2, 5, 1, 4, 4, 0, 1252, "A");
    assert!(TableHeader::try_from_metadata(&columns, &table).is_ok());
    assert_eq!(
        TableHeader::try_from_metadata(&columns, &column),
        Err(ReadError::WrongObjectType {
            expected: ObjectType::Table,
            obtained: ObjectType::Column
        })
    );
    assert_eq!(
        Column::try_from_metadata(&columns, &table),
        Err(ReadError::WrongObjectType {
            expected: ObjectType::Column,
            obtained: ObjectType::Table
        })
    );
    assert_eq!(
        Index::try_from_metadata(&columns, &table),
        Err(ReadError::WrongObjectType { expected: ObjectType::Index, obtained: ObjectType::Table })
    );
    assert_eq!(
        LongValueInfo::try_from_metadata(&columns, &catalog_row(9, 5, 1, 4, 4, 0, 1252, "A")),
        Err(ReadError::WrongObjectType {
            expected: ObjectType::LongValue,
            obtained: ObjectType::Other(9)
        })
    );
    assert_eq!(Column::try_from_metadata(&columns, &column).map(|c| c.column_id), Ok(1));
    assert_eq!(
        Index::try_from_metadata(&columns, &catalog_row(3, 5, 1, 4, 4, 0, 1252, "I")).map(|i| i.name),
        Ok("I".to_string())
    );
    assert_eq!(
        LongValueInfo::try_from_metadata(&columns, &catalog_row(4, 5, 1, 4, 4, 0, 1252, "L"))
            .map(|l| l.fdp_page_number),
        Ok(4)
    );
}

fn catalog_file(pages: usize) -> (Vec<u8>, Header) {
    let page_size = 1024usize;
    let mut page = vec![0u8; page_size];
    page[4..8].copy_from_slice(&[0xEF, 0xCD, 0xAB, 0x89]);
    page[8..12].copy_from_slice(&0x620u32.to_le_bytes());
    page[236..240].copy_from_slice(&(page_size as u32).to_le_bytes());
    let mut checksum = 0u32;
    let mut at = 8;
    while at + 4 <= page.len() {
        checksum ^= u32::from_le_bytes([page[at], page[at + 1], page[at + 2], page[at + 3]]);
        at += 4;
    }
    page[0..4].copy_from_slice(&checksum.to_le_bytes());
    let header = read_header(&page, 0).expect("a valid header");
    let mut file = page.clone();
    file.extend_from_slice(&page);
    file.resize((pages + 2) * page_size, 0);
    (file, header)
}

fn put_catalog_page(file: &mut [u8], number: u64, flags: u32, payloads: &[Vec<u8>]) {
    let page_size = 1024usize;
    let start = (number as usize + 1) * page_size;
    let page = &mut file[start..start + page_size];
    for byte in page.iter_mut() {
        *byte = 0;
    }
    page[4..8].copy_from_slice(&(number as u32).to_le_bytes());
    page[34..36].copy_from_slice(&(payloads.len() as u16).to_le_bytes());
    page[36..40].copy_from_slice(&flags.to_le_bytes());
    let mut offset = 0usize;
    for (i, payload) in payloads.iter().enumerate() {
        page[40 + offset..40 + offset + payload.len()].copy_from_slice(payload);
        let tag_at = page_size - 4 * (i + 1);
        page[tag_at..tag_at + 2].copy_from_slice(&(payload.len() as u16).to_le_bytes());
        page[tag_at + 2..tag_at + 4].copy_from_slice(&(offset as u16).to_le_bytes());
        offset += payload.len();
    }
}

/// The leaf entry of a catalog row: seven fixed columns, and the name in
/// the first variable column.
fn stored_catalog_row(kind: i16, table: i32, id: i32, coltyp_or_page: i32, name: &str) -> Vec<u8> {
    let mut row = vec![7u8, 128, 31, 0];
    row.extend_from_slice(&table.to_le_bytes());
    row.extend_from_slice(&kind.to_le_bytes());
    row.extend_from_slice(&id.to_le_bytes());
    row.extend_from_slice(&coltyp_or_page.to_le_bytes());
    row.extend_from_slice(&4i32.to_le_bytes());
    row.extend_from_slice(&0i32.to_le_bytes());
    row.extend_from_slice(&1252i32.to_le_bytes());
    row.push(0);
    row.extend_from_slice(&(name.len() as u16).to_le_bytes());
    row.extend_from_slice(name.as_bytes());
    let mut payload = vec![0u8, 0];
    payload.extend_from_slice(&row);
    payload
}

fn catalog_branch(child: u32) -> Vec<u8> {
    let mut payload = vec![0u8, 0];
    payload.extend_from_slice(&child.to_le_bytes());
    payload
}

#[test]
fn catalog_is_read_in_two_passes() {
    let (mut file, header) = catalog_file(6);
    // Page 4 roots the tree that the first pass reads; its only leaf says
    // that the catalog table is rooted at page 5.
    put_catalog_page(&mut file, 4, 0x1 | 0x4, &[vec![0; 16], catalog_branch(3)]);
    put_catalog_page(
        &mut file,
        3,
        0x2,
        &[
            vec![0; 16],
            stored_catalog_row(1, 2, 2, 5, "MSysObjects"),
            stored_catalog_row(2, 2, 1, 4, "ObjidTable"),
            stored_catalog_row(2, 2, 2, 3, "Type"),
            stored_catalog_row(2, 2, 3, 4, "Id"),
            stored_catalog_row(2, 2, 4, 4, "ColtypOrPgnoFDP"),
            stored_catalog_row(2, 2, 5, 4, "SpaceUsage"),
            stored_catalog_row(2, 2, 6, 4, "Flags"),
            stored_catalog_row(2, 2, 7, 4, "PagesOrLocale"),
            stored_catalog_row(2, 2, 128, 10, "Name"),
            stored_catalog_row(1, 9, 9, 77, "gone"),
        ],
    );
    put_catalog_page(&mut file, 5, 0x1 | 0x4, &[vec![0; 16], catalog_branch(6)]);
    put_catalog_page(
        &mut file,
        6,
        0x2,
        &[
            vec![0; 16],
            stored_catalog_row(1, 2, 2, 5, "MSysObjects"),
            stored_catalog_row(1, 11, 11, 40, "datatable"),
            stored_catalog_row(2, 11, 2, 4, "DNT_col"),
            stored_catalog_row(2, 11, 1, 4, "PDNT_col"),
        ],
    );
    let tables = read_catalog(&file, &header).expect("a catalog");
    let names: Vec<&str> = tables.iter().map(|t| t.header.name.as_str()).collect();
    assert_eq!(names, vec!["MSysObjects", "datatable"]);
    let data_columns: Vec<&str> = tables[1].columns.iter().map(|c| c.name.as_str()).collect();
    assert_eq!(data_columns, vec!["PDNT_col", "DNT_col"]);
    assert_eq!(tables[1].header.fdp_page_number, 40);

    // Without the catalog table in the first pass there is no second.
    put_catalog_page(
        &mut file,
        3,
        0x2,
        &[vec![0; 16], stored_catalog_row(1, 9, 9, 77, "other")],
    );
    assert_eq!(
        read_catalog(&file, &header),
        Err(ReadError::TableNotFound { name: "MSysObjects" })
    );
    put_catalog_page(
        &mut file,
        3,
        0x2,
        &[vec![0; 16], stored_catalog_row(1, 2, 2, -5, "MSysObjects")],
    );
    assert_eq!(read_catalog(&file, &header), Err(ReadError::Io(IoErrorKind::InvalidData)));
    put_catalog_page(
        &mut file,
        3,
        0x2,
        &[vec![0; 16], stored_catalog_row(1, 2, 2, 500, "MSysObjects")],
    );
    assert_eq!(read_catalog(&file, &header), Err(ReadError::Io(IoErrorKind::UnexpectedEof)));
    let empty: Vec<Table> = Vec::new();
    assert_eq!(find_table(&empty, "MSysObjects"), None);
}
