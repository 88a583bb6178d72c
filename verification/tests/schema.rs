use std::collections::BTreeMap;

use esedb::data::{Data, DataType};
use esedb::schema::{
    collect_schema_attributes, collect_schema_classes, extract_dnt, find_schema_root,
    get_first_value, row_contains_long, row_contains_long_text, Attribute, ObjectClass,
    SchemaError,
};
use esedb::table::{Column, ColumnFlags, ObjectFlags, Table, TableHeader, TagFlags, Value};

const DNT: i32 = 1;
const PDNT: i32 = 2;
const CLASS: i32 = 256;
const NAME: i32 = 257;
const GOVERNS: i32 = 258;
const ATTRIBUTE_ID: i32 = 259;
const SYNTAX: i32 = 260;
const LDAP_NAME: i32 = 261;

fn data_column(id: i32, name: &str) -> Column {
    Column {
        table_object_id: 11,
        column_id: id,
        column_type: DataType::Long,
        length: 4,
        flags: ColumnFlags { bits: 0 },
        codepage: 1252,
        root_flag: None,
        record_offset: None,
        name: name.to_string(),
    }
}

fn data_table() -> Table {
    Table {
        header: TableHeader {
            table_object_id: 11,
            fdp_object_id: 11,
            fdp_page_number: 40,
            density: 0,
            flags: ObjectFlags { bits: 0 },
            page_count: 0,
            root_flag: None,
            name: "datatable".to_string(),
        },
        columns: vec![
            data_column(DNT, "DNT_col"),
            data_column(PDNT, "PDNT_col"),
            data_column(CLASS, "ATTc0"),
            data_column(NAME, "ATTm589825"),
            data_column(GOVERNS, "ATTc131094"),
            data_column(ATTRIBUTE_ID, "ATTc131102"),
            data_column(SYNTAX, "ATTc131104"),
            data_column(LDAP_NAME, "ATTm131532"),
        ],
        indexes: vec![],
        long_value: None,
    }
}

fn tagged(data: Data) -> Value {
    Value::Complex { data, flags: TagFlags { bits: 0 } }
}

fn longs(values: &[i32]) -> Value {
    Value::Multiple {
        values: values.iter().map(|v| Data::Long(*v)).collect(),
        flags: TagFlags { bits: 0 },
    }
}

fn object(dnt: i32, parent: i32, classes: &[i32], name: &str) -> BTreeMap<i32, Value> {
    let mut row = BTreeMap::new();
    row.insert(DNT, Value::Simple(Data::Long(dnt)));
    row.insert(PDNT, Value::Simple(Data::Long(parent)));
    row.insert(CLASS, longs(classes));
    row.insert(NAME, tagged(Data::LongText(name.to_string())));
    row
}

fn class_object(dnt: i32, parent: i32, id: i32, name: &str) -> BTreeMap<i32, Value> {
    let mut row = object(dnt, parent, &[196621, 65536], name);
    row.insert(GOVERNS, tagged(Data::Long(id)));
    row.insert(LDAP_NAME, tagged(Data::LongText(name.to_string())));
    row
}

fn attribute_object(dnt: i32, parent: i32, id: i32, syntax: i32, name: &str) -> BTreeMap<i32, Value> {
    let mut row = object(dnt, parent, &[196622], name);
    row.insert(ATTRIBUTE_ID, tagged(Data::Long(id)));
    row.insert(SYNTAX, tagged(Data::Long(syntax)));
    row.insert(LDAP_NAME, tagged(Data::LongText(name.to_string())));
    row
}

#[test]
fn column_name_is_built_from_syntax_and_id() {
    let name = |syntax: i32, id: i32| {
        Attribute { id, syntax, ldap_name: String::new() }.to_column_name()
    };
    assert_eq!(name(0x80002, 0), "ATTc0");
    assert_eq!(name(0x80000 + 12, 589825), "ATTm589825");
    assert_eq!(name(0x80002, 131094), "ATTc131094");
    assert_eq!(name(0x80000, 7), "ATTa7");
    assert_eq!(name(0x80000 + 25, 10), "ATTz10");
    assert_eq!(name(0x80000 + 9, i32::MAX), "ATTj2147483647");
    assert_eq!(name(0x80000 + 9, -45), "ATTj-45");
    assert_eq!(name(0x80000 + 9, i32::MIN), "ATTj-2147483648");
    for (syntax, id) in [(0x80001, 1), (0x80010, 99), (0x80019, 1000), (0x8000B, 90909)] {
        let letter = char::from_u32((syntax - 0x80000) as u32 + 'a' as u32).unwrap();
        assert_eq!(name(syntax, id), format!("ATT{}{}", letter, id));
    }
}

#[test]
fn column_name_needs_a_syntax_with_a_letter() {
    let attribute = |syntax: i32| Attribute { id: 3, syntax, ldap_name: "x".to_string() };
    assert_eq!(attribute(0x80000).column_name(), Some("ATTa3".to_string()));
    assert_eq!(attribute(0x80019).column_name(), Some("ATTz3".to_string()));
    assert_eq!(attribute(0x7FFFF).column_name(), None);
    assert_eq!(attribute(0x8001A).column_name(), None);
    assert_eq!(attribute(0).column_name(), None);
    assert_eq!(attribute(i32::MIN).column_name(), None);
}

#[test]
fn values_are_searched_for_data() {
    let row = object(5, 2, &[7, 196617, 9], "Boot");
    assert!(row_contains_long(&row, DNT, 5));
    assert!(!row_contains_long(&row, DNT, 6));
    assert!(row_contains_long(&row, CLASS, 196617));
    assert!(row_contains_long(&row, CLASS, 9));
    assert!(!row_contains_long(&row, CLASS, 8));
    assert!(!row_contains_long(&row, NAME, 5));
    assert!(!row_contains_long(&row, 999, 5));
    assert!(row_contains_long_text(&row, NAME, "Boot"));
    assert!(!row_contains_long_text(&row, NAME, "boot"));
    assert!(!row_contains_long_text(&row, DNT, "Boot"));
    assert_eq!(get_first_value(&row, CLASS), Some(&Data::Long(7)));
    assert_eq!(get_first_value(&row, DNT), Some(&Data::Long(5)));
    assert_eq!(get_first_value(&row, NAME), Some(&Data::LongText("Boot".to_string())));
    assert_eq!(get_first_value(&row, 999), None);
    let mut empty = row.clone();
    empty.insert(CLASS, longs(&[]));
    assert_eq!(get_first_value(&empty, CLASS), None);
    assert!(!row_contains_long(&empty, CLASS, 7));
    assert_eq!(extract_dnt(&row, DNT), Ok(5));
    assert_eq!(extract_dnt(&row, 999), Err(SchemaError::MissingDnt));
    assert_eq!(extract_dnt(&row, NAME), Err(SchemaError::UnexpectedDnt));
    assert_eq!(extract_dnt(&row, CLASS), Err(SchemaError::UnexpectedDnt));
}

#[test]
fn schema_root_under_boot_is_passed_over() {
    let table = data_table();
    let rows = vec![
        object(2, 0, &[1], "$ROOT_OBJECT$"),
        object(10, 2, &[5], "Boot"),
        object(11, 10, &[196617], "Schema"),
        object(20, 2, &[5], "Configuration"),
        object(21, 20, &[196617], "Schema"),
    ];
    assert_eq!(find_schema_root(&table, &rows), Ok(4));
    // Without Boot the first schema root is the one.
    let mut no_boot = rows.clone();
    no_boot[1] = object(10, 2, &[5], "Start");
    assert_eq!(find_schema_root(&table, &no_boot), Ok(2));
    let mut reordered = rows.clone();
    reordered.swap(2, 4);
    assert_eq!(find_schema_root(&table, &reordered), Ok(2));
    assert_eq!(find_schema_root(&table, &rows[..4]), Err(SchemaError::SchemaRootNotFound));
    assert_eq!(find_schema_root(&table, &[]), Err(SchemaError::SchemaRootNotFound));
}

#[test]
fn schema_root_deep_under_boot_is_passed_over() {
    let table = data_table();
    // The first schema root is a grandchild of Boot, the second a great-grandchild.
    let rows = vec![
        object(2, 0, &[1], "$ROOT_OBJECT$"),
        object(10, 2, &[5], "Boot"),
        object(12, 10, &[5], "Configuration"),
        object(13, 12, &[196617], "Schema"),
        object(14, 13, &[196617], "Schema"),
        object(20, 2, &[5], "Configuration"),
        object(21, 20, &[196617], "Schema"),
    ];
    assert_eq!(find_schema_root(&table, &rows), Ok(6));
    assert_eq!(find_schema_root(&table, &rows[..6]), Err(SchemaError::SchemaRootNotFound));
    // The parents are found wherever their rows stand.
    let mut reordered = rows.clone();
    reordered.swap(2, 5);
    reordered.swap(3, 6);
    assert_eq!(find_schema_root(&table, &reordered), Ok(3));
    // Without Boot nothing is under it.
    let mut no_boot = rows.clone();
    no_boot[1] = object(10, 2, &[5], "Start");
    assert_eq!(find_schema_root(&table, &no_boot), Ok(3));
    // A row whose parent is missing is under nothing.
    let mut cut = rows.clone();
    cut.remove(2);
    assert_eq!(find_schema_root(&table, &cut), Ok(2));
}

#[test]
fn parents_that_lead_in_a_circle_end_the_search() {
    let table = data_table();
    let rows = vec![
        object(10, 2, &[5], "Boot"),
        object(30, 31, &[196617], "Schema"),
        object(31, 30, &[5], "Configuration"),
        object(40, 40, &[196617], "Schema"),
    ];
    assert_eq!(find_schema_root(&table, &rows), Ok(1));
    assert_eq!(find_schema_root(&table, &rows[3..]), Ok(0));
    // With a parent that is a child of Boot the row is under it.
    let mut under = rows.clone();
    under[2] = object(31, 10, &[5], "Configuration");
    assert_eq!(find_schema_root(&table, &under), Ok(3));
}

#[test]
fn schema_root_search_needs_its_columns() {
    let rows = vec![object(21, 20, &[196617], "Schema")];
    for (at, name) in [(0, "DNT_col"), (1, "PDNT_col"), (2, "ATTc0"), (3, "ATTm589825")] {
        let mut table = data_table();
        table.columns.remove(at);
        assert_eq!(find_schema_root(&table, &rows), Err(SchemaError::MissingColumn { name }));
    }
    let table = data_table();
    let mut boot = object(10, 2, &[5], "Boot");
    boot.remove(&DNT);
    assert_eq!(
        find_schema_root(&table, &[boot.clone(), rows[0].clone()]),
        Err(SchemaError::MissingDnt)
    );
    boot.insert(DNT, tagged(Data::Long(10)));
    assert_eq!(
        find_schema_root(&table, &[boot, rows[0].clone()]),
        Err(SchemaError::UnexpectedDnt)
    );
}

#[test]
fn classes_are_the_class_children_of_the_schema_root() {
    let table = data_table();
    let root = object(21, 20, &[196617], "Schema");
    let mut nameless = class_object(35, 21, 9, "nameless");
    nameless.remove(&LDAP_NAME);
    let mut idless = class_object(36, 21, 10, "idless");
    idless.insert(GOVERNS, tagged(Data::LongText("ten".to_string())));
    let rows = vec![
        root.clone(),
        class_object(30, 21, 655_360, "top"),
        class_object(31, 21, 3, "person"),
        class_object(32, 99, 4, "elsewhere"),
        attribute_object(33, 21, 5, 0x80002, "objectClass"),
        class_object(34, 21, 3, "user"),
        nameless,
        idless,
    ];
    let classes = collect_schema_classes(&table, &rows, &root).expect("classes");
    let mut expected = BTreeMap::new();
    expected.insert(3, ObjectClass { id: 3, ldap_name: "user".to_string() });
    expected.insert(655_360, ObjectClass { id: 655_360, ldap_name: "top".to_string() });
    assert_eq!(classes, expected);

    let mut without = data_table();
    without.columns.remove(4);
    assert_eq!(
        collect_schema_classes(&without, &rows, &root),
        Err(SchemaError::MissingColumn { name: "ATTc131094" })
    );
    assert_eq!(
        collect_schema_classes(&table, &rows, &BTreeMap::new()),
        Err(SchemaError::MissingDnt)
    );
}

#[test]
fn attributes_are_the_attribute_children_of_the_schema_root() {
    let table = data_table();
    let root = object(21, 20, &[196617], "Schema");
    let mut partial = attribute_object(45, 21, 8, 0x80002, "partial");
    partial.remove(&SYNTAX);
    let rows = vec![
        root.clone(),
        attribute_object(40, 21, 0, 0x80002, "objectClass"),
        attribute_object(41, 21, 589_825, 0x8000C, "name"),
        class_object(42, 21, 3, "person"),
        attribute_object(43, 77, 9, 0x80002, "elsewhere"),
        attribute_object(44, 21, 0, 0x80002, "objectClassAgain"),
        partial,
        attribute_object(46, 21, 0, 0x80003, "other"),
    ];
    let attributes = collect_schema_attributes(&table, &rows, &root).expect("attributes");
    assert_eq!(
        attributes,
        vec![
            Attribute { id: 0, syntax: 0x80002, ldap_name: "objectClassAgain".to_string() },
            Attribute { id: 589_825, syntax: 0x8000C, ldap_name: "name".to_string() },
            Attribute { id: 0, syntax: 0x80003, ldap_name: "other".to_string() },
        ]
    );
    let names: Vec<String> = attributes.iter().map(|a| a.to_column_name()).collect();
    assert_eq!(names, vec!["ATTc0", "ATTm589825", "ATTd0"]);
    for name in &names[..2] {
        assert!(table.columns.iter().any(|c| &c.name == name));
    }

    let mut malformed = rows.clone();
    malformed.push(attribute_object(47, 21, 12, 0x8001A, "odd"));
    assert_eq!(
        collect_schema_attributes(&table, &malformed, &root),
        Err(SchemaError::MalformedAttribute { id: 12, syntax: 0x8001A })
    );
    let mut without = data_table();
    without.columns.remove(6);
    assert_eq!(
        collect_schema_attributes(&without, &rows, &root),
        Err(SchemaError::MissingColumn { name: "ATTc131104" })
    );
}
