//! The catalog: from the rows of the metadata table to tables with their
//! columns, indexes and long-value trees.

use std::collections::BTreeMap;
use vstd::prelude::*;

use crate::data::{Bit, Data, DataType, DataView};
use crate::error::{IoErrorKind, ReadError};
use crate::header::Header;
use crate::page::CATALOG_PAGE_NUMBER;
use crate::row::{read_table_from_pages, row_views, spec_read_table_from_pages};
use crate::table::{
    column_views, index_views, row_view, table_views, Column, ColumnFlags, ColumnView, Index,
    IndexView, LongValueInfo, LongValueInfoView, ObjectFlags, ObjectType, Table, TableHeader,
    TableHeaderView, TableView, Value, ValueView, COLUMN_FIXED,
};

verus! {

/// The last of `columns[..n]` whose name is `name`.
pub open spec fn column_named_among(columns: Seq<ColumnView>, name: Seq<char>, n: int) -> Option<
    ColumnView,
>
    decreases n,
{
    if n <= 0 {
        None
    } else if columns[n - 1].name == name {
        Some(columns[n - 1])
    } else {
        column_named_among(columns, name, n - 1)
    }
}

/// The column of a schema with the name `name`: the last one, should
/// several have it.
pub open spec fn column_named(columns: Seq<ColumnView>, name: Seq<char>) -> Option<ColumnView> {
    column_named_among(columns, name, columns.len() as int)
}

/// Finds the column with the name `name`.
pub fn find_column_named(columns: &[Column], name: &str) -> (r: Option<usize>)
    ensures
        match r {
            Some(i) => i < columns@.len() && column_named(column_views(columns@), name@) == Some(
                columns@[i as int]@,
            ),
            None => column_named(column_views(columns@), name@).is_none(),
        },
{
    let wanted = name.to_owned();
    let mut n: usize = columns.len();
    while n > 0
        invariant
            n <= columns@.len(),
            wanted@ == name@,
            column_named(column_views(columns@), name@) == column_named_among(
                column_views(columns@),
                name@,
                n as int,
            ),
        decreases n,
    {
        if columns[n - 1].name == wanted {
            return Some(n - 1);
        }
        n -= 1;
    }
    None
}

/// The simple value that a row holds for the column `name`, if the schema
/// has the column and the row a simple value for it.
pub open spec fn simple_data(columns: Seq<ColumnView>, row: Map<i32, ValueView>, name: Seq<char>)
    -> Option<DataView> {
    match column_named(columns, name) {
        None => None,
        Some(column) => if !row.contains_key(column.column_id) {
            None
        } else {
            match row[column.column_id] {
                ValueView::Simple(data) => Some(data),
                _ => None,
            }
        },
    }
}

/// Looks up the simple value of the column `name` in a row.
fn get_simple_data<'a>(columns: &[Column], row: &'a BTreeMap<i32, Value>, name: &str) -> (r:
    Option<&'a Data>)
    ensures
        match r {
            Some(data) => simple_data(column_views(columns@), row_view(row@), name@) == Some(data@),
            None => simple_data(column_views(columns@), row_view(row@), name@).is_none(),
        },
{
    let position = match find_column_named(columns, name) {
        Some(position) => position,
        None => { return None; },
    };
    match row.get(&columns[position].column_id) {
        Some(Value::Simple(data)) => Some(data),
        _ => None,
    }
}

/// The 16-bit integer that a row must hold for the column `name`.
pub open spec fn required_short(
    columns: Seq<ColumnView>,
    row: Map<i32, ValueView>,
    name: &'static str,
) -> Result<i16, ReadError> {
    match simple_data(columns, row, name@) {
        None => Err(ReadError::MissingRequiredColumn { name }),
        Some(DataView::Short(v)) => Ok(v),
        Some(other) => Err(
            ReadError::WrongColumnType {
                name,
                expected: DataType::Short,
                obtained: other.data_type(),
            },
        ),
    }
}

/// The 32-bit integer that a row must hold for the column `name`.
pub open spec fn required_long(
    columns: Seq<ColumnView>,
    row: Map<i32, ValueView>,
    name: &'static str,
) -> Result<i32, ReadError> {
    match simple_data(columns, row, name@) {
        None => Err(ReadError::MissingRequiredColumn { name }),
        Some(DataView::Long(v)) => Ok(v),
        Some(other) => Err(
            ReadError::WrongColumnType {
                name,
                expected: DataType::Long,
                obtained: other.data_type(),
            },
        ),
    }
}

/// The text that a row must hold for the column `name`.
pub open spec fn required_text(
    columns: Seq<ColumnView>,
    row: Map<i32, ValueView>,
    name: &'static str,
) -> Result<Seq<char>, ReadError> {
    match simple_data(columns, row, name@) {
        None => Err(ReadError::MissingRequiredColumn { name }),
        Some(DataView::Text(v)) => Ok(v),
        Some(other) => Err(
            ReadError::WrongColumnType {
                name,
                expected: DataType::Text,
                obtained: other.data_type(),
            },
        ),
    }
}

/// The flag that a row may hold for the column `name`: none where the
/// value is missing or `Nil`.
pub open spec fn optional_bit(
    columns: Seq<ColumnView>,
    row: Map<i32, ValueView>,
    name: &'static str,
) -> Result<Option<Bit>, ReadError> {
    match simple_data(columns, row, name@) {
        None => Ok(None),
        Some(DataView::Nil) => Ok(None),
        Some(DataView::Bit(v)) => Ok(Some(v)),
        Some(other) => Err(
            ReadError::WrongColumnType {
                name,
                expected: DataType::Bit,
                obtained: other.data_type(),
            },
        ),
    }
}

/// The 16-bit integer that a row may hold for the column `name`: none where
/// the value is missing or `Nil`.
pub open spec fn optional_short(
    columns: Seq<ColumnView>,
    row: Map<i32, ValueView>,
    name: &'static str,
) -> Result<Option<i16>, ReadError> {
    match simple_data(columns, row, name@) {
        None => Ok(None),
        Some(DataView::Nil) => Ok(None),
        Some(DataView::Short(v)) => Ok(Some(v)),
        Some(other) => Err(
            ReadError::WrongColumnType {
                name,
                expected: DataType::Short,
                obtained: other.data_type(),
            },
        ),
    }
}

fn get_required_short(columns: &[Column], row: &BTreeMap<i32, Value>, name: &'static str) -> (r:
    Result<i16, ReadError>)
    ensures
        r == required_short(column_views(columns@), row_view(row@), name),
{
    match get_simple_data(columns, row, name) {
        None => Err(ReadError::MissingRequiredColumn { name }),
        Some(Data::Short(v)) => Ok(*v),
        Some(other) => Err(
            ReadError::WrongColumnType {
                name,
                expected: DataType::Short,
                obtained: other.data_type(),
            },
        ),
    }
}

fn get_required_long(columns: &[Column], row: &BTreeMap<i32, Value>, name: &'static str) -> (r:
    Result<i32, ReadError>)
    ensures
        r == required_long(column_views(columns@), row_view(row@), name),
{
    match get_simple_data(columns, row, name) {
        None => Err(ReadError::MissingRequiredColumn { name }),
        Some(Data::Long(v)) => Ok(*v),
        Some(other) => Err(
            ReadError::WrongColumnType {
                name,
                expected: DataType::Long,
                obtained: other.data_type(),
            },
        ),
    }
}

fn get_required_text(columns: &[Column], row: &BTreeMap<i32, Value>, name: &'static str) -> (r:
    Result<String, ReadError>)
    ensures
        match r {
            Ok(text) => required_text(column_views(columns@), row_view(row@), name) == Ok::<
                Seq<char>,
                ReadError,
            >(text@),
            Err(e) => required_text(
                column_views(columns@),
                row_view(row@),
                name,
            ) == Err::<Seq<char>, ReadError>(
                e,
            ),
        },
{
    match get_simple_data(columns, row, name) {
        None => Err(ReadError::MissingRequiredColumn { name }),
        Some(Data::Text(v)) => Ok(v.clone()),
        Some(other) => Err(
            ReadError::WrongColumnType {
                name,
                expected: DataType::Text,
                obtained: other.data_type(),
            },
        ),
    }
}

fn get_optional_bit(columns: &[Column], row: &BTreeMap<i32, Value>, name: &'static str) -> (r:
    Result<Option<Bit>, ReadError>)
    ensures
        r == optional_bit(column_views(columns@), row_view(row@), name),
{
    match get_simple_data(columns, row, name) {
        None => Ok(None),
        Some(Data::Nil) => Ok(None),
        Some(Data::Bit(v)) => Ok(Some(*v)),
        Some(other) => Err(
            ReadError::WrongColumnType {
                name,
                expected: DataType::Bit,
                obtained: other.data_type(),
            },
        ),
    }
}

fn get_optional_short(columns: &[Column], row: &BTreeMap<i32, Value>, name: &'static str) -> (r:
    Result<Option<i16>, ReadError>)
    ensures
        r == optional_short(column_views(columns@), row_view(row@), name),
{
    match get_simple_data(columns, row, name) {
        None => Ok(None),
        Some(Data::Nil) => Ok(None),
        Some(Data::Short(v)) => Ok(Some(*v)),
        Some(other) => Err(
            ReadError::WrongColumnType {
                name,
                expected: DataType::Short,
                obtained: other.data_type(),
            },
        ),
    }
}

/// The six integers that every catalog row holds, whatever it describes.
#[derive(Clone, Copy, Debug, PartialEq, Eq, Structural)]
pub struct CommonFields {
    pub table_object_id: i32,
    pub id: i32,
    pub coltyp_or_pgno_fdp: i32,
    pub space_usage: i32,
    pub flags: i32,
    pub pages_or_locale: i32,
}

/// The common fields of a catalog row that must describe an object of kind
/// `expected`. The row's `Type` is checked first, then the fields are taken
/// in the order `ObjidTable`, `Id`, `ColtypOrPgnoFDP`, `SpaceUsage`,
/// `Flags`, `PagesOrLocale`.
pub open spec fn common_fields(
    columns: Seq<ColumnView>,
    row: Map<i32, ValueView>,
    expected: ObjectType,
) -> Result<CommonFields, ReadError> {
    match required_short(columns, row, "Type") {
        Err(e) => Err(e),
        Ok(code) => if code != expected.code() {
            Err(ReadError::WrongObjectType { expected, obtained: ObjectType::of_code(code) })
        } else {
            match required_long(columns, row, "ObjidTable") {
                Err(e) => Err(e),
                Ok(table_object_id) => match required_long(columns, row, "Id") {
                    Err(e) => Err(e),
                    Ok(id) => match required_long(columns, row, "ColtypOrPgnoFDP") {
                        Err(e) => Err(e),
                        Ok(coltyp_or_pgno_fdp) => match required_long(columns, row, "SpaceUsage") {
                            Err(e) => Err(e),
                            Ok(space_usage) => match required_long(columns, row, "Flags") {
                                Err(e) => Err(e),
                                Ok(flags) => match required_long(columns, row, "PagesOrLocale") {
                                    Err(e) => Err(e),
                                    Ok(pages_or_locale) => Ok(
                                        CommonFields {
                                            table_object_id,
                                            id,
                                            coltyp_or_pgno_fdp,
                                            space_usage,
                                            flags,
                                            pages_or_locale,
                                        },
                                    ),
                                },
                            },
                        },
                    },
                },
            }
        },
    }
}

fn read_common_fields(columns: &[Column], row: &BTreeMap<i32, Value>, expected: ObjectType) -> (r:
    Result<CommonFields, ReadError>)
    ensures
        r == common_fields(column_views(columns@), row_view(row@), expected),
{
    let code = get_required_short(columns, row, "Type")?;
    ReadError::ensure_object_type(expected, ObjectType::from_base_type(code))?;
    let table_object_id = get_required_long(columns, row, "ObjidTable")?;
    let id = get_required_long(columns, row, "Id")?;
    let coltyp_or_pgno_fdp = get_required_long(columns, row, "ColtypOrPgnoFDP")?;
    let space_usage = get_required_long(columns, row, "SpaceUsage")?;
    let flags = get_required_long(columns, row, "Flags")?;
    let pages_or_locale = get_required_long(columns, row, "PagesOrLocale")?;
    Ok(
        CommonFields {
            table_object_id,
            id,
            coltyp_or_pgno_fdp,
            space_usage,
            flags,
            pages_or_locale,
        },
    )
}

/// The table that a catalog row describes.
pub open spec fn spec_table_header(columns: Seq<ColumnView>, row: Map<i32, ValueView>) -> Result<
    TableHeaderView,
    ReadError,
> {
    match common_fields(columns, row, ObjectType::Table) {
        Err(e) => Err(e),
        Ok(fields) => match optional_bit(columns, row, "RootFlag") {
            Err(e) => Err(e),
            Ok(root_flag) => match required_text(columns, row, "Name") {
                Err(e) => Err(e),
                Ok(name) => Ok(
                    TableHeaderView {
                        table_object_id: fields.table_object_id,
                        fdp_object_id: fields.id,
                        fdp_page_number: fields.coltyp_or_pgno_fdp,
                        density: fields.space_usage,
                        flags: ObjectFlags { bits: fields.flags },
                        page_count: fields.pages_or_locale,
                        root_flag,
                        name,
                    },
                ),
            },
        },
    }
}

/// The column that a catalog row describes.
pub open spec fn spec_column(columns: Seq<ColumnView>, row: Map<i32, ValueView>) -> Result<
    ColumnView,
    ReadError,
> {
    match common_fields(columns, row, ObjectType::Column) {
        Err(e) => Err(e),
        Ok(fields) => match optional_bit(columns, row, "RootFlag") {
            Err(e) => Err(e),
            Ok(root_flag) => match optional_short(columns, row, "RecordOffset") {
                Err(e) => Err(e),
                Ok(record_offset) => match required_text(columns, row, "Name") {
                    Err(e) => Err(e),
                    Ok(name) => Ok(
                        ColumnView {
                            table_object_id: fields.table_object_id,
                            column_id: fields.id,
                            column_type: DataType::of_code(fields.coltyp_or_pgno_fdp),
                            length: fields.space_usage,
                            flags: ColumnFlags { bits: fields.flags },
                            codepage: fields.pages_or_locale,
                            root_flag,
                            record_offset,
                            name,
                        },
                    ),
                },
            },
        },
    }
}

/// The index that a catalog row describes.
pub open spec fn spec_index(columns: Seq<ColumnView>, row: Map<i32, ValueView>) -> Result<
    IndexView,
    ReadError,
> {
    match common_fields(columns, row, ObjectType::Index) {
        Err(e) => Err(e),
        Ok(fields) => match optional_bit(columns, row, "RootFlag") {
            Err(e) => Err(e),
            Ok(root_flag) => match optional_short(columns, row, "RecordOffset") {
                Err(e) => Err(e),
                Ok(record_offset) => match required_text(columns, row, "Name") {
                    Err(e) => Err(e),
                    Ok(name) => Ok(
                        IndexView {
                            table_object_id: fields.table_object_id,
                            index_id: fields.id,
                            fdp_page_number: fields.coltyp_or_pgno_fdp,
                            used_pages: fields.space_usage,
                            flags: ObjectFlags { bits: fields.flags },
                            locale: fields.pages_or_locale,
                            root_flag,
                            record_offset,
                            name,
                        },
                    ),
                },
            },
        },
    }
}

/// The long-value tree that a catalog row describes.
pub open spec fn spec_long_value_info(columns: Seq<ColumnView>, row: Map<i32, ValueView>) -> Result<
    LongValueInfoView,
    ReadError,
> {
    match common_fields(columns, row, ObjectType::LongValue) {
        Err(e) => Err(e),
        Ok(fields) => match required_text(columns, row, "Name") {
            Err(e) => Err(e),
            Ok(name) => Ok(
                LongValueInfoView {
                    table_object_id: fields.table_object_id,
                    long_value_id: fields.id,
                    fdp_page_number: fields.coltyp_or_pgno_fdp,
                    used_pages: fields.space_usage,
                    flags: ObjectFlags { bits: fields.flags },
                    page_count: fields.pages_or_locale,
                    name,
                },
            ),
        },
    }
}

impl TableHeader {
    /// Reads a table from a row of the metadata table, whose columns are
    /// `column_defs`.
    pub fn try_from_metadata(column_defs: &[Column], values: &BTreeMap<i32, Value>) -> (r: Result<
        TableHeader,
        ReadError,
    >)
        ensures
            match r {
                Ok(header) => spec_table_header(
                    column_views(column_defs@),
                    row_view(values@),
                ) == Ok::<
                    TableHeaderView,
                    ReadError,
                >(header@),
                Err(e) => spec_table_header(column_views(column_defs@), row_view(values@)) == Err::<
                    TableHeaderView,
                    ReadError,
                >(e),
            },
    {
        let fields = read_common_fields(column_defs, values, ObjectType::Table)?;
        let root_flag = get_optional_bit(column_defs, values, "RootFlag")?;
        let name = get_required_text(column_defs, values, "Name")?;
        Ok(
            TableHeader {
                table_object_id: fields.table_object_id,
                fdp_object_id: fields.id,
                fdp_page_number: fields.coltyp_or_pgno_fdp,
                density: fields.space_usage,
                flags: ObjectFlags::from_bits_retain(fields.flags),
                page_count: fields.pages_or_locale,
                root_flag,
                name,
            },
        )
    }
}

impl Column {
    /// Reads a column from a row of the metadata table, whose columns are
    /// `column_defs`.
    pub fn try_from_metadata(column_defs: &[Column], values: &BTreeMap<i32, Value>) -> (r: Result<
        Column,
        ReadError,
    >)
        ensures
            match r {
                Ok(column) => spec_column(column_views(column_defs@), row_view(values@)) == Ok::<
                    ColumnView,
                    ReadError,
                >(column@),
                Err(e) => spec_column(column_views(column_defs@), row_view(values@)) == Err::<
                    ColumnView,
                    ReadError,
                >(e),
            },
    {
        let fields = read_common_fields(column_defs, values, ObjectType::Column)?;
        let root_flag = get_optional_bit(column_defs, values, "RootFlag")?;
        let record_offset = get_optional_short(column_defs, values, "RecordOffset")?;
        let name = get_required_text(column_defs, values, "Name")?;
        Ok(
            Column {
                table_object_id: fields.table_object_id,
                column_id: fields.id,
                column_type: DataType::from_base_type(fields.coltyp_or_pgno_fdp),
                length: fields.space_usage,
                flags: ColumnFlags::from_bits_retain(fields.flags),
                codepage: fields.pages_or_locale,
                root_flag,
                record_offset,
                name,
            },
        )
    }
}

impl Index {
    /// Reads an index from a row of the metadata table, whose columns are
    /// `column_defs`.
    pub fn try_from_metadata(column_defs: &[Column], values: &BTreeMap<i32, Value>) -> (r: Result<
        Index,
        ReadError,
    >)
        ensures
            match r {
                Ok(index) => spec_index(column_views(column_defs@), row_view(values@)) == Ok::<
                    IndexView,
                    ReadError,
                >(index@),
                Err(e) => spec_index(column_views(column_defs@), row_view(values@)) == Err::<
                    IndexView,
                    ReadError,
                >(e),
            },
    {
        let fields = read_common_fields(column_defs, values, ObjectType::Index)?;
        let root_flag = get_optional_bit(column_defs, values, "RootFlag")?;
        let record_offset = get_optional_short(column_defs, values, "RecordOffset")?;
        let name = get_required_text(column_defs, values, "Name")?;
        Ok(
            Index {
                table_object_id: fields.table_object_id,
                index_id: fields.id,
                fdp_page_number: fields.coltyp_or_pgno_fdp,
                used_pages: fields.space_usage,
                flags: ObjectFlags::from_bits_retain(fields.flags),
                locale: fields.pages_or_locale,
                root_flag,
                record_offset,
                name,
            },
        )
    }
}

impl LongValueInfo {
    /// Reads a long-value tree from a row of the metadata table, whose
    /// columns are `column_defs`.
    pub fn try_from_metadata(column_defs: &[Column], values: &BTreeMap<i32, Value>) -> (r: Result<
        LongValueInfo,
        ReadError,
    >)
        ensures
            match r {
                Ok(info) => spec_long_value_info(
                    column_views(column_defs@),
                    row_view(values@),
                ) == Ok::<
                    LongValueInfoView,
                    ReadError,
                >(info@),
                Err(e) => spec_long_value_info(
                    column_views(column_defs@),
                    row_view(values@),
                ) == Err::<
                    LongValueInfoView,
                    ReadError,
                >(e),
            },
    {
        let fields = read_common_fields(column_defs, values, ObjectType::LongValue)?;
        let name = get_required_text(column_defs, values, "Name")?;
        Ok(
            LongValueInfo {
                table_object_id: fields.table_object_id,
                long_value_id: fields.id,
                fdp_page_number: fields.coltyp_or_pgno_fdp,
                used_pages: fields.space_usage,
                flags: ObjectFlags::from_bits_retain(fields.flags),
                page_count: fields.pages_or_locale,
                name,
            },
        )
    }
}


/// What one row of the metadata table adds to the catalog.
#[derive(Clone, Debug, PartialEq, Eq)]
pub enum CatalogRecord {
    Table(TableHeader),
    Column(Column),
    Index(Index),
    LongValue(LongValueInfo),
    /// A callback, or an object of a kind without a name.
    Other,
}

/// What a `CatalogRecord` holds.
pub enum CatalogEntry {
    Table(TableHeaderView),
    Column(ColumnView),
    Index(IndexView),
    LongValue(LongValueInfoView),
    Other,
}

impl View for CatalogRecord {
    type V = CatalogEntry;

    open spec fn view(&self) -> CatalogEntry {
        match self {
            CatalogRecord::Table(header) => CatalogEntry::Table(header@),
            CatalogRecord::Column(column) => CatalogEntry::Column(column@),
            CatalogRecord::Index(index) => CatalogEntry::Index(index@),
            CatalogRecord::LongValue(info) => CatalogEntry::LongValue(info@),
            CatalogRecord::Other => CatalogEntry::Other,
        }
    }
}

/// What a sequence of records holds.
pub open spec fn record_views(records: Seq<CatalogRecord>) -> Seq<CatalogEntry> {
    records.map_values(|r: CatalogRecord| r@)
}

/// What a row of the metadata table adds to the catalog: its `Type` tells
/// what it describes, and it is read as that.
pub open spec fn catalog_entry(columns: Seq<ColumnView>, row: Map<i32, ValueView>) -> Result<
    CatalogEntry,
    ReadError,
> {
    match required_short(columns, row, "Type") {
        Err(e) => Err(e),
        Ok(code) => match ObjectType::of_code(code) {
            ObjectType::Table => match spec_table_header(columns, row) {
                Err(e) => Err(e),
                Ok(header) => Ok(CatalogEntry::Table(header)),
            },
            ObjectType::Column => match spec_column(columns, row) {
                Err(e) => Err(e),
                Ok(column) => Ok(CatalogEntry::Column(column)),
            },
            ObjectType::Index => match spec_index(columns, row) {
                Err(e) => Err(e),
                Ok(index) => Ok(CatalogEntry::Index(index)),
            },
            ObjectType::LongValue => match spec_long_value_info(columns, row) {
                Err(e) => Err(e),
                Ok(info) => Ok(CatalogEntry::LongValue(info)),
            },
            _ => Ok(CatalogEntry::Other),
        },
    }
}

/// Reads what a row of the metadata table adds to the catalog.
pub fn read_catalog_row(columns: &[Column], row: &BTreeMap<i32, Value>) -> (r: Result<
    CatalogRecord,
    ReadError,
>)
    ensures
        match r {
            Ok(record) => catalog_entry(
                column_views(columns@),
                row_view(row@),
            ) == Ok::<CatalogEntry, ReadError>(
                record@,
            ),
            Err(e) => catalog_entry(
                column_views(columns@),
                row_view(row@),
            ) == Err::<CatalogEntry, ReadError>(e),
        },
{
    let code = get_required_short(columns, row, "Type")?;
    match ObjectType::from_base_type(code) {
        ObjectType::Table => Ok(
            CatalogRecord::Table(TableHeader::try_from_metadata(columns, row)?),
        ),
        ObjectType::Column => Ok(CatalogRecord::Column(Column::try_from_metadata(columns, row)?)),
        ObjectType::Index => Ok(CatalogRecord::Index(Index::try_from_metadata(columns, row)?)),
        ObjectType::LongValue => Ok(
            CatalogRecord::LongValue(LongValueInfo::try_from_metadata(columns, row)?),
        ),
        _ => Ok(CatalogRecord::Other),
    }
}

/// What the first `k` rows add to the catalog, or the first failure among
/// them.
pub open spec fn catalog_entries(columns: Seq<ColumnView>, rows: Seq<Map<i32, ValueView>>, k: int)
    -> Result<Seq<CatalogEntry>, ReadError>
    decreases k,
{
    if k <= 0 {
        Ok(Seq::empty())
    } else {
        match catalog_entries(columns, rows, k - 1) {
            Err(e) => Err(e),
            Ok(before) => match catalog_entry(columns, rows[k - 1]) {
                Err(e) => Err(e),
                Ok(entry) => Ok(before.push(entry)),
            },
        }
    }
}

/// A failure among the first `k` rows is the failure of every longer run of
/// them.
proof fn lemma_catalog_entries_fail(
    columns: Seq<ColumnView>,
    rows: Seq<Map<i32, ValueView>>,
    k: int,
    m: int,
)
    requires
        0 <= k <= m,
        catalog_entries(columns, rows, k) is Err,
    ensures
        catalog_entries(columns, rows, m) == catalog_entries(columns, rows, k),
    decreases m - k,
{
    if k < m {
        lemma_catalog_entries_fail(columns, rows, k, m - 1);
    }
}

/// The first position from `p` on at which a table with an id of `id` or
/// more stands.
pub open spec fn table_position(headers: Seq<TableHeaderView>, id: int, p: int) -> int
    decreases headers.len() - p,
{
    if p < 0 || p >= headers.len() || headers[p].table_object_id >= id {
        p
    } else {
        table_position(headers, id, p + 1)
    }
}

/// The tables with one more: it takes the place of the table with the same
/// id, or else its place by ascending id.
pub open spec fn with_header(headers: Seq<TableHeaderView>, header: TableHeaderView) -> Seq<
    TableHeaderView,
> {
    let p = table_position(headers, header.table_object_id as int, 0);
    if p < headers.len() && headers[p].table_object_id == header.table_object_id {
        headers.update(p, header)
    } else {
        headers.insert(p, header)
    }
}

/// The tables that the first `k` entries describe, by ascending id. Of two
/// entries for one id the later counts.
pub open spec fn headers_of(entries: Seq<CatalogEntry>, k: int) -> Seq<TableHeaderView>
    decreases k,
{
    if k <= 0 {
        Seq::empty()
    } else {
        match entries[k - 1] {
            CatalogEntry::Table(header) => with_header(headers_of(entries, k - 1), header),
            _ => headers_of(entries, k - 1),
        }
    }
}

/// The first position from `q` on at which a column with an id above `id`
/// stands.
pub open spec fn column_position(columns: Seq<ColumnView>, id: int, q: int) -> int
    decreases columns.len() - q,
{
    if q < 0 || q >= columns.len() || columns[q].column_id > id {
        q
    } else {
        column_position(columns, id, q + 1)
    }
}

/// The columns of table `table_id` among the first `k` entries, by
/// ascending id; columns of equal id keep the order of their entries.
pub open spec fn columns_of(entries: Seq<CatalogEntry>, table_id: int, k: int) -> Seq<ColumnView>
    decreases k,
{
    if k <= 0 {
        Seq::empty()
    } else {
        let before = columns_of(entries, table_id, k - 1);
        match entries[k - 1] {
            CatalogEntry::Column(column) => if column.table_object_id == table_id {
                before.insert(column_position(before, column.column_id as int, 0), column)
            } else {
                before
            },
            _ => before,
        }
    }
}

/// The first position from `q` on at which an index with an id above `id`
/// stands.
pub open spec fn index_position(indexes: Seq<IndexView>, id: int, q: int) -> int
    decreases indexes.len() - q,
{
    if q < 0 || q >= indexes.len() || indexes[q].index_id > id {
        q
    } else {
        index_position(indexes, id, q + 1)
    }
}

/// The indexes of table `table_id` among the first `k` entries, by
/// ascending id; indexes of equal id keep the order of their entries.
pub open spec fn indexes_of(entries: Seq<CatalogEntry>, table_id: int, k: int) -> Seq<IndexView>
    decreases k,
{
    if k <= 0 {
        Seq::empty()
    } else {
        let before = indexes_of(entries, table_id, k - 1);
        match entries[k - 1] {
            CatalogEntry::Index(index) => if index.table_object_id == table_id {
                before.insert(index_position(before, index.index_id as int, 0), index)
            } else {
                before
            },
            _ => before,
        }
    }
}

/// The long-value tree of table `table_id` among the first `k` entries: the
/// last that is described for it.
pub open spec fn long_value_of(entries: Seq<CatalogEntry>, table_id: int, k: int) -> Option<
    LongValueInfoView,
>
    decreases k,
{
    if k <= 0 {
        None
    } else {
        match entries[k - 1] {
            CatalogEntry::LongValue(info) => if info.table_object_id == table_id {
                Some(info)
            } else {
                long_value_of(entries, table_id, k - 1)
            },
            _ => long_value_of(entries, table_id, k - 1),
        }
    }
}

/// The table with the header `header`, as the entries describe it.
pub open spec fn table_of(entries: Seq<CatalogEntry>, header: TableHeaderView) -> TableView {
    TableView {
        header,
        columns: columns_of(entries, header.table_object_id as int, entries.len() as int),
        indexes: indexes_of(entries, header.table_object_id as int, entries.len() as int),
        long_value: long_value_of(entries, header.table_object_id as int, entries.len() as int),
    }
}

/// The tables that the entries describe, by ascending id, each with its
/// columns, its indexes and its long-value tree.
pub open spec fn tables_of(entries: Seq<CatalogEntry>) -> Seq<TableView> {
    headers_of(entries, entries.len() as int).map_values(
        |header: TableHeaderView| table_of(entries, header),
    )
}

/// The catalog that the rows of the metadata table describe, or the first
/// failure among the rows.
pub open spec fn spec_collect_tables(rows: Seq<Map<i32, ValueView>>, columns: Seq<ColumnView>)
    -> Result<Seq<TableView>, ReadError> {
    match catalog_entries(columns, rows, rows.len() as int) {
        Err(e) => Err(e),
        Ok(entries) => Ok(tables_of(entries)),
    }
}

/// The ids of the tables ascend strictly.
pub open spec fn headers_ascending(headers: Seq<TableHeaderView>) -> bool {
    forall|i: int, j: int|
        0 <= i < j < headers.len() ==> (#[trigger] headers[i]).table_object_id < (
        #[trigger] headers[j]).table_object_id
}

/// The ids of the columns ascend.
pub open spec fn columns_ascending(columns: Seq<ColumnView>) -> bool {
    forall|i: int, j: int|
        0 <= i < j < columns.len() ==> (#[trigger] columns[i]).column_id <= (
        #[trigger] columns[j]).column_id
}

/// The ids of the indexes ascend.
pub open spec fn indexes_ascending(indexes: Seq<IndexView>) -> bool {
    forall|i: int, j: int|
        0 <= i < j < indexes.len() ==> (#[trigger] indexes[i]).index_id <= (
        #[trigger] indexes[j]).index_id
}

/// What stands before the position found has a smaller id, what stands at
/// it has none.
proof fn lemma_table_position(headers: Seq<TableHeaderView>, id: int, p: int)
    requires
        0 <= p <= headers.len(),
    ensures
        p <= table_position(headers, id, p) <= headers.len(),
        forall|i: int|
            p <= i < table_position(headers, id, p) ==> (#[trigger] headers[i]).table_object_id
                < id,
        table_position(headers, id, p) < headers.len() ==> headers[table_position(
            headers,
            id,
            p,
        )].table_object_id >= id,
    decreases headers.len() - p,
{
    if p < headers.len() && headers[p].table_object_id < id {
        lemma_table_position(headers, id, p + 1);
    }
}

/// What stands before the position found has an id that is not larger, what
/// stands at it has a larger one.
proof fn lemma_column_position(columns: Seq<ColumnView>, id: int, q: int)
    requires
        0 <= q <= columns.len(),
    ensures
        q <= column_position(columns, id, q) <= columns.len(),
        forall|i: int|
            q <= i < column_position(columns, id, q) ==> (#[trigger] columns[i]).column_id <= id,
        column_position(columns, id, q) < columns.len() ==> columns[column_position(
            columns,
            id,
            q,
        )].column_id > id,
    decreases columns.len() - q,
{
    if q < columns.len() && columns[q].column_id <= id {
        lemma_column_position(columns, id, q + 1);
    }
}

/// What stands before the position found has an id that is not larger, what
/// stands at it has a larger one.
proof fn lemma_index_position(indexes: Seq<IndexView>, id: int, q: int)
    requires
        0 <= q <= indexes.len(),
    ensures
        q <= index_position(indexes, id, q) <= indexes.len(),
        forall|i: int|
            q <= i < index_position(indexes, id, q) ==> (#[trigger] indexes[i]).index_id <= id,
        index_position(indexes, id, q) < indexes.len() ==> indexes[index_position(
            indexes,
            id,
            q,
        )].index_id > id,
    decreases indexes.len() - q,
{
    if q < indexes.len() && indexes[q].index_id <= id {
        lemma_index_position(indexes, id, q + 1);
    }
}

/// The tables of a catalog stand by strictly ascending id: no id occurs
/// twice.
pub proof fn lemma_headers_ascending(entries: Seq<CatalogEntry>, k: int)
    ensures
        headers_ascending(headers_of(entries, k)),
    decreases k,
{
    if k > 0 {
        lemma_headers_ascending(entries, k - 1);
        let before = headers_of(entries, k - 1);
        match entries[k - 1] {
            CatalogEntry::Table(header) => {
                let id = header.table_object_id as int;
                lemma_table_position(before, id, 0);
                let p = table_position(before, id, 0);
                let after = with_header(before, header);
                if p < before.len() && before[p].table_object_id == header.table_object_id {
                    assert forall|i: int, j: int| 0 <= i < j < after.len() implies (
                    #[trigger] after[i]).table_object_id < (
                    #[trigger] after[j]).table_object_id by {
                        assert(before[i].table_object_id < before[j].table_object_id);
                    }
                } else {
                    assert forall|i: int, j: int| 0 <= i < j < after.len() implies (
                    #[trigger] after[i]).table_object_id < (
                    #[trigger] after[j]).table_object_id by {
                        if j < p {
                            assert(before[i].table_object_id < before[j].table_object_id);
                        } else if j == p {
                            assert(before[i].table_object_id < id);
                        } else if i < p {
                            assert(before[i].table_object_id < before[j - 1].table_object_id);
                        } else if i == p {
                            if p < j - 1 {
                                assert(before[p].table_object_id < before[j - 1].table_object_id);
                            }
                        } else {
                            assert(before[i - 1].table_object_id < before[j - 1].table_object_id);
                        }
                    }
                }
            },
            _ => {},
        }
    }
}

/// The columns of a table stand by ascending id, and all belong to the
/// table.
pub proof fn lemma_columns_ascending(entries: Seq<CatalogEntry>, table_id: int, k: int)
    ensures
        columns_ascending(columns_of(entries, table_id, k)),
        forall|i: int|
            0 <= i < columns_of(entries, table_id, k).len() ==> (#[trigger] columns_of(
                entries,
                table_id,
                k,
            )[i]).table_object_id == table_id,
    decreases k,
{
    if k > 0 {
        lemma_columns_ascending(entries, table_id, k - 1);
        let before = columns_of(entries, table_id, k - 1);
        match entries[k - 1] {
            CatalogEntry::Column(column) => {
                if column.table_object_id == table_id {
                    let id = column.column_id as int;
                    lemma_column_position(before, id, 0);
                    let q = column_position(before, id, 0);
                    let after = before.insert(q, column);
                    assert forall|i: int, j: int| 0 <= i < j < after.len() implies (
                    #[trigger] after[i]).column_id <= (#[trigger] after[j]).column_id by {
                        if j < q {
                            assert(before[i].column_id <= before[j].column_id);
                        } else if j == q {
                            assert(before[i].column_id <= id);
                        } else if i < q {
                            assert(before[i].column_id <= before[j - 1].column_id);
                        } else if i == q {
                            if q < j - 1 {
                                assert(before[q].column_id <= before[j - 1].column_id);
                            }
                        } else {
                            assert(before[i - 1].column_id <= before[j - 1].column_id);
                        }
                    }
                    assert forall|i: int| 0 <= i < after.len() implies (
                    #[trigger] after[i]).table_object_id == table_id by {
                        if i < q {
                            assert(before[i].table_object_id == table_id);
                        } else if i > q {
                            assert(before[i - 1].table_object_id == table_id);
                        }
                    }
                }
            },
            _ => {},
        }
    }
}

/// The indexes of a table stand by ascending id, and all belong to the
/// table.
pub proof fn lemma_indexes_ascending(entries: Seq<CatalogEntry>, table_id: int, k: int)
    ensures
        indexes_ascending(indexes_of(entries, table_id, k)),
        forall|i: int|
            0 <= i < indexes_of(entries, table_id, k).len() ==> (#[trigger] indexes_of(
                entries,
                table_id,
                k,
            )[i]).table_object_id == table_id,
    decreases k,
{
    if k > 0 {
        lemma_indexes_ascending(entries, table_id, k - 1);
        let before = indexes_of(entries, table_id, k - 1);
        match entries[k - 1] {
            CatalogEntry::Index(index) => {
                if index.table_object_id == table_id {
                    let id = index.index_id as int;
                    lemma_index_position(before, id, 0);
                    let q = index_position(before, id, 0);
                    let after = before.insert(q, index);
                    assert forall|i: int, j: int| 0 <= i < j < after.len() implies (
                    #[trigger] after[i]).index_id <= (#[trigger] after[j]).index_id by {
                        if j < q {
                            assert(before[i].index_id <= before[j].index_id);
                        } else if j == q {
                            assert(before[i].index_id <= id);
                        } else if i < q {
                            assert(before[i].index_id <= before[j - 1].index_id);
                        } else if i == q {
                            if q < j - 1 {
                                assert(before[q].index_id <= before[j - 1].index_id);
                            }
                        } else {
                            assert(before[i - 1].index_id <= before[j - 1].index_id);
                        }
                    }
                    assert forall|i: int| 0 <= i < after.len() implies (
                    #[trigger] after[i]).table_object_id == table_id by {
                        if i < q {
                            assert(before[i].table_object_id == table_id);
                        } else if i > q {
                            assert(before[i - 1].table_object_id == table_id);
                        }
                    }
                }
            },
            _ => {},
        }
    }
}

/// The tables of `catalog` stand by strictly ascending id, the columns of
/// each by ascending column id and its indexes by ascending index id.
pub open spec fn catalog_ordered(catalog: Seq<TableView>) -> bool {
    &&& forall|i: int, j: int|
        0 <= i < j < catalog.len() ==> (#[trigger] catalog[i]).header.table_object_id < (
        #[trigger] catalog[j]).header.table_object_id
    &&& forall|i: int|
        0 <= i < catalog.len() ==> columns_ascending((#[trigger] catalog[i]).columns)
            && indexes_ascending(catalog[i].indexes)
}

/// Every catalog that is collected is ordered.
pub proof fn lemma_catalog_ordered(entries: Seq<CatalogEntry>)
    ensures
        catalog_ordered(tables_of(entries)),
{
    let headers = headers_of(entries, entries.len() as int);
    let catalog = tables_of(entries);
    lemma_headers_ascending(entries, entries.len() as int);
    assert forall|i: int, j: int| 0 <= i < j < catalog.len() implies (
    #[trigger] catalog[i]).header.table_object_id < (
    #[trigger] catalog[j]).header.table_object_id by {
        assert(headers[i].table_object_id < headers[j].table_object_id);
    }
    assert forall|i: int| 0 <= i < catalog.len() implies columns_ascending(
        (#[trigger] catalog[i]).columns,
    ) && indexes_ascending(catalog[i].indexes) by {
        lemma_columns_ascending(
            entries,
            headers[i].table_object_id as int,
            entries.len() as int,
        );
        lemma_indexes_ascending(
            entries,
            headers[i].table_object_id as int,
            entries.len() as int,
        );
    }
}

/// What a sequence of table headers holds.
pub open spec fn header_views(headers: Seq<TableHeader>) -> Seq<TableHeaderView> {
    headers.map_values(|h: TableHeader| h@)
}

/// Puts the header in its place among `headers`.
fn put_header(headers: &mut Vec<TableHeader>, header: TableHeader)
    ensures
        header_views(final(headers)@) == with_header(header_views(old(headers)@), header@),
{
    let ghost views = header_views(headers@);
    let mut p: usize = 0;
    while p < headers.len() && headers[p].table_object_id < header.table_object_id
        invariant
            p <= headers@.len(),
            views == header_views(headers@),
            table_position(views, header.table_object_id as int, 0) == table_position(
                views,
                header.table_object_id as int,
                p as int,
            ),
        decreases headers@.len() - p,
    {
        p += 1;
    }
    if p < headers.len() && headers[p].table_object_id == header.table_object_id {
        headers.set(p, header);
        assert(header_views(headers@) =~= views.update(p as int, header@));
    } else {
        headers.insert(p, header);
        assert(header_views(headers@) =~= views.insert(p as int, header@));
    }
}

/// Collects the columns of table `table_id`.
fn columns_for(records: &Vec<CatalogRecord>, table_id: i32) -> (r: Vec<Column>)
    ensures
        column_views(r@) == columns_of(
            record_views(records@),
            table_id as int,
            records@.len() as int,
        ),
{
    let ghost entries = record_views(records@);
    let mut columns: Vec<Column> = Vec::new();
    let mut k: usize = 0;
    assert(column_views(columns@) =~= Seq::<ColumnView>::empty());
    while k < records.len()
        invariant
            k <= records@.len(),
            entries == record_views(records@),
            column_views(columns@) == columns_of(entries, table_id as int, k as int),
        decreases records@.len() - k,
    {
        assert(entries[k as int] == records@[k as int]@);
        match &records[k] {
            CatalogRecord::Column(column) => {
                if column.table_object_id == table_id {
                    let ghost views = column_views(columns@);
                    let mut q: usize = 0;
                    while q < columns.len() && columns[q].column_id <= column.column_id
                        invariant
                            q <= columns@.len(),
                            views == column_views(columns@),
                            column_position(views, column.column_id as int, 0) == column_position(
                                views,
                                column.column_id as int,
                                q as int,
                            ),
                        decreases columns@.len() - q,
                    {
                        q += 1;
                    }
                    let copy = column.duplicate();
                    columns.insert(q, copy);
                    assert(column_views(columns@) =~= views.insert(q as int, copy@));
                }
            },
            _ => {},
        }
        k += 1;
    }
    columns
}

/// Collects the indexes of table `table_id`.
fn indexes_for(records: &Vec<CatalogRecord>, table_id: i32) -> (r: Vec<Index>)
    ensures
        index_views(r@) == indexes_of(
            record_views(records@),
            table_id as int,
            records@.len() as int,
        ),
{
    let ghost entries = record_views(records@);
    let mut indexes: Vec<Index> = Vec::new();
    let mut k: usize = 0;
    assert(index_views(indexes@) =~= Seq::<IndexView>::empty());
    while k < records.len()
        invariant
            k <= records@.len(),
            entries == record_views(records@),
            index_views(indexes@) == indexes_of(entries, table_id as int, k as int),
        decreases records@.len() - k,
    {
        assert(entries[k as int] == records@[k as int]@);
        match &records[k] {
            CatalogRecord::Index(index) => {
                if index.table_object_id == table_id {
                    let ghost views = index_views(indexes@);
                    let mut q: usize = 0;
                    while q < indexes.len() && indexes[q].index_id <= index.index_id
                        invariant
                            q <= indexes@.len(),
                            views == index_views(indexes@),
                            index_position(views, index.index_id as int, 0) == index_position(
                                views,
                                index.index_id as int,
                                q as int,
                            ),
                        decreases indexes@.len() - q,
                    {
                        q += 1;
                    }
                    let copy = index.duplicate();
                    indexes.insert(q, copy);
                    assert(index_views(indexes@) =~= views.insert(q as int, copy@));
                }
            },
            _ => {},
        }
        k += 1;
    }
    indexes
}

/// Finds the long-value tree of table `table_id`.
fn long_value_for(records: &Vec<CatalogRecord>, table_id: i32) -> (r: Option<LongValueInfo>)
    ensures
        match r {
            Some(info) => long_value_of(
                record_views(records@),
                table_id as int,
                records@.len() as int,
            ) == Some(info@),
            None => long_value_of(
                record_views(records@),
                table_id as int,
                records@.len() as int,
            ).is_none(),
        },
{
    let ghost entries = record_views(records@);
    let mut k: usize = records.len();
    while k > 0
        invariant
            k <= records@.len(),
            entries == record_views(records@),
            long_value_of(entries, table_id as int, records@.len() as int) == long_value_of(
                entries,
                table_id as int,
                k as int,
            ),
        decreases k,
    {
        assert(entries[k - 1] == records@[k - 1]@);
        match &records[k - 1] {
            CatalogRecord::LongValue(info) => {
                if info.table_object_id == table_id {
                    return Some(info.duplicate());
                }
            },
            _ => {},
        }
        k -= 1;
    }
    None
}

/// Assembles the catalog from the rows of the metadata table, whose columns
/// are `metadata_columns`.
///
/// The tables come out by ascending id, each with its columns by ascending
/// column id and its indexes by ascending index id.
pub fn collect_tables(rows: &[BTreeMap<i32, Value>], metadata_columns: &[Column]) -> (r: Result<
    Vec<Table>,
    ReadError,
>)
    ensures
        match r {
            Ok(tables) => spec_collect_tables(
                row_views(rows@),
                column_views(metadata_columns@),
            ) == Ok::<
                Seq<TableView>,
                ReadError,
            >(table_views(tables@)) && catalog_ordered(table_views(tables@)),
            Err(e) => spec_collect_tables(
                row_views(rows@),
                column_views(metadata_columns@),
            ) == Err::<
                Seq<TableView>,
                ReadError,
            >(e),
        },
{
    let ghost row_maps = row_views(rows@);
    let mut records: Vec<CatalogRecord> = Vec::new();
    let mut k: usize = 0;
    assert(record_views(records@) =~= Seq::<CatalogEntry>::empty());
    while k < rows.len()
        invariant
            k <= rows@.len(),
            row_maps == row_views(rows@),
            catalog_entries(column_views(metadata_columns@), row_maps, k as int) == Ok::<
                Seq<CatalogEntry>,
                ReadError,
            >(record_views(records@)),
        decreases rows@.len() - k,
    {
        assert(row_maps[k as int] == row_view(rows@[k as int]@));
        let record = match read_catalog_row(metadata_columns, &rows[k]) {
            Ok(record) => record,
            Err(e) => {
                proof {
                    assert(
                        catalog_entries(column_views(metadata_columns@), row_maps, k + 1) is Err
                    );
                    lemma_catalog_entries_fail(
                        column_views(metadata_columns@),
                        row_maps,
                        k + 1,
                        row_maps.len() as int,
                    );
                }
                return Err(e);
            },
        };
        let ghost before = records@;
        records.push(record);
        assert(record_views(records@) =~= record_views(before).push(record@));
        k += 1;
    }
    let ghost entries = record_views(records@);
    let mut headers: Vec<TableHeader> = Vec::new();
    let mut i: usize = 0;
    assert(header_views(headers@) =~= Seq::<TableHeaderView>::empty());
    while i < records.len()
        invariant
            i <= records@.len(),
            entries == record_views(records@),
            header_views(headers@) == headers_of(entries, i as int),
        decreases records@.len() - i,
    {
        assert(entries[i as int] == records@[i as int]@);
        match &records[i] {
            CatalogRecord::Table(header) => {
                put_header(&mut headers, header.duplicate());
            },
            _ => {},
        }
        i += 1;
    }
    let ghost all_headers = header_views(headers@);
    let mut tables: Vec<Table> = Vec::new();
    let mut t: usize = 0;
    while t < headers.len()
        invariant
            t <= headers@.len(),
            entries == record_views(records@),
            all_headers == header_views(headers@),
            tables@.len() == t,
            forall|j: int|
                0 <= j < t ==> (#[trigger] tables@[j])@ == table_of(entries, all_headers[j]),
        decreases headers@.len() - t,
    {
        let header = headers[t].duplicate();
        let table_id = header.table_object_id;
        let columns = columns_for(&records, table_id);
        let indexes = indexes_for(&records, table_id);
        let long_value = long_value_for(&records, table_id);
        tables.push(Table { header, columns, indexes, long_value });
        t += 1;
    }
    assert(table_views(tables@) =~= tables_of(entries));
    proof {
        lemma_catalog_ordered(entries);
    }
    Ok(tables)
}


/// The name of the table that holds the catalog.
pub const CATALOG_TABLE_NAME: &'static str = "MSysObjects";

/// The name of the column with index `i` of the schema with which the
/// catalog is first read.
pub open spec fn metadata_column_name(i: int) -> &'static str {
    if i == 0 {
        "ObjidTable"
    } else if i == 1 {
        "Type"
    } else if i == 2 {
        "Id"
    } else if i == 3 {
        "ColtypOrPgnoFDP"
    } else if i == 4 {
        "SpaceUsage"
    } else if i == 5 {
        "Flags"
    } else if i == 6 {
        "PagesOrLocale"
    } else if i == 7 {
        "RootFlag"
    } else if i == 8 {
        "RecordOffset"
    } else {
        "Name"
    }
}

/// The column with index `i` of the schema with which the catalog is first
/// read: nine fixed columns with the ids 1 to 9, and the name in the first
/// variable column.
pub open spec fn metadata_column(i: int) -> ColumnView {
    ColumnView {
        table_object_id: 2,
        column_id: if i == 9 {
            128i32
        } else {
            (i + 1) as i32
        },
        column_type: if i == 1 || i == 8 {
            DataType::Short
        } else if i == 7 {
            DataType::Bit
        } else if i == 9 {
            DataType::Text
        } else {
            DataType::Long
        },
        length: if i == 1 || i == 8 {
            2i32
        } else if i == 7 {
            1i32
        } else if i == 9 {
            255i32
        } else {
            4i32
        },
        flags: ColumnFlags {
            bits: if i == 7 || i == 8 {
                0i32
            } else {
                COLUMN_FIXED
            },
        },
        codepage: 1252,
        root_flag: None,
        record_offset: if i == 9 {
            None
        } else {
            Some(4i16)
        },
        name: metadata_column_name(i)@,
    }
}

/// The schema with which the catalog is first read. The catalog describes
/// its own columns, so the few that are needed to get at them are fixed
/// here.
pub open spec fn spec_metadata_column_defs() -> Seq<ColumnView> {
    Seq::new(10, |i: int| metadata_column(i))
}

fn bootstrap_column(
    column_id: i32,
    column_type: DataType,
    length: i32,
    flags: i32,
    record_offset: Option<i16>,
    name: &'static str,
) -> (r: Column)
    ensures
        r@ == (ColumnView {
            table_object_id: 2,
            column_id,
            column_type,
            length,
            flags: ColumnFlags { bits: flags },
            codepage: 1252,
            root_flag: None,
            record_offset,
            name: name@,
        }),
{
    Column {
        table_object_id: 2,
        column_id,
        column_type,
        length,
        flags: ColumnFlags::from_bits_retain(flags),
        codepage: 1252,
        root_flag: None,
        record_offset,
        name: name.to_owned(),
    }
}

/// The schema with which the catalog is first read.
pub fn metadata_column_defs() -> (r: Vec<Column>)
    ensures
        column_views(r@) == spec_metadata_column_defs(),
{
    let mut columns: Vec<Column> = Vec::new();
    columns.push(bootstrap_column(1, DataType::Long, 4, COLUMN_FIXED, Some(4), "ObjidTable"));
    columns.push(bootstrap_column(2, DataType::Short, 2, COLUMN_FIXED, Some(4), "Type"));
    columns.push(bootstrap_column(3, DataType::Long, 4, COLUMN_FIXED, Some(4), "Id"));
    columns.push(
        bootstrap_column(4, DataType::Long, 4, COLUMN_FIXED, Some(4), "ColtypOrPgnoFDP"),
    );
    columns.push(bootstrap_column(5, DataType::Long, 4, COLUMN_FIXED, Some(4), "SpaceUsage"));
    columns.push(bootstrap_column(6, DataType::Long, 4, COLUMN_FIXED, Some(4), "Flags"));
    columns.push(bootstrap_column(7, DataType::Long, 4, COLUMN_FIXED, Some(4), "PagesOrLocale"));
    columns.push(bootstrap_column(8, DataType::Bit, 1, 0, Some(4), "RootFlag"));
    columns.push(bootstrap_column(9, DataType::Short, 2, 0, Some(4), "RecordOffset"));
    columns.push(bootstrap_column(128, DataType::Text, 255, COLUMN_FIXED, None, "Name"));
    assert(column_views(columns@) =~= spec_metadata_column_defs());
    columns
}

/// The first of `tables[from..]` whose name is `name`.
pub open spec fn table_named_from(tables: Seq<TableView>, name: Seq<char>, from: int) -> Option<
    int,
>
    decreases tables.len() - from,
{
    if from < 0 || from >= tables.len() {
        None
    } else if tables[from].header.name == name {
        Some(from)
    } else {
        table_named_from(tables, name, from + 1)
    }
}

/// The position of the first table with the name `name`.
pub open spec fn table_named(tables: Seq<TableView>, name: Seq<char>) -> Option<int> {
    table_named_from(tables, name, 0)
}

/// Finds the first table with the name `name`.
pub fn find_table(tables: &[Table], name: &str) -> (r: Option<usize>)
    ensures
        match r {
            Some(i) => i < tables@.len() && table_named(table_views(tables@), name@) == Some(
                i as int,
            ),
            None => table_named(table_views(tables@), name@).is_none(),
        },
{
    let wanted = name.to_owned();
    let mut i: usize = 0;
    while i < tables.len()
        invariant
            i <= tables@.len(),
            wanted@ == name@,
            table_named(table_views(tables@), name@) == table_named_from(
                table_views(tables@),
                name@,
                i as int,
            ),
        decreases tables@.len() - i,
    {
        assert(table_views(tables@)[i as int] == tables@[i as int]@);
        if tables[i].header.name == wanted {
            return Some(i);
        }
        i += 1;
    }
    None
}

/// The page at which a long-value tree is rooted: none where the catalog
/// holds a negative page number for it.
pub open spec fn long_value_page(long_value: Option<LongValueInfoView>) -> Option<u64> {
    match long_value {
        Some(info) => if info.fdp_page_number >= 0 {
            Some(info.fdp_page_number as u64)
        } else {
            None
        },
        None => None,
    }
}

/// The catalog of a file, read in two passes.
///
/// The first pass reads the tree at the catalog's page with the fixed
/// schema and collects a first catalog. The second pass takes the catalog
/// table's own entry from it, and reads the tree at that table's page again
/// with the columns and the long-value tree that the entry names.
pub open spec fn spec_read_catalog(s: Seq<u8>, header: Header) -> Result<
    Seq<TableView>,
    ReadError,
> {
    match spec_read_table_from_pages(
        s,
        header,
        CATALOG_PAGE_NUMBER,
        spec_metadata_column_defs(),
        None,
    ) {
        Err(e) => Err(e),
        Ok(first_rows) => match spec_collect_tables(first_rows, spec_metadata_column_defs()) {
            Err(e) => Err(e),
            Ok(first) => match table_named(first, CATALOG_TABLE_NAME@) {
                None => Err(ReadError::TableNotFound { name: CATALOG_TABLE_NAME }),
                Some(i) => if first[i].header.fdp_page_number < 0 {
                    Err(ReadError::Io(IoErrorKind::InvalidData))
                } else {
                    match spec_read_table_from_pages(
                        s,
                        header,
                        first[i].header.fdp_page_number as u64,
                        first[i].columns,
                        long_value_page(first[i].long_value),
                    ) {
                        Err(e) => Err(e),
                        Ok(rows) => spec_collect_tables(rows, first[i].columns),
                    }
                },
            },
        },
    }
}

/// Reads the catalog of the file `data`.
pub fn read_catalog(data: &[u8], header: &Header) -> (r: Result<Vec<Table>, ReadError>)
    ensures
        match r {
            Ok(tables) => spec_read_catalog(data@, *header) == Ok::<Seq<TableView>, ReadError>(
                table_views(tables@),
            ),
            Err(e) => spec_read_catalog(data@, *header) == Err::<Seq<TableView>, ReadError>(e),
        },
{
    let bootstrap = metadata_column_defs();
    let first_rows = read_table_from_pages(
        data,
        header,
        CATALOG_PAGE_NUMBER,
        bootstrap.as_slice(),
        None,
    )?;
    let first = collect_tables(first_rows.as_slice(), bootstrap.as_slice())?;
    let position = match find_table(first.as_slice(), CATALOG_TABLE_NAME) {
        Some(position) => position,
        None => { return Err(ReadError::TableNotFound { name: CATALOG_TABLE_NAME }); },
    };
    let catalog_table = &first[position];
    assert(table_views(first@)[position as int] == catalog_table@);
    if catalog_table.header.fdp_page_number < 0 {
        return Err(ReadError::Io(IoErrorKind::InvalidData));
    }
    let rows = read_table_from_pages(
        data,
        header,
        catalog_table.header.fdp_page_number as u64,
        catalog_table.columns.as_slice(),
        catalog_table.long_value_page_number(),
    )?;
    collect_tables(rows.as_slice(), catalog_table.columns.as_slice())
}

} // verus!
