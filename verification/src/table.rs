//! Catalog records, row values and the row decoder.

use vstd::prelude::*;

use crate::data::{Bit, Data, DataType, DataView};

verus! {

pub const OBJECT_SYSTEM: i32 = i32::MIN;

pub const OBJECT_TABLE_FIXED_DDL: i32 = 0x4000_0000;

pub const OBJECT_TABLE_TEMPLATE: i32 = 0x2000_0000;

pub const OBJECT_TABLE_DERIVED: i32 = 0x1000_0000;

/// Mostly set together with `OBJECT_SYSTEM`.
pub const OBJECT_DYNAMIC: i32 = 0x0800_0000;

pub const OBJECT_NO_FIXED_VAR_COLUMNS_IN_DERIVED_TABLES: i32 = 0x0400_0000;

/// The flag bits of a table, an index or a long-value tree. The `OBJECT_`
/// constants name them.
#[derive(Clone, Copy, Debug, PartialEq, Eq, Structural, PartialOrd, Ord, Hash)]
pub struct ObjectFlags {
    pub bits: i32,
}

impl ObjectFlags {
    /// Whether every bit of `mask` is set.
    pub open spec fn spec_contains(&self, mask: i32) -> bool {
        self.bits & mask == mask
    }

    #[verifier::when_used_as_spec(spec_contains)]
    pub fn contains(&self, mask: i32) -> (r: bool)
        ensures
            r == self.spec_contains(mask),
    {
        self.bits & mask == mask
    }

    pub fn from_bits_retain(bits: i32) -> (r: ObjectFlags)
        ensures
            r.bits == bits,
    {
        ObjectFlags { bits }
    }

    pub fn bits(&self) -> (r: i32)
        ensures
            r == self.bits,
    {
        self.bits
    }

    pub fn empty() -> (r: ObjectFlags)
        ensures
            r.bits == 0,
    {
        ObjectFlags { bits: 0 }
    }
}

pub const COLUMN_FIXED: i32 = 0x0000_0001;

pub const COLUMN_TAGGED: i32 = 0x0000_0002;

pub const COLUMN_NOT_NULL: i32 = 0x0000_0004;

pub const COLUMN_VERSION: i32 = 0x0000_0008;

pub const COLUMN_AUTOINCREMENT: i32 = 0x0000_0010;

pub const COLUMN_UPDATABLE: i32 = 0x0000_0020;

pub const COLUMN_TEMP_TABLE_KEY: i32 = 0x0000_0040;

pub const COLUMN_TEMP_TABLE_DESCENDING: i32 = 0x0000_0080;

pub const COLUMN_MULTI_VALUED: i32 = 0x0000_0400;

pub const COLUMN_ESCROW_UPDATE: i32 = 0x0000_0800;

pub const COLUMN_UNVERSIONED: i32 = 0x0000_1000;

pub const COLUMN_MAYBE_NULL: i32 = 0x0000_2000;

pub const COLUMN_FINALIZE: i32 = 0x0000_4000;

pub const COLUMN_USER_DEFINED_DEFAULT: i32 = 0x0000_8000;

pub const COLUMN_RENAME_CONVERT_TO_PRIMARY_INDEX_PLACEHOLDER: i32 = 0x0001_0000;

pub const COLUMN_DELETE_ON_ZERO: i32 = 0x0002_0000;

pub const COLUMN_VARIABLE: i32 = 0x0004_0000;

pub const COLUMN_COMPRESSED: i32 = 0x0008_0000;

pub const COLUMN_ENCRYPTED: i32 = 0x0010_0000;

/// The flag bits of a column. The `COLUMN_` constants name them.
#[derive(Clone, Copy, Debug, PartialEq, Eq, Structural, PartialOrd, Ord, Hash)]
pub struct ColumnFlags {
    pub bits: i32,
}

impl ColumnFlags {
    /// Whether every bit of `mask` is set.
    pub open spec fn spec_contains(&self, mask: i32) -> bool {
        self.bits & mask == mask
    }

    #[verifier::when_used_as_spec(spec_contains)]
    pub fn contains(&self, mask: i32) -> (r: bool)
        ensures
            r == self.spec_contains(mask),
    {
        self.bits & mask == mask
    }

    pub fn from_bits_retain(bits: i32) -> (r: ColumnFlags)
        ensures
            r.bits == bits,
    {
        ColumnFlags { bits }
    }

    pub fn bits(&self) -> (r: i32)
        ensures
            r == self.bits,
    {
        self.bits
    }

    pub fn empty() -> (r: ColumnFlags)
        ensures
            r.bits == 0,
    {
        ColumnFlags { bits: 0 }
    }
}

pub const SMALL_TAG_NULL: u16 = 0x2000;

pub const SMALL_TAG_HAS_EXTENDED_FLAGS: u16 = 0x4000;

pub const SMALL_TAG_DERIVED: u16 = 0x8000;

/// The flag bits that a tagged value carries in its offset word. The
/// `SMALL_TAG_` constants name them.
#[derive(Clone, Copy, Debug, PartialEq, Eq, Structural, PartialOrd, Ord, Hash)]
pub struct SmallTagFlags {
    pub bits: u16,
}

impl SmallTagFlags {
    /// Whether every bit of `mask` is set.
    pub open spec fn spec_contains(&self, mask: u16) -> bool {
        self.bits & mask == mask
    }

    #[verifier::when_used_as_spec(spec_contains)]
    pub fn contains(&self, mask: u16) -> (r: bool)
        ensures
            r == self.spec_contains(mask),
    {
        self.bits & mask == mask
    }

    pub fn from_bits_retain(bits: u16) -> (r: SmallTagFlags)
        ensures
            r.bits == bits,
    {
        SmallTagFlags { bits }
    }

    pub fn bits(&self) -> (r: u16)
        ensures
            r == self.bits,
    {
        self.bits
    }
}

pub const TAG_LONG_VALUE: u8 = 0x01;

pub const TAG_COMPRESSED: u8 = 0x02;

pub const TAG_SEPARATED: u8 = 0x04;

pub const TAG_MULTI_VALUES: u8 = 0x08;

pub const TAG_TWO_VALUES: u8 = 0x10;

pub const TAG_NULL: u8 = 0x20;

pub const TAG_ENCRYPTED: u8 = 0x40;

pub const TAG_DERIVED: u8 = 0x80;

/// The flag bits of a tagged value. The `TAG_` constants name them.
#[derive(Clone, Copy, Debug, PartialEq, Eq, Structural, PartialOrd, Ord, Hash)]
pub struct TagFlags {
    pub bits: u8,
}

impl TagFlags {
    /// Whether every bit of `mask` is set.
    pub open spec fn spec_contains(&self, mask: u8) -> bool {
        self.bits & mask == mask
    }

    #[verifier::when_used_as_spec(spec_contains)]
    pub fn contains(&self, mask: u8) -> (r: bool)
        ensures
            r == self.spec_contains(mask),
    {
        self.bits & mask == mask
    }

    pub fn from_bits_retain(bits: u8) -> (r: TagFlags)
        ensures
            r.bits == bits,
    {
        TagFlags { bits }
    }

    pub fn bits(&self) -> (r: u8)
        ensures
            r == self.bits,
    {
        self.bits
    }

    pub fn empty() -> (r: TagFlags)
        ensures
            r.bits == 0,
    {
        TagFlags { bits: 0 }
    }

    /// The flags that the offset word alone gives: `NULL` and `DERIVED`
    /// carry over, and nothing else is set.
    pub open spec fn spec_from_small(small_flags: SmallTagFlags) -> TagFlags {
        TagFlags {
            bits: (if small_flags.contains(SMALL_TAG_NULL) {
                TAG_NULL
            } else {
                0u8
            }) | (if small_flags.contains(SMALL_TAG_DERIVED) {
                TAG_DERIVED
            } else {
                0u8
            }),
        }
    }

    pub fn from_small(small_flags: SmallTagFlags) -> (r: TagFlags)
        ensures
            r == Self::spec_from_small(small_flags),
    {
        let null: u8 = if small_flags.contains(SMALL_TAG_NULL) {
            TAG_NULL
        } else {
            0
        };
        let derived: u8 = if small_flags.contains(SMALL_TAG_DERIVED) {
            TAG_DERIVED
        } else {
            0
        };
        TagFlags { bits: null | derived }
    }
}

/// The kind of object that a catalog row describes.
///
/// `Other` stands for every number without a name of its own. A value is
/// well formed when it is the one that `from_base_type` gives for its number.
#[derive(Clone, Copy, Debug)]
pub enum ObjectType {
    Table,
    Column,
    Index,
    LongValue,
    Callback,
    Other(i16),
}

impl ObjectType {
    /// The catalog's number for this kind.
    pub open spec fn code(self) -> i16 {
        match self {
            ObjectType::Table => 1,
            ObjectType::Column => 2,
            ObjectType::Index => 3,
            ObjectType::LongValue => 4,
            ObjectType::Callback => 5,
            ObjectType::Other(n) => n,
        }
    }

    /// The kind that the catalog numbers `n`.
    pub open spec fn of_code(n: i16) -> ObjectType {
        if n == 1 {
            ObjectType::Table
        } else if n == 2 {
            ObjectType::Column
        } else if n == 3 {
            ObjectType::Index
        } else if n == 4 {
            ObjectType::LongValue
        } else if n == 5 {
            ObjectType::Callback
        } else {
            ObjectType::Other(n)
        }
    }

    /// `Other` holds no number that has a name.
    pub open spec fn wf(self) -> bool {
        self matches ObjectType::Other(n) ==> !(1 <= n <= 5)
    }

    pub fn from_base_type(n: i16) -> (r: ObjectType)
        ensures
            r == Self::of_code(n),
            r.wf(),
            r.code() == n,
    {
        match n {
            1 => ObjectType::Table,
            2 => ObjectType::Column,
            3 => ObjectType::Index,
            4 => ObjectType::LongValue,
            5 => ObjectType::Callback,
            _ => ObjectType::Other(n),
        }
    }

    pub fn to_base_type(&self) -> (r: i16)
        ensures
            r == self.code(),
    {
        match self {
            ObjectType::Table => 1,
            ObjectType::Column => 2,
            ObjectType::Index => 3,
            ObjectType::LongValue => 4,
            ObjectType::Callback => 5,
            ObjectType::Other(n) => *n,
        }
    }
}

/// Two kinds are equal when the catalog gives them the same number.
impl PartialEq for ObjectType {
    fn eq(&self, other: &ObjectType) -> (r: bool) {
        self.to_base_type() == other.to_base_type()
    }
}

impl vstd::std_specs::cmp::PartialEqSpecImpl for ObjectType {
    open spec fn obeys_eq_spec() -> bool {
        true
    }

    open spec fn eq_spec(&self, other: &ObjectType) -> bool {
        self.code() == other.code()
    }
}

impl Eq for ObjectType {

}


/// What the catalog records of a table.
#[derive(Clone, Debug, PartialEq, Eq)]
pub struct TableHeader {
    pub table_object_id: i32,
    pub fdp_object_id: i32,
    pub fdp_page_number: i32,
    pub density: i32,
    pub flags: ObjectFlags,
    pub page_count: i32,
    pub root_flag: Option<Bit>,
    pub name: String,
}

/// What the catalog records of a column. The column's id decides where its
/// values stand in a row: from 1 to 127 in the fixed region, from 128 to 255
/// in the variable region, from 256 on in the tagged region.
#[derive(Clone, Debug, PartialEq, Eq)]
pub struct Column {
    pub table_object_id: i32,
    pub column_id: i32,
    pub column_type: DataType,
    pub length: i32,
    pub flags: ColumnFlags,
    pub codepage: i32,
    pub root_flag: Option<Bit>,
    pub record_offset: Option<i16>,
    pub name: String,
}

/// What the catalog records of an index.
#[derive(Clone, Debug, PartialEq, Eq)]
pub struct Index {
    pub table_object_id: i32,
    pub index_id: i32,
    pub fdp_page_number: i32,
    pub used_pages: i32,
    pub flags: ObjectFlags,
    pub locale: i32,
    pub root_flag: Option<Bit>,
    pub record_offset: Option<i16>,
    pub name: String,
}

/// What the catalog records of the tree that holds a table's long values.
#[derive(Clone, Debug, PartialEq, Eq)]
pub struct LongValueInfo {
    pub table_object_id: i32,
    pub long_value_id: i32,
    pub fdp_page_number: i32,
    pub used_pages: i32,
    pub flags: ObjectFlags,
    pub page_count: i32,
    pub name: String,
}

/// A table with everything that the catalog records of it.
#[derive(Clone, Debug, PartialEq, Eq)]
pub struct Table {
    pub header: TableHeader,
    pub columns: Vec<Column>,
    pub indexes: Vec<Index>,
    pub long_value: Option<LongValueInfo>,
}

impl Table {
    /// The page at which the table's long-value tree is rooted: `None`
    /// without such a tree, and where the catalog holds a negative page
    /// number for it.
    pub open spec fn spec_long_value_page_number(&self) -> Option<u64> {
        match self.long_value {
            Some(lv) => if lv.fdp_page_number >= 0 {
                Some(lv.fdp_page_number as u64)
            } else {
                None
            },
            None => None,
        }
    }

    pub fn long_value_page_number(&self) -> (r: Option<u64>)
        ensures
            r == self.spec_long_value_page_number(),
    {
        match &self.long_value {
            Some(lv) => if lv.fdp_page_number >= 0 {
                Some(lv.fdp_page_number as u64)
            } else {
                None
            },
            None => None,
        }
    }
}

/// The value of one column in one row. A value from the fixed or the
/// variable region is `Simple`. A value from the tagged region carries its
/// tag flags, and is `Complex` where the tag holds exactly one value and
/// `Multiple` where it holds none or several.
#[derive(Clone, Debug, PartialEq)]
pub enum Value {
    Simple(Data),
    Complex { data: Data, flags: TagFlags },
    Multiple { values: Vec<Data>, flags: TagFlags },
}

/// What a `Value` holds.
pub enum ValueView {
    Simple(DataView),
    Complex { data: DataView, flags: TagFlags },
    Multiple { values: Seq<DataView>, flags: TagFlags },
}

/// What a sequence of `Data` values holds.
pub open spec fn data_views(values: Seq<Data>) -> Seq<DataView> {
    values.map_values(|d: Data| d@)
}

impl View for Value {
    type V = ValueView;

    open spec fn view(&self) -> ValueView {
        match self {
            Value::Simple(data) => ValueView::Simple(data@),
            Value::Complex { data, flags } => ValueView::Complex { data: data@, flags: *flags },
            Value::Multiple { values, flags } => ValueView::Multiple {
                values: data_views(values@),
                flags: *flags,
            },
        }
    }
}

/// What a row holds: for each column id its value.
pub open spec fn row_view(row: Map<i32, Value>) -> Map<i32, ValueView> {
    row.map_values(|v: Value| v@)
}

/// The last of `columns[..n]` whose id is `id`.
pub open spec fn column_with_id_among(columns: Seq<ColumnView>, id: int, n: int) -> Option<
    ColumnView,
>
    decreases n,
{
    if n <= 0 {
        None
    } else if columns[n - 1].column_id == id {
        Some(columns[n - 1])
    } else {
        column_with_id_among(columns, id, n - 1)
    }
}

/// The column of a schema with id `id`: the last one, should several have
/// it.
pub open spec fn column_with_id(columns: Seq<ColumnView>, id: int) -> Option<ColumnView> {
    column_with_id_among(columns, id, columns.len() as int)
}

/// Finds the column with id `id`.
pub fn find_column(columns: &[Column], id: i32) -> (r: Option<usize>)
    ensures
        match r {
            Some(i) => i < columns@.len() && column_with_id(column_views(columns@), id as int)
                == Some(columns@[i as int]@),
            None => column_with_id(column_views(columns@), id as int).is_none(),
        },
{
    let mut n: usize = columns.len();
    while n > 0
        invariant
            n <= columns@.len(),
            column_with_id(column_views(columns@), id as int) == column_with_id_among(
                column_views(columns@),
                id as int,
                n as int,
            ),
        decreases n,
    {
        if columns[n - 1].column_id == id {
            return Some(n - 1);
        }
        n -= 1;
    }
    None
}


/// What a `TableHeader` holds.
pub struct TableHeaderView {
    pub table_object_id: i32,
    pub fdp_object_id: i32,
    pub fdp_page_number: i32,
    pub density: i32,
    pub flags: ObjectFlags,
    pub page_count: i32,
    pub root_flag: Option<Bit>,
    pub name: Seq<char>,
}

/// What a `Column` holds.
pub struct ColumnView {
    pub table_object_id: i32,
    pub column_id: i32,
    pub column_type: DataType,
    pub length: i32,
    pub flags: ColumnFlags,
    pub codepage: i32,
    pub root_flag: Option<Bit>,
    pub record_offset: Option<i16>,
    pub name: Seq<char>,
}

/// What an `Index` holds.
pub struct IndexView {
    pub table_object_id: i32,
    pub index_id: i32,
    pub fdp_page_number: i32,
    pub used_pages: i32,
    pub flags: ObjectFlags,
    pub locale: i32,
    pub root_flag: Option<Bit>,
    pub record_offset: Option<i16>,
    pub name: Seq<char>,
}

/// What a `LongValueInfo` holds.
pub struct LongValueInfoView {
    pub table_object_id: i32,
    pub long_value_id: i32,
    pub fdp_page_number: i32,
    pub used_pages: i32,
    pub flags: ObjectFlags,
    pub page_count: i32,
    pub name: Seq<char>,
}

/// What a `Table` holds.
pub struct TableView {
    pub header: TableHeaderView,
    pub columns: Seq<ColumnView>,
    pub indexes: Seq<IndexView>,
    pub long_value: Option<LongValueInfoView>,
}

impl View for TableHeader {
    type V = TableHeaderView;

    open spec fn view(&self) -> TableHeaderView {
        TableHeaderView {
            table_object_id: self.table_object_id,
            fdp_object_id: self.fdp_object_id,
            fdp_page_number: self.fdp_page_number,
            density: self.density,
            flags: self.flags,
            page_count: self.page_count,
            root_flag: self.root_flag,
            name: self.name@,
        }
    }
}

impl View for Column {
    type V = ColumnView;

    open spec fn view(&self) -> ColumnView {
        ColumnView {
            table_object_id: self.table_object_id,
            column_id: self.column_id,
            column_type: self.column_type,
            length: self.length,
            flags: self.flags,
            codepage: self.codepage,
            root_flag: self.root_flag,
            record_offset: self.record_offset,
            name: self.name@,
        }
    }
}

impl View for Index {
    type V = IndexView;

    open spec fn view(&self) -> IndexView {
        IndexView {
            table_object_id: self.table_object_id,
            index_id: self.index_id,
            fdp_page_number: self.fdp_page_number,
            used_pages: self.used_pages,
            flags: self.flags,
            locale: self.locale,
            root_flag: self.root_flag,
            record_offset: self.record_offset,
            name: self.name@,
        }
    }
}

impl View for LongValueInfo {
    type V = LongValueInfoView;

    open spec fn view(&self) -> LongValueInfoView {
        LongValueInfoView {
            table_object_id: self.table_object_id,
            long_value_id: self.long_value_id,
            fdp_page_number: self.fdp_page_number,
            used_pages: self.used_pages,
            flags: self.flags,
            page_count: self.page_count,
            name: self.name@,
        }
    }
}

/// What a sequence of columns holds.
pub open spec fn column_views(columns: Seq<Column>) -> Seq<ColumnView> {
    columns.map_values(|c: Column| c@)
}

/// What a sequence of indexes holds.
pub open spec fn index_views(indexes: Seq<Index>) -> Seq<IndexView> {
    indexes.map_values(|i: Index| i@)
}

impl View for Table {
    type V = TableView;

    open spec fn view(&self) -> TableView {
        TableView {
            header: self.header@,
            columns: column_views(self.columns@),
            indexes: index_views(self.indexes@),
            long_value: match self.long_value {
                Some(lv) => Some(lv@),
                None => None,
            },
        }
    }
}

/// What a sequence of tables holds.
pub open spec fn table_views(tables: Seq<Table>) -> Seq<TableView> {
    tables.map_values(|t: Table| t@)
}

impl TableHeader {
    /// A copy of `self`.
    pub fn duplicate(&self) -> (r: TableHeader)
        ensures
            r@ == self@,
    {
        TableHeader {
            table_object_id: self.table_object_id,
            fdp_object_id: self.fdp_object_id,
            fdp_page_number: self.fdp_page_number,
            density: self.density,
            flags: self.flags,
            page_count: self.page_count,
            root_flag: self.root_flag,
            name: self.name.clone(),
        }
    }
}

impl Column {
    /// A copy of `self`.
    pub fn duplicate(&self) -> (r: Column)
        ensures
            r@ == self@,
    {
        Column {
            table_object_id: self.table_object_id,
            column_id: self.column_id,
            column_type: self.column_type,
            length: self.length,
            flags: self.flags,
            codepage: self.codepage,
            root_flag: self.root_flag,
            record_offset: self.record_offset,
            name: self.name.clone(),
        }
    }
}

impl Index {
    /// A copy of `self`.
    pub fn duplicate(&self) -> (r: Index)
        ensures
            r@ == self@,
    {
        Index {
            table_object_id: self.table_object_id,
            index_id: self.index_id,
            fdp_page_number: self.fdp_page_number,
            used_pages: self.used_pages,
            flags: self.flags,
            locale: self.locale,
            root_flag: self.root_flag,
            record_offset: self.record_offset,
            name: self.name.clone(),
        }
    }
}

impl LongValueInfo {
    /// A copy of `self`.
    pub fn duplicate(&self) -> (r: LongValueInfo)
        ensures
            r@ == self@,
    {
        LongValueInfo {
            table_object_id: self.table_object_id,
            long_value_id: self.long_value_id,
            fdp_page_number: self.fdp_page_number,
            used_pages: self.used_pages,
            flags: self.flags,
            page_count: self.page_count,
            name: self.name.clone(),
        }
    }
}

} // verus!
