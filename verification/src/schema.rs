//! The schema of a directory service, as its data table holds it: classes
//! and attributes, and the names of the columns that store the attributes.
//!
//! Every object of the directory is a row of the data table. A row names
//! itself by a number, its DNT, and names its parent by the parent's DNT.
//! The classes and attributes are the children of the schema root.

use std::collections::BTreeMap;
use vstd::prelude::*;

use crate::data::{Data, DataView};
use crate::row::row_views;
use crate::table::{
    column_views, data_views, row_view, Column, ColumnView, Table, Value, ValueView,
};

verus! {

pub const DNT_COLUMN_NAME: &'static str = "DNT_col";

pub const PARENT_DNT_COLUMN_NAME: &'static str = "PDNT_col";

pub const OBJECT_CLASS_COLUMN_NAME: &'static str = "ATTc0";

pub const TOP_OBJECT_NAME_COLUMN_NAME: &'static str = "ATTm589825";

pub const BOOT_OBJECT_NAME: &'static str = "Boot";

pub const ROOT_OBJECT_DNT: i32 = 2;

pub const SCHEMA_ROOT_OBJECT_CLASS: i32 = 196617;

pub const SCHEMA_OBJECT_LDAP_NAME_COLUMN_NAME: &'static str = "ATTm131532";

pub const SCHEMA_CLASS_OBJECT_CLASS: i32 = 196621;

pub const SCHEMA_CLASS_OBJECT_CLASS_COLUMN_NAME: &'static str = "ATTc131094";

pub const SCHEMA_ATTRIBUTE_OBJECT_CLASS: i32 = 196622;

pub const SCHEMA_ATTRIBUTE_ID_COLUMN_NAME: &'static str = "ATTc131102";

pub const SCHEMA_ATTRIBUTE_SYNTAX_COLUMN_NAME: &'static str = "ATTc131104";

/// The syntax number that stands for the letter `a` in a column name.
pub const FIRST_SYNTAX: i32 = 0x0008_0000;

/// Why the schema cannot be found or read.
#[derive(Clone, Copy, Debug, PartialEq, Eq)]
pub enum SchemaError {
    /// The data table has no column of this name.
    MissingColumn { name: &'static str },
    /// A row that must name itself has no DNT.
    MissingDnt,
    /// The DNT of a row is no simple 32-bit integer.
    UnexpectedDnt,
    /// No row has the class of the schema root, outside of `Boot`.
    SchemaRootNotFound,
    /// The syntax of an attribute stands for no letter from `a` to `z`.
    MalformedAttribute { id: i32, syntax: i32 },
}

/// An attribute of the directory's schema.
#[derive(Clone, Debug, PartialEq, Eq)]
pub struct Attribute {
    pub id: i32,
    pub syntax: i32,
    pub ldap_name: String,
}

/// What an `Attribute` holds.
pub struct AttributeView {
    pub id: i32,
    pub syntax: i32,
    pub ldap_name: Seq<char>,
}

impl View for Attribute {
    type V = AttributeView;

    open spec fn view(&self) -> AttributeView {
        AttributeView { id: self.id, syntax: self.syntax, ldap_name: self.ldap_name@ }
    }
}

/// A class of the directory's schema.
#[derive(Clone, Debug, PartialEq, Eq)]
pub struct ObjectClass {
    pub id: i32,
    pub ldap_name: String,
}

/// What an `ObjectClass` holds.
pub struct ObjectClassView {
    pub id: i32,
    pub ldap_name: Seq<char>,
}

impl View for ObjectClass {
    type V = ObjectClassView;

    open spec fn view(&self) -> ObjectClassView {
        ObjectClassView { id: self.id, ldap_name: self.ldap_name@ }
    }
}

/// The character of the decimal digit `d`.
pub open spec fn digit_char(d: int) -> char {
    ('0' as int + d) as char
}

/// The decimal digits of `n`, without leading zeros.
pub open spec fn decimal(n: nat) -> Seq<char>
    decreases n,
{
    if n < 10 {
        seq![digit_char(n as int)]
    } else {
        decimal(n / 10).push(digit_char((n % 10) as int))
    }
}

/// The decimal text of `n`, with a minus sign where it is negative.
pub open spec fn decimal_text(n: int) -> Seq<char> {
    if n < 0 {
        seq!['-'] + decimal((-n) as nat)
    } else {
        decimal(n as nat)
    }
}

/// Whether the syntax stands for a letter from `a` to `z`.
pub open spec fn syntax_has_letter(syntax: i32) -> bool {
    FIRST_SYNTAX <= syntax <= FIRST_SYNTAX + 25
}

/// The letter that a syntax stands for.
pub open spec fn syntax_letter(syntax: i32) -> char {
    ('a' as int + syntax - FIRST_SYNTAX) as char
}

/// The name of the column that stores an attribute: `ATT`, the letter of
/// its syntax, and its id in decimal.
pub open spec fn spec_column_name(syntax: i32, id: i32) -> Seq<char> {
    seq!['A', 'T', 'T'] + seq![syntax_letter(syntax)] + decimal_text(id as int)
}

/// The text of one decimal digit.
fn digit_text(d: u32) -> (r: &'static str)
    requires
        d < 10,
    ensures
        r@ == seq![digit_char(d as int)],
{
    proof {
        reveal_strlit("0");
        reveal_strlit("1");
        reveal_strlit("2");
        reveal_strlit("3");
        reveal_strlit("4");
        reveal_strlit("5");
        reveal_strlit("6");
        reveal_strlit("7");
        reveal_strlit("8");
        reveal_strlit("9");
    }
    let text = if d == 0 {
        "0"
    } else if d == 1 {
        "1"
    } else if d == 2 {
        "2"
    } else if d == 3 {
        "3"
    } else if d == 4 {
        "4"
    } else if d == 5 {
        "5"
    } else if d == 6 {
        "6"
    } else if d == 7 {
        "7"
    } else if d == 8 {
        "8"
    } else {
        "9"
    };
    assert(text@ =~= seq![digit_char(d as int)]);
    text
}

/// The text of the letter with index `i` of the alphabet.
fn letter_text(i: u32) -> (r: &'static str)
    requires
        i < 26,
    ensures
        r@ == seq![('a' as int + i) as char],
{
    proof {
        reveal_strlit("a");
        reveal_strlit("b");
        reveal_strlit("c");
        reveal_strlit("d");
        reveal_strlit("e");
        reveal_strlit("f");
        reveal_strlit("g");
        reveal_strlit("h");
        reveal_strlit("i");
        reveal_strlit("j");
        reveal_strlit("k");
        reveal_strlit("l");
        reveal_strlit("m");
        reveal_strlit("n");
        reveal_strlit("o");
        reveal_strlit("p");
        reveal_strlit("q");
        reveal_strlit("r");
        reveal_strlit("s");
        reveal_strlit("t");
        reveal_strlit("u");
        reveal_strlit("v");
        reveal_strlit("w");
        reveal_strlit("x");
        reveal_strlit("y");
        reveal_strlit("z");
    }
    let text = if i == 0 {
        "a"
    } else if i == 1 {
        "b"
    } else if i == 2 {
        "c"
    } else if i == 3 {
        "d"
    } else if i == 4 {
        "e"
    } else if i == 5 {
        "f"
    } else if i == 6 {
        "g"
    } else if i == 7 {
        "h"
    } else if i == 8 {
        "i"
    } else if i == 9 {
        "j"
    } else if i == 10 {
        "k"
    } else if i == 11 {
        "l"
    } else if i == 12 {
        "m"
    } else if i == 13 {
        "n"
    } else if i == 14 {
        "o"
    } else if i == 15 {
        "p"
    } else if i == 16 {
        "q"
    } else if i == 17 {
        "r"
    } else if i == 18 {
        "s"
    } else if i == 19 {
        "t"
    } else if i == 20 {
        "u"
    } else if i == 21 {
        "v"
    } else if i == 22 {
        "w"
    } else if i == 23 {
        "x"
    } else if i == 24 {
        "y"
    } else {
        "z"
    };
    assert(text@ =~= seq![('a' as int + i) as char]);
    text
}

/// Appends the decimal digits of `n` to `text`.
fn append_decimal(text: &mut String, n: u32)
    ensures
        final(text)@ == old(text)@ + decimal(n as nat),
    decreases n,
{
    if n >= 10 {
        append_decimal(text, n / 10);
    }
    text.append(digit_text(n % 10));
    assert(text@ =~= old(text)@ + decimal(n as nat));
}

impl Attribute {
    /// The name of the column that stores the attribute.
    pub fn to_column_name(&self) -> (r: String)
        requires
            syntax_has_letter(self.syntax),
        ensures
            r@ == spec_column_name(self.syntax, self.id),
    {
        proof {
            reveal_strlit("ATT");
            reveal_strlit("-");
        }
        let mut name = String::from_str("ATT");
        name.append(letter_text((self.syntax - FIRST_SYNTAX) as u32));
        if self.id < 0 {
            name.append("-");
            let magnitude: u32 = if self.id == i32::MIN {
                0x8000_0000
            } else {
                (-self.id) as u32
            };
            append_decimal(&mut name, magnitude);
        } else {
            append_decimal(&mut name, self.id as u32);
        }
        assert(name@ =~= spec_column_name(self.syntax, self.id));
        name
    }

    /// The name of the column that stores the attribute, where the
    /// attribute's syntax stands for a letter.
    pub fn column_name(&self) -> (r: Option<String>)
        ensures
            match r {
                Some(name) => syntax_has_letter(self.syntax) && name@ == spec_column_name(
                    self.syntax,
                    self.id,
                ),
                None => !syntax_has_letter(self.syntax),
            },
    {
        if self.syntax < FIRST_SYNTAX || self.syntax > FIRST_SYNTAX + 25 {
            None
        } else {
            Some(self.to_column_name())
        }
    }
}


/// The id of the first of `columns[from..]` whose name is `name`.
pub open spec fn column_id_named(columns: Seq<ColumnView>, name: Seq<char>, from: int) -> Option<
    i32,
>
    decreases columns.len() - from,
{
    if from < 0 || from >= columns.len() {
        None
    } else if columns[from].name == name {
        Some(columns[from].column_id)
    } else {
        column_id_named(columns, name, from + 1)
    }
}

/// The id of the column `name` of the data table, which must have it.
pub open spec fn required_column(columns: Seq<ColumnView>, name: &'static str) -> Result<
    i32,
    SchemaError,
> {
    match column_id_named(columns, name@, 0) {
        Some(id) => Ok(id),
        None => Err(SchemaError::MissingColumn { name }),
    }
}

/// Finds the id of the first column with the name `name`.
fn find_required_column(columns: &[Column], name: &'static str) -> (r: Result<i32, SchemaError>)
    ensures
        r == required_column(column_views(columns@), name),
{
    let wanted = name.to_owned();
    let mut i: usize = 0;
    while i < columns.len()
        invariant
            i <= columns@.len(),
            wanted@ == name@,
            column_id_named(column_views(columns@), name@, 0) == column_id_named(
                column_views(columns@),
                name@,
                i as int,
            ),
        decreases columns@.len() - i,
    {
        assert(column_views(columns@)[i as int] == columns@[i as int]@);
        if columns[i].name == wanted {
            return Ok(columns[i].column_id);
        }
        i += 1;
    }
    Err(SchemaError::MissingColumn { name })
}

/// The data that a value holds, one piece behind the other.
pub open spec fn value_data(value: ValueView) -> Seq<DataView> {
    match value {
        ValueView::Simple(data) => seq![data],
        ValueView::Complex { data, .. } => seq![data],
        ValueView::Multiple { values, .. } => values,
    }
}

/// Whether the value of `column` in a row holds `expected`.
pub open spec fn row_contains(row: Map<i32, ValueView>, column: i32, expected: DataView) -> bool {
    row.contains_key(column) && value_data(row[column]).contains(expected)
}

/// The first piece of data that a row holds for `column`.
pub open spec fn first_data(row: Map<i32, ValueView>, column: i32) -> Option<DataView> {
    if row.contains_key(column) && value_data(row[column]).len() > 0 {
        Some(value_data(row[column])[0])
    } else {
        None
    }
}

/// The DNT of a row: the simple 32-bit integer in its DNT column.
pub open spec fn row_dnt(row: Map<i32, ValueView>, dnt_column: i32) -> Result<i32, SchemaError> {
    if !row.contains_key(dnt_column) {
        Err(SchemaError::MissingDnt)
    } else {
        match row[dnt_column] {
            ValueView::Simple(DataView::Long(dnt)) => Ok(dnt),
            _ => Err(SchemaError::UnexpectedDnt),
        }
    }
}

fn data_is_long(data: &Data, n: i32) -> (r: bool)
    ensures
        r == (data@ == DataView::Long(n)),
{
    match data {
        Data::Long(v) => *v == n,
        _ => false,
    }
}

fn data_is_long_text(data: &Data, text: &String) -> (r: bool)
    ensures
        r == (data@ == DataView::LongText(text@)),
{
    match data {
        Data::LongText(v) => *v == *text,
        _ => false,
    }
}

fn list_contains_long(values: &Vec<Data>, n: i32) -> (r: bool)
    ensures
        r == data_views(values@).contains(DataView::Long(n)),
{
    let mut i: usize = 0;
    while i < values.len()
        invariant
            i <= values@.len(),
            forall|k: int| 0 <= k < i ==> data_views(values@)[k] != DataView::Long(n),
        decreases values@.len() - i,
    {
        if data_is_long(&values[i], n) {
            assert(data_views(values@)[i as int] == DataView::Long(n));
            return true;
        }
        i += 1;
    }
    false
}

fn list_contains_long_text(values: &Vec<Data>, text: &String) -> (r: bool)
    ensures
        r == data_views(values@).contains(DataView::LongText(text@)),
{
    let mut i: usize = 0;
    while i < values.len()
        invariant
            i <= values@.len(),
            forall|k: int| 0 <= k < i ==> data_views(values@)[k] != DataView::LongText(text@),
        decreases values@.len() - i,
    {
        if data_is_long_text(&values[i], text) {
            assert(data_views(values@)[i as int] == DataView::LongText(text@));
            return true;
        }
        i += 1;
    }
    false
}

/// Whether the value of `column` in a row holds the 32-bit integer `n`.
pub fn row_contains_long(row: &BTreeMap<i32, Value>, column: i32, n: i32) -> (r: bool)
    ensures
        r == row_contains(row_view(row@), column, DataView::Long(n)),
{
    match row.get(&column) {
        None => false,
        Some(Value::Simple(data)) => {
            let found = data_is_long(data, n);
            assert(seq![data@][0] == data@);
            found
        },
        Some(Value::Complex { data, .. }) => {
            let found = data_is_long(data, n);
            assert(seq![data@][0] == data@);
            found
        },
        Some(Value::Multiple { values, .. }) => list_contains_long(values, n),
    }
}

/// Whether the value of `column` in a row holds the long text `text`.
pub fn row_contains_long_text(row: &BTreeMap<i32, Value>, column: i32, text: &str) -> (r: bool)
    ensures
        r == row_contains(row_view(row@), column, DataView::LongText(text@)),
{
    let wanted = text.to_owned();
    match row.get(&column) {
        None => false,
        Some(Value::Simple(data)) => {
            let found = data_is_long_text(data, &wanted);
            assert(seq![data@][0] == data@);
            found
        },
        Some(Value::Complex { data, .. }) => {
            let found = data_is_long_text(data, &wanted);
            assert(seq![data@][0] == data@);
            found
        },
        Some(Value::Multiple { values, .. }) => list_contains_long_text(values, &wanted),
    }
}

/// The first piece of data that a row holds for `column`.
pub fn get_first_value<'a>(row: &'a BTreeMap<i32, Value>, column: i32) -> (r: Option<&'a Data>)
    ensures
        match r {
            Some(data) => first_data(row_view(row@), column) == Some(data@),
            None => first_data(row_view(row@), column).is_none(),
        },
{
    match row.get(&column) {
        None => None,
        Some(Value::Simple(data)) => Some(data),
        Some(Value::Complex { data, .. }) => Some(data),
        Some(Value::Multiple { values, .. }) => {
            if values.len() > 0 {
                assert(data_views(values@)[0] == values@[0]@);
                Some(&values[0])
            } else {
                None
            }
        },
    }
}

/// The DNT of a row.
pub fn extract_dnt(row: &BTreeMap<i32, Value>, dnt_column: i32) -> (r: Result<i32, SchemaError>)
    ensures
        r == row_dnt(row_view(row@), dnt_column),
{
    match row.get(&dnt_column) {
        None => Err(SchemaError::MissingDnt),
        Some(Value::Simple(Data::Long(dnt))) => Ok(*dnt),
        Some(_) => Err(SchemaError::UnexpectedDnt),
    }
}

/// Whether a row is the object `Boot` under the root object.
pub open spec fn is_boot(row: Map<i32, ValueView>, parent_column: i32, name_column: i32) -> bool {
    row_contains(row, parent_column, DataView::Long(ROOT_OBJECT_DNT)) && row_contains(
        row,
        name_column,
        DataView::LongText(BOOT_OBJECT_NAME@),
    )
}

/// The position of the first of `rows[from..]` that is the object `Boot`.
pub open spec fn first_boot(
    rows: Seq<Map<i32, ValueView>>,
    parent_column: i32,
    name_column: i32,
    from: int,
) -> Option<int>
    decreases rows.len() - from,
{
    if from < 0 || from >= rows.len() {
        None
    } else if is_boot(rows[from], parent_column, name_column) {
        Some(from)
    } else {
        first_boot(rows, parent_column, name_column, from + 1)
    }
}

/// The position of the first of `rows[from..]` whose DNT is `dnt`.
pub open spec fn row_with_dnt(
    rows: Seq<Map<i32, ValueView>>,
    dnt_column: i32,
    dnt: i32,
    from: int,
) -> Option<int>
    decreases rows.len() - from,
{
    if from < 0 || from >= rows.len() {
        None
    } else if row_dnt(rows[from], dnt_column) == Ok::<i32, SchemaError>(dnt) {
        Some(from)
    } else {
        row_with_dnt(rows, dnt_column, dnt, from + 1)
    }
}

/// The position of the parent of a row: of the first row whose DNT is the
/// first piece of data in the row's parent column.
pub open spec fn parent_row(
    rows: Seq<Map<i32, ValueView>>,
    dnt_column: i32,
    parent_column: i32,
    row: Map<i32, ValueView>,
) -> Option<int> {
    match first_data(row, parent_column) {
        Some(DataView::Long(parent)) => row_with_dnt(rows, dnt_column, parent, 0),
        _ => None,
    }
}

/// Whether a row stands under the object with the DNT `boot`: it is a
/// child of that object, or its parent stands under it. At most `fuel`
/// parents are followed.
pub open spec fn under_boot(
    rows: Seq<Map<i32, ValueView>>,
    dnt_column: i32,
    parent_column: i32,
    row: Map<i32, ValueView>,
    boot: i32,
    fuel: nat,
) -> bool
    decreases fuel,
{
    row_contains(row, parent_column, DataView::Long(boot)) || (fuel > 0 && match parent_row(
        rows,
        dnt_column,
        parent_column,
        row,
    ) {
        Some(j) => under_boot(
            rows,
            dnt_column,
            parent_column,
            rows[j],
            boot,
            (fuel - 1) as nat,
        ),
        None => false,
    })
}

/// The columns by which the schema root is told from other rows, and the
/// DNT of the object `Boot`, if there is one.
pub struct RootSearch {
    pub dnt_column: i32,
    pub parent_column: i32,
    pub class_column: i32,
    pub boot: Option<i32>,
}

/// Whether a row has the class of the schema root and does not stand under
/// the object `Boot`, if there is one. From the row as many parents are
/// followed as there are rows.
pub open spec fn is_schema_root(
    rows: Seq<Map<i32, ValueView>>,
    search: RootSearch,
    row: Map<i32, ValueView>,
) -> bool {
    &&& match search.boot {
        Some(dnt) => !under_boot(
            rows,
            search.dnt_column,
            search.parent_column,
            row,
            dnt,
            rows.len(),
        ),
        None => true,
    }
    &&& row_contains(row, search.class_column, DataView::Long(SCHEMA_ROOT_OBJECT_CLASS))
}

/// The position of the first of `rows[from..]` that is a schema root
/// outside of `Boot`.
pub open spec fn first_schema_root(
    rows: Seq<Map<i32, ValueView>>,
    search: RootSearch,
    from: int,
) -> Option<int>
    decreases rows.len() - from,
{
    if from < 0 || from >= rows.len() {
        None
    } else if is_schema_root(rows, search, rows[from]) {
        Some(from)
    } else {
        first_schema_root(rows, search, from + 1)
    }
}

/// The DNT of the object `Boot`, if the rows hold such an object.
pub open spec fn boot_dnt(
    rows: Seq<Map<i32, ValueView>>,
    dnt_column: i32,
    parent_column: i32,
    name_column: i32,
) -> Result<Option<i32>, SchemaError> {
    match first_boot(rows, parent_column, name_column, 0) {
        None => Ok(None),
        Some(i) => match row_dnt(rows[i], dnt_column) {
            Err(e) => Err(e),
            Ok(dnt) => Ok(Some(dnt)),
        },
    }
}

/// The columns and the DNT of `Boot` with which the schema root is looked
/// for among the rows of the data table.
pub open spec fn root_search(columns: Seq<ColumnView>, rows: Seq<Map<i32, ValueView>>) -> Result<
    RootSearch,
    SchemaError,
> {
    match required_column(columns, DNT_COLUMN_NAME) {
        Err(e) => Err(e),
        Ok(dnt_column) => match required_column(columns, PARENT_DNT_COLUMN_NAME) {
            Err(e) => Err(e),
            Ok(parent_column) => match required_column(columns, OBJECT_CLASS_COLUMN_NAME) {
                Err(e) => Err(e),
                Ok(class_column) => match required_column(columns, TOP_OBJECT_NAME_COLUMN_NAME) {
                    Err(e) => Err(e),
                    Ok(name_column) => match boot_dnt(
                        rows,
                        dnt_column,
                        parent_column,
                        name_column,
                    ) {
                        Err(e) => Err(e),
                        Ok(boot) => Ok(
                            RootSearch { dnt_column, parent_column, class_column, boot },
                        ),
                    },
                },
            },
        },
    }
}

/// The position of the schema root among the rows of the data table: the
/// first row with the class of the schema root that does not stand under
/// the object `Boot`.
pub open spec fn spec_find_schema_root(columns: Seq<ColumnView>, rows: Seq<Map<i32, ValueView>>)
    -> Result<int, SchemaError> {
    match root_search(columns, rows) {
        Err(e) => Err(e),
        Ok(search) => match first_schema_root(rows, search, 0) {
            None => Err(SchemaError::SchemaRootNotFound),
            Some(i) => Ok(i),
        },
    }
}

/// Finds the DNT of the object `Boot`.
fn find_boot_dnt(
    data_rows: &[BTreeMap<i32, Value>],
    dnt_column: i32,
    parent_column: i32,
    name_column: i32,
) -> (r: Result<Option<i32>, SchemaError>)
    ensures
        r == boot_dnt(row_views(data_rows@), dnt_column, parent_column, name_column),
{
    let ghost rows = row_views(data_rows@);
    let mut b: usize = 0;
    while b < data_rows.len()
        invariant
            b <= data_rows@.len(),
            rows == row_views(data_rows@),
            first_boot(rows, parent_column, name_column, 0) == first_boot(
                rows,
                parent_column,
                name_column,
                b as int,
            ),
        decreases data_rows@.len() - b,
    {
        assert(rows[b as int] == row_view(data_rows@[b as int]@));
        if row_contains_long(&data_rows[b], parent_column, ROOT_OBJECT_DNT)
            && row_contains_long_text(&data_rows[b], name_column, BOOT_OBJECT_NAME) {
            let dnt = extract_dnt(&data_rows[b], dnt_column)?;
            return Ok(Some(dnt));
        }
        b += 1;
    }
    Ok(None)
}

/// Finds the first row with the DNT `dnt`.
fn find_row_with_dnt(data_rows: &[BTreeMap<i32, Value>], dnt_column: i32, dnt: i32) -> (r: Option<
    usize,
>)
    ensures
        match r {
            Some(j) => j < data_rows@.len() && row_with_dnt(
                row_views(data_rows@),
                dnt_column,
                dnt,
                0,
            ) == Some(j as int),
            None => row_with_dnt(row_views(data_rows@), dnt_column, dnt, 0).is_none(),
        },
{
    let ghost rows = row_views(data_rows@);
    let mut j: usize = 0;
    while j < data_rows.len()
        invariant
            j <= data_rows@.len(),
            rows == row_views(data_rows@),
            row_with_dnt(rows, dnt_column, dnt, 0) == row_with_dnt(rows, dnt_column, dnt, j as int),
        decreases data_rows@.len() - j,
    {
        assert(rows[j as int] == row_view(data_rows@[j as int]@));
        match extract_dnt(&data_rows[j], dnt_column) {
            Ok(found) => {
                if found == dnt {
                    return Some(j);
                }
            },
            Err(_) => {},
        }
        j += 1;
    }
    None
}

/// Finds the parent of the row at `i`.
fn find_parent_row(
    data_rows: &[BTreeMap<i32, Value>],
    dnt_column: i32,
    parent_column: i32,
    i: usize,
) -> (r: Option<usize>)
    requires
        i < data_rows@.len(),
    ensures
        match r {
            Some(j) => j < data_rows@.len() && parent_row(
                row_views(data_rows@),
                dnt_column,
                parent_column,
                row_views(data_rows@)[i as int],
            ) == Some(j as int),
            None => parent_row(
                row_views(data_rows@),
                dnt_column,
                parent_column,
                row_views(data_rows@)[i as int],
            ).is_none(),
        },
{
    assert(row_views(data_rows@)[i as int] == row_view(data_rows@[i as int]@));
    match get_first_value(&data_rows[i], parent_column) {
        Some(Data::Long(parent)) => find_row_with_dnt(data_rows, dnt_column, *parent),
        _ => None,
    }
}

/// Whether the row at `i` stands under the object with the DNT `boot`.
fn stands_under_boot(
    data_rows: &[BTreeMap<i32, Value>],
    dnt_column: i32,
    parent_column: i32,
    i: usize,
    boot: i32,
) -> (r: bool)
    requires
        i < data_rows@.len(),
    ensures
        r == under_boot(
            row_views(data_rows@),
            dnt_column,
            parent_column,
            row_views(data_rows@)[i as int],
            boot,
            data_rows@.len(),
        ),
{
    let ghost rows = row_views(data_rows@);
    let mut at: usize = i;
    let mut fuel: usize = data_rows.len();
    loop
        invariant
            at < data_rows@.len(),
            fuel <= data_rows@.len(),
            rows == row_views(data_rows@),
            under_boot(rows, dnt_column, parent_column, rows[i as int], boot, data_rows@.len())
                == under_boot(rows, dnt_column, parent_column, rows[at as int], boot, fuel as nat),
        decreases fuel,
    {
        assert(rows[at as int] == row_view(data_rows@[at as int]@));
        if row_contains_long(&data_rows[at], parent_column, boot) {
            return true;
        }
        if fuel == 0 {
            return false;
        }
        match find_parent_row(data_rows, dnt_column, parent_column, at) {
            None => {
                return false;
            },
            Some(parent) => {
                at = parent;
                fuel -= 1;
            },
        }
    }
}

/// Finds the first schema root outside of `Boot`.
fn find_first_schema_root(data_rows: &[BTreeMap<i32, Value>], search: &RootSearch) -> (r: Option<
    usize,
>)
    ensures
        match r {
            Some(i) => i < data_rows@.len() && first_schema_root(
                row_views(data_rows@),
                *search,
                0,
            ) == Some(i as int),
            None => first_schema_root(row_views(data_rows@), *search, 0).is_none(),
        },
{
    let ghost rows = row_views(data_rows@);
    let mut i: usize = 0;
    while i < data_rows.len()
        invariant
            i <= data_rows@.len(),
            rows == row_views(data_rows@),
            first_schema_root(rows, *search, 0) == first_schema_root(rows, *search, i as int),
        decreases data_rows@.len() - i,
    {
        assert(rows[i as int] == row_view(data_rows@[i as int]@));
        if row_contains_long(&data_rows[i], search.class_column, SCHEMA_ROOT_OBJECT_CLASS) {
            let outside_boot = match search.boot {
                Some(dnt) => !stands_under_boot(
                    data_rows,
                    search.dnt_column,
                    search.parent_column,
                    i,
                    dnt,
                ),
                None => true,
            };
            if outside_boot {
                return Some(i);
            }
        }
        i += 1;
    }
    None
}

/// Finds the schema root among the rows of the data table and gives its
/// position.
pub fn find_schema_root(data_table: &Table, data_rows: &[BTreeMap<i32, Value>]) -> (r: Result<
    usize,
    SchemaError,
>)
    ensures
        match r {
            Ok(i) => i < data_rows@.len() && spec_find_schema_root(
                column_views(data_table.columns@),
                row_views(data_rows@),
            ) == Ok::<int, SchemaError>(i as int),
            Err(e) => spec_find_schema_root(
                column_views(data_table.columns@),
                row_views(data_rows@),
            ) == Err::<int, SchemaError>(e),
        },
{
    let columns = data_table.columns.as_slice();
    let dnt_column = find_required_column(columns, DNT_COLUMN_NAME)?;
    let parent_column = find_required_column(columns, PARENT_DNT_COLUMN_NAME)?;
    let class_column = find_required_column(columns, OBJECT_CLASS_COLUMN_NAME)?;
    let name_column = find_required_column(columns, TOP_OBJECT_NAME_COLUMN_NAME)?;
    let boot = find_boot_dnt(data_rows, dnt_column, parent_column, name_column)?;
    let search = RootSearch { dnt_column, parent_column, class_column, boot };
    match find_first_schema_root(data_rows, &search) {
        Some(i) => Ok(i),
        None => Err(SchemaError::SchemaRootNotFound),
    }
}

/// Where the schema root is found, it has the class of the schema root, it
/// does not stand under the object `Boot`, and no row before it is such a
/// row.
pub proof fn lemma_schema_root_outside_boot(
    columns: Seq<ColumnView>,
    rows: Seq<Map<i32, ValueView>>,
)
    requires
        spec_find_schema_root(columns, rows) is Ok,
    ensures
        ({
            let i = spec_find_schema_root(columns, rows)->Ok_0;
            let search = root_search(columns, rows)->Ok_0;
            &&& 0 <= i < rows.len()
            &&& row_contains(
                rows[i],
                search.class_column,
                DataView::Long(SCHEMA_ROOT_OBJECT_CLASS),
            )
            &&& search.boot matches Some(dnt) ==> !under_boot(
                rows,
                search.dnt_column,
                search.parent_column,
                rows[i],
                dnt,
                rows.len(),
            )
            &&& forall|j: int| 0 <= j < i ==> !is_schema_root(rows, search, #[trigger] rows[j])
        }),
{
    lemma_first_schema_root(rows, root_search(columns, rows)->Ok_0, 0);
}

/// The schema root is the one row with its class outside of `Boot`. Where
/// the columns are there, the DNT of `Boot` can be read, and the row at `i`
/// is the only one that has the class of the schema root and does not
/// stand under `Boot`, that row is found.
pub proof fn lemma_schema_root_unique(
    columns: Seq<ColumnView>,
    rows: Seq<Map<i32, ValueView>>,
    i: int,
)
    requires
        root_search(columns, rows) is Ok,
        0 <= i < rows.len(),
        is_schema_root(rows, root_search(columns, rows)->Ok_0, rows[i]),
        forall|j: int|
            0 <= j < rows.len() && j != i ==> !is_schema_root(
                rows,
                root_search(columns, rows)->Ok_0,
                #[trigger] rows[j],
            ),
    ensures
        spec_find_schema_root(columns, rows) == Ok::<int, SchemaError>(i),
{
    lemma_first_schema_root(rows, root_search(columns, rows)->Ok_0, 0);
}

/// A row stands under `Boot` where a chain of parents leads from it to a
/// child of `Boot`: `chain` holds the positions of the row, of its parent,
/// of that row's parent and so on, and is no longer than `fuel` allows.
pub proof fn lemma_under_boot_chain(
    rows: Seq<Map<i32, ValueView>>,
    dnt_column: i32,
    parent_column: i32,
    boot: i32,
    chain: Seq<int>,
    fuel: nat,
)
    requires
        0 < chain.len() <= fuel + 1,
        forall|k: int| 0 <= k < chain.len() ==> 0 <= #[trigger] chain[k] < rows.len(),
        forall|k: int|
            0 <= k < chain.len() - 1 ==> parent_row(
                rows,
                dnt_column,
                parent_column,
                rows[#[trigger] chain[k]],
            ) == Some(chain[k + 1]),
        row_contains(rows[chain.last()], parent_column, DataView::Long(boot)),
    ensures
        under_boot(rows, dnt_column, parent_column, rows[chain[0]], boot, fuel),
    decreases chain.len(),
{
    if chain.len() > 1 && !row_contains(rows[chain[0]], parent_column, DataView::Long(boot)) {
        let rest = chain.skip(1);
        assert(rest.last() == chain.last());
        assert forall|k: int| 0 <= k < rest.len() - 1 implies parent_row(
            rows,
            dnt_column,
            parent_column,
            rows[#[trigger] rest[k]],
        ) == Some(rest[k + 1]) by {
            assert(rest[k] == chain[k + 1]);
            assert(rest[k + 1] == chain[k + 2]);
        }
        lemma_under_boot_chain(rows, dnt_column, parent_column, boot, rest, (fuel - 1) as nat);
        assert(parent_row(rows, dnt_column, parent_column, rows[chain[0]]) == Some(chain[1]));
        assert(rest[0] == chain[1]);
    }
}

/// What is found from `from` on is a schema root outside of `Boot`, and the
/// first such row from there.
proof fn lemma_first_schema_root(rows: Seq<Map<i32, ValueView>>, search: RootSearch, from: int)
    requires
        0 <= from,
    ensures
        match first_schema_root(rows, search, from) {
            Some(i) => from <= i < rows.len() && is_schema_root(rows, search, rows[i])
                && forall|j: int|
                from <= j < i ==> !is_schema_root(rows, search, #[trigger] rows[j]),
            None => forall|j: int|
                from <= j < rows.len() ==> !is_schema_root(rows, search, #[trigger] rows[j]),
        },
    decreases rows.len() - from,
{
    if from < rows.len() && !is_schema_root(rows, search, rows[from]) {
        lemma_first_schema_root(rows, search, from + 1);
    }
}

/// Whether a row is a child of the object with the DNT `parent` and has
/// the class `class`.
pub open spec fn is_child_of_class(
    row: Map<i32, ValueView>,
    parent_column: i32,
    class_column: i32,
    parent: i32,
    class: i32,
) -> bool {
    row_contains(row, parent_column, DataView::Long(parent)) && row_contains(
        row,
        class_column,
        DataView::Long(class),
    )
}

/// The class that a row describes: its id is the first value of the
/// `governsID` column and its name the first value of the display name
/// column. A row without either describes none.
pub open spec fn class_of_row(row: Map<i32, ValueView>, id_column: i32, name_column: i32)
    -> Option<ObjectClassView> {
    match first_data(row, id_column) {
        Some(DataView::Long(id)) => match first_data(row, name_column) {
            Some(DataView::LongText(ldap_name)) => Some(ObjectClassView { id, ldap_name }),
            _ => None,
        },
        _ => None,
    }
}

/// The classes among the first `k` rows: those that the class children of
/// the schema root describe, by their id. Of two for one id the later
/// counts.
pub open spec fn classes_among(
    rows: Seq<Map<i32, ValueView>>,
    parent_column: i32,
    class_column: i32,
    id_column: i32,
    name_column: i32,
    root_dnt: i32,
    k: int,
) -> Map<i32, ObjectClassView>
    decreases k,
{
    if k <= 0 {
        Map::empty()
    } else {
        let before = classes_among(
            rows,
            parent_column,
            class_column,
            id_column,
            name_column,
            root_dnt,
            k - 1,
        );
        if !is_child_of_class(
            rows[k - 1],
            parent_column,
            class_column,
            root_dnt,
            SCHEMA_CLASS_OBJECT_CLASS,
        ) {
            before
        } else {
            match class_of_row(rows[k - 1], id_column, name_column) {
                Some(class) => before.insert(class.id, class),
                None => before,
            }
        }
    }
}

/// The classes of the schema, by their id.
pub open spec fn spec_collect_schema_classes(
    columns: Seq<ColumnView>,
    rows: Seq<Map<i32, ValueView>>,
    schema_root: Map<i32, ValueView>,
) -> Result<Map<i32, ObjectClassView>, SchemaError> {
    match required_column(columns, DNT_COLUMN_NAME) {
        Err(e) => Err(e),
        Ok(dnt_column) => match required_column(columns, PARENT_DNT_COLUMN_NAME) {
            Err(e) => Err(e),
            Ok(parent_column) => match required_column(columns, OBJECT_CLASS_COLUMN_NAME) {
                Err(e) => Err(e),
                Ok(class_column) => match required_column(
                    columns,
                    SCHEMA_CLASS_OBJECT_CLASS_COLUMN_NAME,
                ) {
                    Err(e) => Err(e),
                    Ok(id_column) => match required_column(
                        columns,
                        SCHEMA_OBJECT_LDAP_NAME_COLUMN_NAME,
                    ) {
                        Err(e) => Err(e),
                        Ok(name_column) => match row_dnt(schema_root, dnt_column) {
                            Err(e) => Err(e),
                            Ok(root_dnt) => Ok(
                                classes_among(
                                    rows,
                                    parent_column,
                                    class_column,
                                    id_column,
                                    name_column,
                                    root_dnt,
                                    rows.len() as int,
                                ),
                            ),
                        },
                    },
                },
            },
        },
    }
}

/// What a map of classes holds.
pub open spec fn class_views(classes: Map<i32, ObjectClass>) -> Map<i32, ObjectClassView> {
    classes.map_values(|c: ObjectClass| c@)
}

/// Reads the class that a row describes.
fn read_class(row: &BTreeMap<i32, Value>, id_column: i32, name_column: i32) -> (r: Option<
    ObjectClass,
>)
    ensures
        match r {
            Some(class) => class_of_row(row_view(row@), id_column, name_column) == Some(class@),
            None => class_of_row(row_view(row@), id_column, name_column).is_none(),
        },
{
    let id = match get_first_value(row, id_column) {
        Some(Data::Long(id)) => *id,
        _ => { return None; },
    };
    match get_first_value(row, name_column) {
        Some(Data::LongText(name)) => Some(ObjectClass { id, ldap_name: name.clone() }),
        _ => None,
    }
}

/// Collects the classes of the schema from the rows of the data table:
/// the children of the schema root that have the class of a class.
pub fn collect_schema_classes(
    data_table: &Table,
    data_rows: &[BTreeMap<i32, Value>],
    schema_root: &BTreeMap<i32, Value>,
) -> (r: Result<BTreeMap<i32, ObjectClass>, SchemaError>)
    ensures
        match r {
            Ok(classes) => spec_collect_schema_classes(
                column_views(data_table.columns@),
                row_views(data_rows@),
                row_view(schema_root@),
            ) == Ok::<Map<i32, ObjectClassView>, SchemaError>(class_views(classes@)),
            Err(e) => spec_collect_schema_classes(
                column_views(data_table.columns@),
                row_views(data_rows@),
                row_view(schema_root@),
            ) == Err::<Map<i32, ObjectClassView>, SchemaError>(e),
        },
{
    let columns = data_table.columns.as_slice();
    let dnt_column = find_required_column(columns, DNT_COLUMN_NAME)?;
    let parent_column = find_required_column(columns, PARENT_DNT_COLUMN_NAME)?;
    let class_column = find_required_column(columns, OBJECT_CLASS_COLUMN_NAME)?;
    let id_column = find_required_column(columns, SCHEMA_CLASS_OBJECT_CLASS_COLUMN_NAME)?;
    let name_column = find_required_column(columns, SCHEMA_OBJECT_LDAP_NAME_COLUMN_NAME)?;
    let root_dnt = extract_dnt(schema_root, dnt_column)?;
    Ok(gather_classes(data_rows, parent_column, class_column, id_column, name_column, root_dnt))
}

fn gather_classes(
    data_rows: &[BTreeMap<i32, Value>],
    parent_column: i32,
    class_column: i32,
    id_column: i32,
    name_column: i32,
    root_dnt: i32,
) -> (classes: BTreeMap<i32, ObjectClass>)
    ensures
        class_views(classes@) == classes_among(
            row_views(data_rows@),
            parent_column,
            class_column,
            id_column,
            name_column,
            root_dnt,
            data_rows@.len() as int,
        ),
{
    let ghost rows = row_views(data_rows@);
    let mut classes: BTreeMap<i32, ObjectClass> = BTreeMap::new();
    let mut k: usize = 0;
    assert(class_views(classes@) =~= Map::<i32, ObjectClassView>::empty());
    while k < data_rows.len()
        invariant
            k <= data_rows@.len(),
            rows == row_views(data_rows@),
            class_views(classes@) == classes_among(
                rows,
                parent_column,
                class_column,
                id_column,
                name_column,
                root_dnt,
                k as int,
            ),
        decreases data_rows@.len() - k,
    {
        assert(rows[k as int] == row_view(data_rows@[k as int]@));
        if row_contains_long(&data_rows[k], parent_column, root_dnt) && row_contains_long(
            &data_rows[k],
            class_column,
            SCHEMA_CLASS_OBJECT_CLASS,
        ) {
            match read_class(&data_rows[k], id_column, name_column) {
                Some(class) => {
                    let ghost before = classes@;
                    let ghost view = class@;
                    classes.insert(class.id, class);
                    assert(class_views(classes@) =~= class_views(before).insert(view.id, view));
                },
                None => {},
            }
        }
        k += 1;
    }
    classes
}

/// The attribute that a row describes: its id, its syntax and its name
/// are the first values of their columns. A row without one of them
/// describes none.
pub open spec fn attribute_of_row(
    row: Map<i32, ValueView>,
    id_column: i32,
    syntax_column: i32,
    name_column: i32,
) -> Option<AttributeView> {
    match first_data(row, id_column) {
        Some(DataView::Long(id)) => match first_data(row, syntax_column) {
            Some(DataView::Long(syntax)) => match first_data(row, name_column) {
                Some(DataView::LongText(ldap_name)) => Some(
                    AttributeView { id, syntax, ldap_name },
                ),
                _ => None,
            },
            _ => None,
        },
        _ => None,
    }
}

/// The first position from `from` on at which an attribute with this
/// syntax and id stands, or the number of attributes.
pub open spec fn attribute_position(
    attributes: Seq<AttributeView>,
    syntax: i32,
    id: i32,
    from: int,
) -> int
    decreases attributes.len() - from,
{
    if from < 0 || from >= attributes.len() || (attributes[from].syntax == syntax
        && attributes[from].id == id) {
        from
    } else {
        attribute_position(attributes, syntax, id, from + 1)
    }
}

/// The attributes with one more: it takes the place of the attribute with
/// the same syntax and id, which is the one with the same column name, or
/// else comes last.
pub open spec fn with_attribute(attributes: Seq<AttributeView>, attribute: AttributeView) -> Seq<
    AttributeView,
> {
    let p = attribute_position(attributes, attribute.syntax, attribute.id, 0);
    if p < attributes.len() {
        attributes.update(p, attribute)
    } else {
        attributes.push(attribute)
    }
}

/// The attributes among the first `k` rows: those that the attribute
/// children of the schema root describe. An attribute whose syntax stands
/// for no letter is a failure.
pub open spec fn attributes_among(
    rows: Seq<Map<i32, ValueView>>,
    parent_column: i32,
    class_column: i32,
    id_column: i32,
    syntax_column: i32,
    name_column: i32,
    root_dnt: i32,
    k: int,
) -> Result<Seq<AttributeView>, SchemaError>
    decreases k,
{
    if k <= 0 {
        Ok(Seq::empty())
    } else {
        match attributes_among(
            rows,
            parent_column,
            class_column,
            id_column,
            syntax_column,
            name_column,
            root_dnt,
            k - 1,
        ) {
            Err(e) => Err(e),
            Ok(before) => if !is_child_of_class(
                rows[k - 1],
                parent_column,
                class_column,
                root_dnt,
                SCHEMA_ATTRIBUTE_OBJECT_CLASS,
            ) {
                Ok(before)
            } else {
                match attribute_of_row(rows[k - 1], id_column, syntax_column, name_column) {
                    None => Ok(before),
                    Some(attribute) => if !syntax_has_letter(attribute.syntax) {
                        Err(
                            SchemaError::MalformedAttribute {
                                id: attribute.id,
                                syntax: attribute.syntax,
                            },
                        )
                    } else {
                        Ok(with_attribute(before, attribute))
                    },
                }
            },
        }
    }
}

/// A failure among the first `k` rows is the failure of every longer run of
/// them.
proof fn lemma_attributes_fail(
    rows: Seq<Map<i32, ValueView>>,
    parent_column: i32,
    class_column: i32,
    id_column: i32,
    syntax_column: i32,
    name_column: i32,
    root_dnt: i32,
    k: int,
    m: int,
)
    requires
        0 <= k <= m,
        attributes_among(
            rows,
            parent_column,
            class_column,
            id_column,
            syntax_column,
            name_column,
            root_dnt,
            k,
        ) is Err,
    ensures
        attributes_among(
            rows,
            parent_column,
            class_column,
            id_column,
            syntax_column,
            name_column,
            root_dnt,
            m,
        ) == attributes_among(
            rows,
            parent_column,
            class_column,
            id_column,
            syntax_column,
            name_column,
            root_dnt,
            k,
        ),
    decreases m - k,
{
    if k < m {
        lemma_attributes_fail(
            rows,
            parent_column,
            class_column,
            id_column,
            syntax_column,
            name_column,
            root_dnt,
            k,
            m - 1,
        );
    }
}

/// The attributes of the schema, each of which has a column name.
pub open spec fn spec_collect_schema_attributes(
    columns: Seq<ColumnView>,
    rows: Seq<Map<i32, ValueView>>,
    schema_root: Map<i32, ValueView>,
) -> Result<Seq<AttributeView>, SchemaError> {
    match required_column(columns, DNT_COLUMN_NAME) {
        Err(e) => Err(e),
        Ok(dnt_column) => match required_column(columns, PARENT_DNT_COLUMN_NAME) {
            Err(e) => Err(e),
            Ok(parent_column) => match required_column(columns, OBJECT_CLASS_COLUMN_NAME) {
                Err(e) => Err(e),
                Ok(class_column) => match required_column(
                    columns,
                    SCHEMA_ATTRIBUTE_ID_COLUMN_NAME,
                ) {
                    Err(e) => Err(e),
                    Ok(id_column) => match required_column(
                        columns,
                        SCHEMA_ATTRIBUTE_SYNTAX_COLUMN_NAME,
                    ) {
                        Err(e) => Err(e),
                        Ok(syntax_column) => match required_column(
                            columns,
                            SCHEMA_OBJECT_LDAP_NAME_COLUMN_NAME,
                        ) {
                            Err(e) => Err(e),
                            Ok(name_column) => match row_dnt(schema_root, dnt_column) {
                                Err(e) => Err(e),
                                Ok(root_dnt) => attributes_among(
                                    rows,
                                    parent_column,
                                    class_column,
                                    id_column,
                                    syntax_column,
                                    name_column,
                                    root_dnt,
                                    rows.len() as int,
                                ),
                            },
                        },
                    },
                },
            },
        },
    }
}

/// What a sequence of attributes holds.
pub open spec fn attribute_views(attributes: Seq<Attribute>) -> Seq<AttributeView> {
    attributes.map_values(|a: Attribute| a@)
}

/// Reads the attribute that a row describes.
fn read_attribute(
    row: &BTreeMap<i32, Value>,
    id_column: i32,
    syntax_column: i32,
    name_column: i32,
) -> (r: Option<Attribute>)
    ensures
        match r {
            Some(attribute) => attribute_of_row(
                row_view(row@),
                id_column,
                syntax_column,
                name_column,
            ) == Some(attribute@),
            None => attribute_of_row(
                row_view(row@),
                id_column,
                syntax_column,
                name_column,
            ).is_none(),
        },
{
    let id = match get_first_value(row, id_column) {
        Some(Data::Long(id)) => *id,
        _ => { return None; },
    };
    let syntax = match get_first_value(row, syntax_column) {
        Some(Data::Long(syntax)) => *syntax,
        _ => { return None; },
    };
    match get_first_value(row, name_column) {
        Some(Data::LongText(name)) => Some(Attribute { id, syntax, ldap_name: name.clone() }),
        _ => None,
    }
}

/// Puts the attribute in its place among `attributes`.
fn put_attribute(attributes: &mut Vec<Attribute>, attribute: Attribute)
    ensures
        attribute_views(final(attributes)@) == with_attribute(
            attribute_views(old(attributes)@),
            attribute@,
        ),
{
    let ghost views = attribute_views(attributes@);
    let mut p: usize = 0;
    while p < attributes.len() && !(attributes[p].syntax == attribute.syntax && attributes[p].id
        == attribute.id)
        invariant
            p <= attributes@.len(),
            views == attribute_views(attributes@),
            attribute_position(views, attribute.syntax, attribute.id, 0) == attribute_position(
                views,
                attribute.syntax,
                attribute.id,
                p as int,
            ),
        decreases attributes@.len() - p,
    {
        p += 1;
    }
    if p < attributes.len() {
        attributes.set(p, attribute);
        assert(attribute_views(attributes@) =~= views.update(p as int, attribute@));
    } else {
        attributes.push(attribute);
        assert(attribute_views(attributes@) =~= views.push(attribute@));
    }
}

fn gather_attributes(
    data_rows: &[BTreeMap<i32, Value>],
    parent_column: i32,
    class_column: i32,
    id_column: i32,
    syntax_column: i32,
    name_column: i32,
    root_dnt: i32,
) -> (r: Result<Vec<Attribute>, SchemaError>)
    ensures
        match r {
            Ok(attributes) => attributes_among(
                row_views(data_rows@),
                parent_column,
                class_column,
                id_column,
                syntax_column,
                name_column,
                root_dnt,
                data_rows@.len() as int,
            ) == Ok::<Seq<AttributeView>, SchemaError>(attribute_views(attributes@)),
            Err(e) => attributes_among(
                row_views(data_rows@),
                parent_column,
                class_column,
                id_column,
                syntax_column,
                name_column,
                root_dnt,
                data_rows@.len() as int,
            ) == Err::<Seq<AttributeView>, SchemaError>(e),
        },
{
    let ghost rows = row_views(data_rows@);
    let mut attributes: Vec<Attribute> = Vec::new();
    let mut k: usize = 0;
    assert(attribute_views(attributes@) =~= Seq::<AttributeView>::empty());
    while k < data_rows.len()
        invariant
            k <= data_rows@.len(),
            rows == row_views(data_rows@),
            attributes_among(
                rows,
                parent_column,
                class_column,
                id_column,
                syntax_column,
                name_column,
                root_dnt,
                k as int,
            ) == Ok::<Seq<AttributeView>, SchemaError>(attribute_views(attributes@)),
        decreases data_rows@.len() - k,
    {
        assert(rows[k as int] == row_view(data_rows@[k as int]@));
        if row_contains_long(&data_rows[k], parent_column, root_dnt) && row_contains_long(
            &data_rows[k],
            class_column,
            SCHEMA_ATTRIBUTE_OBJECT_CLASS,
        ) {
            match read_attribute(&data_rows[k], id_column, syntax_column, name_column) {
                Some(attribute) => {
                    if attribute.syntax < FIRST_SYNTAX || attribute.syntax > FIRST_SYNTAX + 25 {
                        proof {
                            assert(attributes_among(
                                rows,
                                parent_column,
                                class_column,
                                id_column,
                                syntax_column,
                                name_column,
                                root_dnt,
                                k + 1,
                            ) is Err);
                            lemma_attributes_fail(
                                rows,
                                parent_column,
                                class_column,
                                id_column,
                                syntax_column,
                                name_column,
                                root_dnt,
                                k + 1,
                                rows.len() as int,
                            );
                        }
                        return Err(
                            SchemaError::MalformedAttribute {
                                id: attribute.id,
                                syntax: attribute.syntax,
                            },
                        );
                    }
                    put_attribute(&mut attributes, attribute);
                },
                None => {},
            }
        }
        k += 1;
    }
    Ok(attributes)
}

/// Collects the attributes of the schema from the rows of the data table:
/// the children of the schema root that have the class of an attribute.
/// No two attributes of the result have the same column name.
pub fn collect_schema_attributes(
    data_table: &Table,
    data_rows: &[BTreeMap<i32, Value>],
    schema_root: &BTreeMap<i32, Value>,
) -> (r: Result<Vec<Attribute>, SchemaError>)
    ensures
        match r {
            Ok(attributes) => spec_collect_schema_attributes(
                column_views(data_table.columns@),
                row_views(data_rows@),
                row_view(schema_root@),
            ) == Ok::<Seq<AttributeView>, SchemaError>(attribute_views(attributes@)),
            Err(e) => spec_collect_schema_attributes(
                column_views(data_table.columns@),
                row_views(data_rows@),
                row_view(schema_root@),
            ) == Err::<Seq<AttributeView>, SchemaError>(e),
        },
{
    let columns = data_table.columns.as_slice();
    let dnt_column = find_required_column(columns, DNT_COLUMN_NAME)?;
    let parent_column = find_required_column(columns, PARENT_DNT_COLUMN_NAME)?;
    let class_column = find_required_column(columns, OBJECT_CLASS_COLUMN_NAME)?;
    let id_column = find_required_column(columns, SCHEMA_ATTRIBUTE_ID_COLUMN_NAME)?;
    let syntax_column = find_required_column(columns, SCHEMA_ATTRIBUTE_SYNTAX_COLUMN_NAME)?;
    let name_column = find_required_column(columns, SCHEMA_OBJECT_LDAP_NAME_COLUMN_NAME)?;
    let root_dnt = extract_dnt(schema_root, dnt_column)?;
    gather_attributes(
        data_rows,
        parent_column,
        class_column,
        id_column,
        syntax_column,
        name_column,
        root_dnt,
    )
}

} // verus!
