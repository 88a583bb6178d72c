//! The row decoder: from the payload of a leaf entry and the columns of a
//! table to the values of the row.
//!
//! A row opens with four bytes: the id of its last fixed column, the id of
//! its last variable column, and the offset at which its fixed region
//! ends. The fixed values follow, then the bytes that mark fixed columns as
//! null, then one end offset for each variable column, then the variable
//! values, then the tagged region.

use std::collections::BTreeMap;
use vstd::prelude::*;
use vstd::slice::slice_subrange;

use crate::byte_io::{
    copy_all, copy_range, i16_from_bits, i32_from_bits, i64_from_bits, le_u16_at, le_u32_at,
    le_u64_at, read_array, signed16, signed32, signed64, u16_at, u32_at, u64_at,
};
use crate::data::{Bit, Data, DataType, DataView};
use crate::error::{IoErrorKind, ReadError};
use crate::header::Header;
use crate::page::{
    payloads, read_data_from_tree, walk_page, WalkState, MAX_SIZE_SMALL_PAGE, MAX_TREE_DEPTH,
};
use crate::table::{
    column_views, column_with_id, data_views, find_column, row_view, Column, ColumnView,
    SmallTagFlags, TagFlags, Value, ValueView, SMALL_TAG_DERIVED, SMALL_TAG_HAS_EXTENDED_FLAGS,
    TAG_DERIVED, TAG_MULTI_VALUES, TAG_SEPARATED, TAG_TWO_VALUES,
};
use crate::text::{decode_string, spec_decode_string};

verus! {

/// The sixteen bytes of an identifier in canonical order, given the sixteen
/// bytes that store it: its first three fields are stored little-endian and
/// are turned round, the last eight bytes stay.
pub open spec fn guid_field_order(b: Seq<u8>) -> Seq<u8> {
    seq![
        b[3],
        b[2],
        b[1],
        b[0],
        b[5],
        b[4],
        b[7],
        b[6],
        b[8],
        b[9],
        b[10],
        b[11],
        b[12],
        b[13],
        b[14],
        b[15],
    ]
}

/// Calls `uuid::Uuid::from_bytes_le` and takes the identifier's bytes with
/// `uuid::Uuid::into_bytes`. The first reverses the bytes of the first three
/// fields, of four, two and two bytes, and keeps the last eight bytes; the
/// second hands out the bytes as they then stand.
#[verifier::external_body]
fn guid_from_le_bytes(bytes: [u8; 16]) -> (r: [u8; 16])
    ensures
        r@ == guid_field_order(bytes@),
{
    uuid::Uuid::from_bytes_le(bytes).into_bytes()
}

/// The number of variable columns that a row holds values or gaps for.
pub open spec fn variable_count(row: Seq<u8>) -> int {
    if row[1] >= 128 {
        row[1] - 127
    } else {
        0
    }
}

/// The number of bytes that mark fixed columns as null: one bit for each
/// fixed column that the row holds.
pub open spec fn nullity_len(row: Seq<u8>) -> int {
    (row[0] + 7) / 8
}

/// The offset at which the fixed region ends.
pub open spec fn end_of_fixed(row: Seq<u8>) -> int {
    le_u16_at(row, 2) as int
}

/// The offset at which the null marks start.
pub open spec fn nullity_start(row: Seq<u8>) -> int {
    end_of_fixed(row) - nullity_len(row)
}

/// Why a row cannot be cut into its regions, if it cannot.
pub open spec fn row_layout_error(row: Seq<u8>) -> Option<ReadError> {
    if row.len() < 4 {
        Some(ReadError::Io(IoErrorKind::UnexpectedEof))
    } else if nullity_start(row) < 4 {
        Some(ReadError::Io(IoErrorKind::InvalidData))
    } else if end_of_fixed(row) > row.len() {
        Some(ReadError::Io(IoErrorKind::UnexpectedEof))
    } else {
        None
    }
}

/// The columns among `columns[..n]` whose id is `id`, in their order.
pub open spec fn columns_with_id(columns: Seq<ColumnView>, id: int, n: int) -> Seq<ColumnView>
    decreases n,
{
    if n <= 0 {
        Seq::empty()
    } else if columns[n - 1].column_id == id {
        columns_with_id(columns, id, n - 1).push(columns[n - 1])
    } else {
        columns_with_id(columns, id, n - 1)
    }
}

/// The columns with an id from 1 to `id`, by ascending id; columns of equal
/// id keep their order.
pub open spec fn fixed_columns_upto(columns: Seq<ColumnView>, id: int) -> Seq<ColumnView>
    decreases id,
{
    if id <= 0 {
        Seq::empty()
    } else {
        fixed_columns_upto(columns, id - 1) + columns_with_id(
            columns,
            id,
            columns.len() as int,
        )
    }
}

/// Whether the null marks `nullity` mark the fixed column `id` as null: bit
/// `(id - 1) % 8` of byte `(id - 1) / 8`, where the marks reach that far.
pub open spec fn is_null(nullity: Seq<u8>, id: i32) -> bool {
    let index = id - 1;
    1 <= id < 128 && index / 8 < nullity.len() && nullity[index / 8] & (1u8 << ((index % 8) as u8))
        != 0
}

/// The value of the fixed column `column` that starts at `fixed[off]`, and
/// the number of bytes it takes.
///
/// The types of fixed width take their width, `Binary` and `Text` the
/// length that the column declares. No other type can stand in the fixed
/// region.
#[verifier::opaque]
pub open spec fn fixed_value(fixed: Seq<u8>, off: int, column: ColumnView) -> Result<
    (DataView, int),
    ReadError,
> {
    let data_type = column.column_type;
    let width: int = match data_type.spec_fixed_size() {
        Some(n) => n as int,
        None => column.length as int,
    };
    let bytes = fixed.subrange(off, off + width);
    match data_type {
        DataType::Nil
        | DataType::LongBinary
        | DataType::LongText
        | DataType::SuperLongValue
        | DataType::Other(_) => Err(
            ReadError::UnexpectedFixedColumnDataType {
                table_id: column.table_object_id,
                column_id: column.column_id,
                data_type,
            },
        ),
        _ => if width < 0 {
            Err(ReadError::Io(IoErrorKind::InvalidData))
        } else if off + width > fixed.len() {
            Err(ReadError::Io(IoErrorKind::UnexpectedEof))
        } else {
            match data_type {
                DataType::Bit => Ok((DataView::Bit(Bit(fixed[off])), width)),
                DataType::UnsignedByte => Ok((DataView::UnsignedByte(fixed[off]), width)),
                DataType::Short => Ok(
                    (DataView::Short(signed16(le_u16_at(fixed, off))), width),
                ),
                DataType::Long => Ok((DataView::Long(signed32(le_u32_at(fixed, off))), width)),
                DataType::Currency => Ok(
                    (DataView::Currency(signed64(le_u64_at(fixed, off))), width),
                ),
                DataType::IeeeSingle => Ok((DataView::IeeeSingle(le_u32_at(fixed, off)), width)),
                DataType::IeeeDouble => Ok((DataView::IeeeDouble(le_u64_at(fixed, off)), width)),
                DataType::DateTime => Ok(
                    (DataView::DateTime(signed64(le_u64_at(fixed, off))), width),
                ),
                DataType::Binary => Ok((DataView::Binary(bytes), width)),
                DataType::Text => match spec_decode_string(bytes, column.codepage) {
                    Err(e) => Err(e),
                    Ok(text) => Ok((DataView::Text(text), width)),
                },
                DataType::UnsignedLong => Ok(
                    (DataView::UnsignedLong(le_u32_at(fixed, off)), width),
                ),
                DataType::LongLong => Ok(
                    (DataView::LongLong(signed64(le_u64_at(fixed, off))), width),
                ),
                DataType::Guid => Ok((DataView::Guid(guid_field_order(bytes)), width)),
                _ => Ok((DataView::UnsignedShort(le_u16_at(fixed, off)), width)),
            }
        },
    }
}

/// The row after the first `k` of the fixed columns `ordered`, and the
/// offset in the fixed region that their values reach. The values stand one
/// behind the other; a column that is marked null has the value `Nil`,
/// whatever its bytes hold.
pub open spec fn fixed_phase(
    fixed: Seq<u8>,
    nullity: Seq<u8>,
    ordered: Seq<ColumnView>,
    k: int,
    row: Map<i32, ValueView>,
) -> Result<(Map<i32, ValueView>, int), ReadError>
    decreases k,
{
    if k <= 0 {
        Ok((row, 0))
    } else {
        match fixed_phase(fixed, nullity, ordered, k - 1, row) {
            Err(e) => Err(e),
            Ok((before, off)) => match fixed_value(fixed, off, ordered[k - 1]) {
                Err(e) => Err(e),
                Ok((data, width)) => Ok(
                    (
                        before.insert(
                            ordered[k - 1].column_id,
                            ValueView::Simple(
                                if is_null(nullity, ordered[k - 1].column_id) {
                                    DataView::Nil
                                } else {
                                    data
                                },
                            ),
                        ),
                        off + width,
                    ),
                ),
            },
        }
    }
}

/// Reads the value of a fixed column at `fixed[off]`.
fn decode_fixed_value(fixed: &[u8], off: usize, column: &Column) -> (r: Result<
    (Data, usize),
    ReadError,
>)
    requires
        off <= fixed@.len(),
    ensures
        match r {
            Ok((data, width)) => fixed_value(fixed@, off as int, column@) == Ok::<
                (DataView, int),
                ReadError,
            >((data@, width as int)) && off + width <= fixed@.len(),
            Err(e) => fixed_value(fixed@, off as int, column@) == Err::<
                (DataView, int),
                ReadError,
            >(e),
        },
{
    reveal(fixed_value);
    let data_type = column.column_type;
    match data_type {
        DataType::Nil
        | DataType::LongBinary
        | DataType::LongText
        | DataType::SuperLongValue
        | DataType::Other(_) => {
            return Err(
                ReadError::UnexpectedFixedColumnDataType {
                    table_id: column.table_object_id,
                    column_id: column.column_id,
                    data_type,
                },
            );
        },
        _ => {},
    }
    let width: usize = match data_type.fixed_size() {
        Some(n) => n,
        None => {
            if column.length < 0 {
                return Err(ReadError::Io(IoErrorKind::InvalidData));
            }
            column.length as usize
        },
    };
    if width > fixed.len() - off {
        return Err(ReadError::Io(IoErrorKind::UnexpectedEof));
    }
    let data = match data_type {
        DataType::Bit => Data::Bit(Bit(fixed[off])),
        DataType::UnsignedByte => Data::UnsignedByte(fixed[off]),
        DataType::Short => Data::Short(i16_from_bits(u16_at(fixed, off))),
        DataType::Long => Data::Long(i32_from_bits(u32_at(fixed, off))),
        DataType::Currency => Data::Currency(i64_from_bits(u64_at(fixed, off))),
        DataType::IeeeSingle => Data::IeeeSingle(u32_at(fixed, off)),
        DataType::IeeeDouble => Data::IeeeDouble(u64_at(fixed, off)),
        DataType::DateTime => Data::DateTime(i64_from_bits(u64_at(fixed, off))),
        DataType::Binary => Data::Binary(copy_range(fixed, off, off + width)),
        DataType::Text => {
            let text = decode_string(slice_subrange(fixed, off, off + width), column.codepage)?;
            Data::Text(text)
        },
        DataType::UnsignedLong => Data::UnsignedLong(u32_at(fixed, off)),
        DataType::LongLong => Data::LongLong(i64_from_bits(u64_at(fixed, off))),
        DataType::Guid => Data::Guid(guid_from_le_bytes(read_array::<16>(fixed, off))),
        _ => Data::UnsignedShort(u16_at(fixed, off)),
    };
    Ok((data, width))
}

/// Whether the null marks mark the fixed column `id` as null.
fn read_is_null(nullity: &[u8], id: i32) -> (r: bool)
    ensures
        r == is_null(nullity@, id),
{
    if id < 1 || id >= 128 {
        return false;
    }
    let index: usize = (id - 1) as usize;
    let byte_index: usize = index / 8;
    let bit_index: u8 = (index % 8) as u8;
    byte_index < nullity.len() && nullity[byte_index] & (1u8 << bit_index) != 0
}

/// The columns that stand at the positions `order` of a schema.
pub open spec fn columns_at(columns: Seq<ColumnView>, order: Seq<usize>) -> Seq<ColumnView> {
    Seq::new(order.len(), |k: int| columns[order[k] as int])
}

/// Every position in `order` is one of a schema of `n` columns.
pub open spec fn positions_below(order: Seq<usize>, n: int) -> bool {
    forall|k: int| 0 <= k < order.len() ==> #[trigger] order[k] < n
}

/// Lists the positions of the columns with an id from 1 to `last`, in the
/// order in which a row stores their values.
fn fixed_column_order(columns: &[Column], last: i32) -> (order: Vec<usize>)
    requires
        0 <= last <= 127,
    ensures
        positions_below(order@, columns@.len() as int),
        columns_at(column_views(columns@), order@) == fixed_columns_upto(
            column_views(columns@),
            last as int,
        ),
{
    let mut order: Vec<usize> = Vec::new();
    let mut id: i32 = 1;
    assert(columns_at(column_views(columns@), order@) =~= fixed_columns_upto(
        column_views(columns@),
        0,
    ));
    while id <= last
        invariant
            1 <= id <= last + 1 <= 128,
            positions_below(order@, columns@.len() as int),
            columns_at(column_views(columns@), order@) == fixed_columns_upto(
                column_views(columns@),
                id - 1,
            ),
        decreases last + 1 - id,
    {
        let ghost before = fixed_columns_upto(column_views(columns@), id - 1);
        let mut j: usize = 0;
        assert(columns_at(column_views(columns@), order@) =~= before + columns_with_id(
            column_views(columns@),
            id as int,
            0,
        ));
        while j < columns.len()
            invariant
                1 <= id <= last <= 127,
                j <= columns@.len(),
                positions_below(order@, columns@.len() as int),
                columns_at(column_views(columns@), order@) == before + columns_with_id(
                    column_views(columns@),
                    id as int,
                    j as int,
                ),
            decreases columns@.len() - j,
        {
            if columns[j].column_id == id {
                let ghost earlier = order@;
                order.push(j);
                assert(columns_at(column_views(columns@), order@) =~= columns_at(
                    column_views(columns@),
                    earlier,
                ).push(columns@[j as int]@));
                assert(columns_at(column_views(columns@), order@) =~= before + columns_with_id(
                    column_views(columns@),
                    id as int,
                    j + 1,
                ));
            }
            j += 1;
        }
        id += 1;
    }
    order
}

/// Decodes the fixed columns with an id up to `last_fixed` into `row`.
fn decode_fixed_columns(
    fixed: &[u8],
    nullity: &[u8],
    columns: &[Column],
    last_fixed: usize,
    row: &mut BTreeMap<i32, Value>,
) -> (r: Result<(), ReadError>)
    ensures
        match r {
            Ok(()) => fixed_rows(
                fixed@,
                nullity@,
                column_views(columns@),
                last_fixed as int,
                row_view(old(row)@),
            ) == Ok::<Map<i32, ValueView>, ReadError>(row_view(final(row)@)),
            Err(e) => fixed_rows(
                fixed@,
                nullity@,
                column_views(columns@),
                last_fixed as int,
                row_view(old(row)@),
            ) == Err::<Map<i32, ValueView>, ReadError>(e),
        },
{
    let last: i32 = if last_fixed > 127 {
        127
    } else {
        last_fixed as i32
    };
    let order = fixed_column_order(columns, last);
    let count: usize = order.len();
    let limit: usize = fixed.len();
    let ghost held = held_fixed_columns(column_views(columns@), last_fixed as int);
    let ghost start = row_view(old(row)@);
    let mut off: usize = 0;
    let mut k: usize = 0;
    while k < count
        invariant
            k <= count == order@.len() == held.len(),
            off <= fixed@.len() == limit,
            start == row_view(old(row)@),
            held == held_fixed_columns(column_views(columns@), last_fixed as int),
            positions_below(order@, columns@.len() as int),
            columns_at(column_views(columns@), order@) == held,
            fixed_phase(fixed@, nullity@, held, k as int, start) == Ok::<
                (Map<i32, ValueView>, int),
                ReadError,
            >((row_view(row@), off as int)),
        decreases count - k,
    {
        let column = &columns[order[k]];
        assert(column@ == columns_at(column_views(columns@), order@)[k as int]);
        let (data, width) = match decode_fixed_value(fixed, off, column) {
            Ok(found) => found,
            Err(e) => {
                proof {
                    assert(fixed_phase(fixed@, nullity@, held, k + 1, start) is Err);
                    lemma_fixed_phase_fails(
                        fixed@,
                        nullity@,
                        held,
                        (k + 1) as int,
                        count as int,
                        start,
                    );
                }
                return Err(e);
            },
        };
        let value = if read_is_null(nullity, column.column_id) {
            Value::Simple(Data::Nil)
        } else {
            Value::Simple(data)
        };
        let ghost before = row@;
        row.insert(column.column_id, value);
        assert(row_view(row@) =~= row_view(before).insert(column.column_id, value@));
        off += width;
        k += 1;
    }
    Ok(())
}

/// The highest id of a fixed column that a row can hold values up to: the
/// row's first byte, and 127 where that is more.
pub open spec fn last_fixed_id(last_fixed: int) -> int {
    if last_fixed > 127 {
        127
    } else {
        last_fixed
    }
}

/// The fixed columns that a row holds values for: those of the schema with
/// an id up to the row's first byte, which is the highest id of a fixed
/// column in the row.
pub open spec fn held_fixed_columns(columns: Seq<ColumnView>, last_fixed: int) -> Seq<ColumnView> {
    fixed_columns_upto(columns, last_fixed_id(last_fixed))
}

/// The row after the fixed region: the values of the fixed columns of the
/// schema with an id up to `last_fixed`.
pub open spec fn fixed_rows(
    fixed: Seq<u8>,
    nullity: Seq<u8>,
    columns: Seq<ColumnView>,
    last_fixed: int,
    row: Map<i32, ValueView>,
) -> Result<Map<i32, ValueView>, ReadError> {
    let held = held_fixed_columns(columns, last_fixed);
    match fixed_phase(fixed, nullity, held, held.len() as int, row) {
        Err(e) => Err(e),
        Ok((after, _)) => Ok(after),
    }
}

/// A failure among the first `k` fixed columns is the failure of every
/// longer run of them.
proof fn lemma_fixed_phase_fails(
    fixed: Seq<u8>,
    nullity: Seq<u8>,
    ordered: Seq<ColumnView>,
    k: int,
    m: int,
    row: Map<i32, ValueView>,
)
    requires
        0 <= k <= m,
        fixed_phase(fixed, nullity, ordered, k, row) is Err,
    ensures
        fixed_phase(fixed, nullity, ordered, m, row) == fixed_phase(
            fixed,
            nullity,
            ordered,
            k,
            row,
        ),
    decreases m - k,
{
    if k < m {
        lemma_fixed_phase_fails(fixed, nullity, ordered, k, m - 1, row);
    }
}


/// The end offset word of the variable column with index `i`, as the row
/// stores it: the offset in its lower fifteen bits, and the top bit set
/// where the row holds no value for the column.
pub open spec fn variable_word(offsets: Seq<u8>, i: int) -> u16 {
    le_u16_at(offsets, 2 * i)
}

/// The offset at which the value of the variable column with index `i`
/// starts: where the one before it ends.
pub open spec fn variable_begin(offsets: Seq<u8>, i: int) -> int {
    if i <= 0 {
        0
    } else {
        (variable_word(offsets, i - 1) % 0x8000) as int
    }
}

/// The offset at which the value of the variable column with index `i` ends.
pub open spec fn variable_end(offsets: Seq<u8>, i: int) -> int {
    (variable_word(offsets, i) % 0x8000) as int
}

/// What the bytes `raw` of the variable column `id` hold. A column that the
/// schema does not know keeps its bytes as `Binary`.
#[verifier::opaque]
pub open spec fn variable_data(raw: Seq<u8>, columns: Seq<ColumnView>, id: int) -> Result<
    DataView,
    ReadError,
> {
    match column_with_id(columns, id) {
        None => Ok(DataView::Binary(raw)),
        Some(column) => match column.column_type {
            DataType::Text => match spec_decode_string(raw, column.codepage) {
                Err(e) => Err(e),
                Ok(text) => Ok(DataView::Text(text)),
            },
            DataType::Binary => Ok(DataView::Binary(raw)),
            _ => Err(
                ReadError::UnexpectedVariableColumnDataType {
                    table_id: column.table_object_id,
                    column_id: column.column_id,
                    data_type: column.column_type,
                },
            ),
        },
    }
}

/// The value of the variable column with index `i`, whose id is `128 + i`:
/// none where the row marks it absent.
pub open spec fn variable_value(
    offsets: Seq<u8>,
    values: Seq<u8>,
    columns: Seq<ColumnView>,
    i: int,
) -> Result<Option<DataView>, ReadError> {
    let begin = variable_begin(offsets, i);
    let end = variable_end(offsets, i);
    if variable_word(offsets, i) >= 0x8000 {
        Ok(None)
    } else if begin > end {
        Err(ReadError::Io(IoErrorKind::InvalidData))
    } else if end > values.len() {
        Err(ReadError::Io(IoErrorKind::UnexpectedEof))
    } else {
        match variable_data(values.subrange(begin, end), columns, 128 + i) {
            Err(e) => Err(e),
            Ok(data) => Ok(Some(data)),
        }
    }
}

/// The row after the first `k` variable columns.
pub open spec fn variable_phase(
    offsets: Seq<u8>,
    values: Seq<u8>,
    columns: Seq<ColumnView>,
    k: int,
    row: Map<i32, ValueView>,
) -> Result<Map<i32, ValueView>, ReadError>
    decreases k,
{
    if k <= 0 {
        Ok(row)
    } else {
        match variable_phase(offsets, values, columns, k - 1, row) {
            Err(e) => Err(e),
            Ok(before) => match variable_value(offsets, values, columns, k - 1) {
                Err(e) => Err(e),
                Ok(None) => Ok(before),
                Ok(Some(data)) => Ok(before.insert((127 + k) as i32, ValueView::Simple(data))),
            },
        }
    }
}

/// A failure among the first `k` variable columns is the failure of every
/// longer run of them.
proof fn lemma_variable_phase_fails(
    offsets: Seq<u8>,
    values: Seq<u8>,
    columns: Seq<ColumnView>,
    k: int,
    m: int,
    row: Map<i32, ValueView>,
)
    requires
        0 <= k <= m,
        variable_phase(offsets, values, columns, k, row) is Err,
    ensures
        variable_phase(offsets, values, columns, m, row) == variable_phase(
            offsets,
            values,
            columns,
            k,
            row,
        ),
    decreases m - k,
{
    if k < m {
        lemma_variable_phase_fails(offsets, values, columns, k, m - 1, row);
    }
}

/// Decodes the bytes of a variable column.
fn decode_variable_data(raw: &[u8], columns: &[Column], id: i32) -> (r: Result<Data, ReadError>)
    ensures
        match r {
            Ok(data) => variable_data(
                raw@,
                column_views(columns@),
                id as int,
            ) == Ok::<DataView, ReadError>(
                data@,
            ),
            Err(e) => variable_data(
                raw@,
                column_views(columns@),
                id as int,
            ) == Err::<DataView, ReadError>(e),
        },
{
    reveal(variable_data);
    let column = match find_column(columns, id) {
        Some(position) => &columns[position],
        None => {
            return Ok(Data::Binary(copy_all(raw)));
        },
    };
    match column.column_type {
        DataType::Text => {
            let text = decode_string(raw, column.codepage)?;
            Ok(Data::Text(text))
        },
        DataType::Binary => Ok(Data::Binary(copy_all(raw))),
        _ => Err(
            ReadError::UnexpectedVariableColumnDataType {
                table_id: column.table_object_id,
                column_id: column.column_id,
                data_type: column.column_type,
            },
        ),
    }
}

/// Decodes the `count` variable columns of a row into `row`.
fn decode_variable_columns(
    offsets: &[u8],
    values: &[u8],
    columns: &[Column],
    count: usize,
    row: &mut BTreeMap<i32, Value>,
) -> (r: Result<(), ReadError>)
    requires
        count <= 128,
        2 * count <= offsets@.len(),
    ensures
        match r {
            Ok(()) => variable_phase(
                offsets@,
                values@,
                column_views(columns@),
                count as int,
                row_view(old(row)@),
            ) == Ok::<Map<i32, ValueView>, ReadError>(row_view(final(row)@)),
            Err(e) => variable_phase(
                offsets@,
                values@,
                column_views(columns@),
                count as int,
                row_view(old(row)@),
            ) == Err::<Map<i32, ValueView>, ReadError>(e),
        },
{
    let ghost start = row_view(old(row)@);
    let mut begin: usize = 0;
    let mut k: usize = 0;
    while k < count
        invariant
            k <= count <= 128,
            2 * count <= offsets@.len(),
            start == row_view(old(row)@),
            begin == variable_begin(offsets@, k as int),
            variable_phase(offsets@, values@, column_views(columns@), k as int, start) == Ok::<
                Map<i32, ValueView>,
                ReadError,
            >(row_view(row@)),
        decreases count - k,
    {
        let word = u16_at(offsets, 2 * k);
        let end: usize = (word % 0x8000) as usize;
        if word < 0x8000 {
            if begin > end || end > values.len() {
                proof {
                    assert(variable_phase(
                        offsets@,
                        values@,
                        column_views(columns@),
                        k + 1,
                        start,
                    ) is Err);
                    lemma_variable_phase_fails(
                        offsets@,
                        values@,
                        column_views(columns@),
                        (k + 1) as int,
                        count as int,
                        start,
                    );
                }
                if begin > end {
                    return Err(ReadError::Io(IoErrorKind::InvalidData));
                }
                return Err(ReadError::Io(IoErrorKind::UnexpectedEof));
            }
            let id: i32 = 128 + (k as i32);
            let data = match decode_variable_data(slice_subrange(values, begin, end), columns, id) {
                Ok(data) => data,
                Err(e) => {
                    proof {
                        assert(variable_phase(
                            offsets@,
                            values@,
                            column_views(columns@),
                            k + 1,
                            start,
                        ) is Err);
                        lemma_variable_phase_fails(
                            offsets@,
                            values@,
                            column_views(columns@),
                            (k + 1) as int,
                            count as int,
                            start,
                        );
                    }
                    return Err(e);
                },
            };
            let value = Value::Simple(data);
            let ghost before = row@;
            row.insert(id, value);
            assert(row_view(row@) =~= row_view(before).insert(id, value@));
        }
        begin = end;
        k += 1;
    }
    Ok(())
}


/// One entry of the directory that opens the tagged region: the id of a
/// column, the offset of its value in the region, and the flags that the
/// offset word carries.
#[derive(Clone, Copy, Debug, PartialEq, Eq, Structural)]
pub struct TagEntry {
    pub column: u16,
    pub offset: u16,
    pub flags: SmallTagFlags,
}

/// The directory entry stored at `t[pos..pos + 4]`.
///
/// On a small page the offset takes thirteen bits and the three bits above
/// it are the flags. On a large page the offset takes fifteen bits, the top
/// bit is the `DERIVED` flag, and every value is taken to carry a flag byte.
pub open spec fn tag_entry_at(t: Seq<u8>, pos: int, small_page: bool) -> TagEntry {
    let word = le_u16_at(t, pos + 2);
    if small_page {
        TagEntry {
            column: le_u16_at(t, pos),
            offset: word % 0x2000,
            flags: SmallTagFlags { bits: word & 0xE000 },
        }
    } else {
        TagEntry {
            column: le_u16_at(t, pos),
            offset: word % 0x8000,
            flags: SmallTagFlags { bits: SMALL_TAG_HAS_EXTENDED_FLAGS | (word & 0x8000) },
        }
    }
}

/// `entries`, then what `rest` gives.
pub open spec fn entries_then(entries: Seq<TagEntry>, rest: Result<Seq<TagEntry>, ReadError>)
    -> Result<Seq<TagEntry>, ReadError> {
    match rest {
        Err(e) => Err(e),
        Ok(more) => Ok(entries + more),
    }
}

/// The directory entries from offset `pos` on, where `least` is the least
/// value offset among the entries before. The directory ends where the
/// values start: at the least offset that any entry names.
pub open spec fn tag_entries(t: Seq<u8>, small_page: bool, pos: int, least: int) -> Result<
    Seq<TagEntry>,
    ReadError,
>
    decreases t.len() - pos,
{
    if pos < 0 || pos >= least {
        Ok(Seq::empty())
    } else if pos + 4 > t.len() {
        Err(ReadError::Io(IoErrorKind::UnexpectedEof))
    } else {
        let entry = tag_entry_at(t, pos, small_page);
        entries_then(
            seq![entry],
            tag_entries(
                t,
                small_page,
                pos + 4,
                if entry.offset < least {
                    entry.offset as int
                } else {
                    least
                },
            ),
        )
    }
}

/// The directory of the tagged region `t`. The first entry is always read.
pub open spec fn tag_directory(t: Seq<u8>, small_page: bool) -> Result<Seq<TagEntry>, ReadError> {
    tag_entries(t, small_page, 0, 0x8000)
}

/// Reads the directory of a tagged region.
fn read_tag_directory(t: &[u8], small_page: bool) -> (r: Result<Vec<TagEntry>, ReadError>)
    ensures
        match r {
            Ok(entries) => tag_directory(t@, small_page) == Ok::<Seq<TagEntry>, ReadError>(
                entries@,
            ),
            Err(e) => tag_directory(t@, small_page) == Err::<Seq<TagEntry>, ReadError>(e),
        },
{
    let mut entries: Vec<TagEntry> = Vec::new();
    let mut pos: usize = 0;
    let mut least: usize = 0x8000;
    let length: usize = t.len();
    assert(entries@ + tag_directory(t@, small_page)->Ok_0 =~= tag_directory(
        t@,
        small_page,
    )->Ok_0);
    while pos < least
        invariant
            pos <= t@.len() == length,
            least <= 0x8000,
            tag_directory(t@, small_page) == entries_then(
                entries@,
                tag_entries(t@, small_page, pos as int, least as int),
            ),
        decreases t@.len() - pos,
    {
        if length - pos < 4 {
            return Err(ReadError::Io(IoErrorKind::UnexpectedEof));
        }
        let word = u16_at(t, pos + 2);
        let entry = if small_page {
            TagEntry {
                column: u16_at(t, pos),
                offset: word % 0x2000,
                flags: SmallTagFlags::from_bits_retain(word & 0xE000),
            }
        } else {
            TagEntry {
                column: u16_at(t, pos),
                offset: word % 0x8000,
                flags: SmallTagFlags::from_bits_retain(
                    SMALL_TAG_HAS_EXTENDED_FLAGS | (word & 0x8000),
                ),
            }
        };
        let ghost before = entries@;
        let ghost rest = tag_entries(
            t@,
            small_page,
            pos + 4,
            if entry.offset < least {
                entry.offset as int
            } else {
                least as int
            },
        );
        entries.push(entry);
        proof {
            if rest is Ok {
                assert(before + (seq![entry] + rest->Ok_0) =~= entries@ + rest->Ok_0);
            }
        }
        if (entry.offset as usize) < least {
            least = entry.offset as usize;
        }
        pos += 4;
    }
    assert(entries@ + Seq::<TagEntry>::empty() =~= entries@);
    Ok(entries)
}

/// The offset at which the value of the directory entry `i` ends: where the
/// next entry's value starts, or with the region.
pub open spec fn tagged_item_end(t: Seq<u8>, entries: Seq<TagEntry>, i: int) -> int {
    if i + 1 < entries.len() {
        entries[i + 1].offset as int
    } else {
        t.len() as int
    }
}

/// The bytes of the value of the directory entry `i`.
pub open spec fn tagged_item(t: Seq<u8>, entries: Seq<TagEntry>, i: int) -> Result<
    Seq<u8>,
    ReadError,
> {
    let begin = entries[i].offset as int;
    let end = tagged_item_end(t, entries, i);
    if begin > end {
        Err(ReadError::Io(IoErrorKind::InvalidData))
    } else if end > t.len() {
        Err(ReadError::Io(IoErrorKind::UnexpectedEof))
    } else {
        Ok(t.subrange(begin, end))
    }
}

/// The tag flags of a tagged value: its first byte where the offset word
/// says that it carries one, with `DERIVED` taken over from the offset
/// word; else what the offset word alone gives.
pub open spec fn tagged_flags(item: Seq<u8>, small_flags: SmallTagFlags) -> TagFlags {
    if small_flags.contains(SMALL_TAG_HAS_EXTENDED_FLAGS) {
        TagFlags {
            bits: if small_flags.contains(SMALL_TAG_DERIVED) {
                item[0] | TAG_DERIVED
            } else {
                item[0]
            },
        }
    } else {
        TagFlags::spec_from_small(small_flags)
    }
}

/// The bytes of a tagged value behind its flag byte, if it has one.
pub open spec fn tagged_body(item: Seq<u8>, small_flags: SmallTagFlags) -> Seq<u8> {
    if small_flags.contains(SMALL_TAG_HAS_EXTENDED_FLAGS) {
        item.skip(1)
    } else {
        item
    }
}

/// The offset at which the value `k` of `count` values of a multi-valued
/// tag starts: the `k`-th 16-bit word of the body, and the body's length
/// behind the last value.
pub open spec fn multi_value_offset(body: Seq<u8>, count: int, k: int) -> int {
    if k < count {
        le_u16_at(body, 2 * k) as int
    } else {
        body.len() as int
    }
}

/// The first `k` values of a multi-valued tag with `count` values.
pub open spec fn multi_value_slices(body: Seq<u8>, count: int, k: int) -> Result<
    Seq<Seq<u8>>,
    ReadError,
>
    decreases k,
{
    if k <= 0 {
        Ok(Seq::empty())
    } else {
        let begin = multi_value_offset(body, count, k - 1);
        let end = multi_value_offset(body, count, k);
        match multi_value_slices(body, count, k - 1) {
            Err(e) => Err(e),
            Ok(before) => if begin > end {
                Err(ReadError::Io(IoErrorKind::InvalidData))
            } else if end > body.len() {
                Err(ReadError::Io(IoErrorKind::UnexpectedEof))
            } else {
                Ok(before.push(body.subrange(begin, end)))
            },
        }
    }
}

/// The values that the body of a tagged value holds.
///
/// With `TWO_VALUES` the first byte is the length of the first value, and
/// the second value takes the rest. With `MULTI_VALUES` the body opens with
/// one 16-bit offset for each value, the first of which tells where the
/// offsets end. Else the body is one value.
pub open spec fn value_slices(body: Seq<u8>, flags: TagFlags) -> Result<Seq<Seq<u8>>, ReadError> {
    if flags.contains(TAG_TWO_VALUES) {
        if body.len() < 1 || 1 + body[0] > body.len() {
            Err(ReadError::Io(IoErrorKind::UnexpectedEof))
        } else {
            Ok(seq![body.subrange(1, 1 + body[0]), body.skip(1 + body[0])])
        }
    } else if flags.contains(TAG_MULTI_VALUES) {
        let first = le_u16_at(body, 0);
        if body.len() < 2 || first > body.len() {
            Err(ReadError::Io(IoErrorKind::UnexpectedEof))
        } else if first % 2 != 0 {
            Err(ReadError::Io(IoErrorKind::InvalidData))
        } else {
            multi_value_slices(body, first as int / 2, first as int / 2)
        }
    } else {
        Ok(seq![body])
    }
}

/// Every range lies in a buffer of `n` bytes.
pub open spec fn ranges_within(ranges: Seq<(usize, usize)>, n: int) -> bool {
    forall|k: int| 0 <= k < ranges.len() ==> (#[trigger] ranges[k]).0 <= ranges[k].1 <= n
}

/// The parts of `body` that `ranges` name.
pub open spec fn slices_at(body: Seq<u8>, ranges: Seq<(usize, usize)>) -> Seq<Seq<u8>> {
    Seq::new(ranges.len(), |k: int| body.subrange(ranges[k].0 as int, ranges[k].1 as int))
}

/// A failure among the first `k` values of a multi-valued tag is the failure
/// of every longer run of them.
proof fn lemma_multi_value_slices_fail(body: Seq<u8>, count: int, k: int, m: int)
    requires
        0 <= k <= m,
        multi_value_slices(body, count, k) is Err,
    ensures
        multi_value_slices(body, count, m) == multi_value_slices(body, count, k),
    decreases m - k,
{
    if k < m {
        lemma_multi_value_slices_fail(body, count, k, m - 1);
    }
}

/// Finds where the values stand in the body of a tagged value.
fn value_ranges(body: &[u8], flags: TagFlags) -> (r: Result<Vec<(usize, usize)>, ReadError>)
    ensures
        match r {
            Ok(ranges) => ranges_within(ranges@, body@.len() as int) && value_slices(body@, flags)
                == Ok::<Seq<Seq<u8>>, ReadError>(slices_at(body@, ranges@)),
            Err(e) => value_slices(body@, flags) == Err::<Seq<Seq<u8>>, ReadError>(e),
        },
{
    let length: usize = body.len();
    let mut ranges: Vec<(usize, usize)> = Vec::new();
    if flags.contains(TAG_TWO_VALUES) {
        if length < 1 || (body[0] as usize) > length - 1 {
            return Err(ReadError::Io(IoErrorKind::UnexpectedEof));
        }
        let middle: usize = 1 + (body[0] as usize);
        ranges.push((1, middle));
        ranges.push((middle, length));
        assert(slices_at(body@, ranges@) =~= seq![
            body@.subrange(1, 1 + body@[0]),
            body@.skip(1 + body@[0]),
        ]);
        return Ok(ranges);
    }
    if !flags.contains(TAG_MULTI_VALUES) {
        ranges.push((0, length));
        assert(body@.subrange(0, length as int) =~= body@);
        assert(slices_at(body@, ranges@) =~= seq![body@]);
        return Ok(ranges);
    }
    if length < 2 {
        return Err(ReadError::Io(IoErrorKind::UnexpectedEof));
    }
    let first: usize = u16_at(body, 0) as usize;
    if first > length {
        return Err(ReadError::Io(IoErrorKind::UnexpectedEof));
    }
    if first % 2 != 0 {
        return Err(ReadError::Io(IoErrorKind::InvalidData));
    }
    let count: usize = first / 2;
    let mut k: usize = 0;
    assert(slices_at(body@, ranges@) =~= Seq::<Seq<u8>>::empty());
    while k < count
        invariant
            k <= count,
            2 * count <= body@.len() == length,
            !flags.contains(TAG_TWO_VALUES),
            flags.contains(TAG_MULTI_VALUES),
            length >= 2,
            first == le_u16_at(body@, 0),
            first % 2 == 0,
            count == first / 2,
            ranges@.len() == k,
            ranges_within(ranges@, body@.len() as int),
            multi_value_slices(body@, count as int, k as int) == Ok::<Seq<Seq<u8>>, ReadError>(
                slices_at(body@, ranges@),
            ),
        decreases count - k,
    {
        let begin: usize = u16_at(body, 2 * k) as usize;
        let end: usize = if k + 1 < count {
            u16_at(body, 2 * (k + 1)) as usize
        } else {
            length
        };
        if begin > end || end > length {
            proof {
                assert(multi_value_slices(body@, count as int, k + 1) is Err);
                lemma_multi_value_slices_fail(body@, count as int, k + 1, count as int);
            }
            if begin > end {
                return Err(ReadError::Io(IoErrorKind::InvalidData));
            }
            return Err(ReadError::Io(IoErrorKind::UnexpectedEof));
        }
        let ghost before = ranges@;
        ranges.push((begin, end));
        assert(slices_at(body@, ranges@) =~= slices_at(body@, before).push(
            body@.subrange(begin as int, end as int),
        ));
        k += 1;
    }
    Ok(ranges)
}


/// The number that `bytes` store little-endian, however many they are.
pub open spec fn value_number(bytes: Seq<u8>) -> nat
    decreases bytes.len(),
{
    if bytes.len() == 0 {
        0
    } else {
        bytes[0] as nat + 256 * value_number(bytes.skip(1))
    }
}

/// Dropping low bytes does not make the number larger.
proof fn lemma_value_number_skip(bytes: Seq<u8>, n: int)
    requires
        0 <= n <= bytes.len(),
    ensures
        value_number(bytes.skip(n)) <= value_number(bytes),
    decreases n,
{
    if n == 0 {
        assert(bytes.skip(0) =~= bytes);
    } else {
        lemma_value_number_skip(bytes.skip(1), n - 1);
        assert(bytes.skip(1).skip(n - 1) =~= bytes.skip(n));
    }
}

/// The number of a long value, which the bytes of a separated value store
/// little-endian; `None` where the number does not fit `usize`.
pub fn reference_bytes_to_value_number(bytes: &[u8]) -> (r: Option<usize>)
    ensures
        value_number(bytes@) <= usize::MAX ==> r == Some(value_number(bytes@) as usize),
        value_number(bytes@) > usize::MAX ==> r.is_none(),
{
    let mut number: usize = 0;
    let mut n: usize = bytes.len();
    assert(bytes@.skip(n as int) =~= Seq::<u8>::empty());
    while n > 0
        invariant
            n <= bytes@.len(),
            number == value_number(bytes@.skip(n as int)),
        decreases n,
    {
        let byte: usize = bytes[n - 1] as usize;
        proof {
            assert(bytes@.skip(n - 1).skip(1) =~= bytes@.skip(n as int));
            assert(bytes@.skip(n - 1)[0] == bytes@[n - 1]);
            lemma_value_number_skip(bytes@, n - 1);
        }
        if number > (usize::MAX - byte) / 256 {
            return None;
        }
        number = number * 256 + byte;
        n -= 1;
    }
    assert(bytes@.skip(0) =~= bytes@);
    Some(number)
}

/// The chunks of the long value that the bytes of a separated value name:
/// what a walk through the table's long-value tree keeps that starts at
/// the entry with the value's number and asks for one payload.
pub open spec fn separated_chunks(
    s: Seq<u8>,
    header: Header,
    long_value_page: Option<u64>,
    reference: Seq<u8>,
) -> Result<Seq<Seq<u8>>, ReadError> {
    match long_value_page {
        None => Err(ReadError::SeparatedValueWithoutLongValueInfo),
        Some(page) => if value_number(reference) > usize::MAX {
            Err(ReadError::Io(IoErrorKind::InvalidData))
        } else {
            match walk_page(
                s,
                header,
                page,
                value_number(reference),
                1,
                WalkState { out: Seq::empty(), cursor: 0 },
                MAX_TREE_DEPTH as nat,
            ) {
                Err(e) => Err(e),
                Ok(state) => Ok(state.out),
            }
        },
    }
}

/// Fetches the chunks of a separated long value.
fn read_separated_chunks(
    data: &[u8],
    header: &Header,
    long_value_page: Option<u64>,
    reference: &[u8],
) -> (r: Result<Vec<Vec<u8>>, ReadError>)
    ensures
        match r {
            Ok(chunks) => separated_chunks(data@, *header, long_value_page, reference@) == Ok::<
                Seq<Seq<u8>>,
                ReadError,
            >(payloads(chunks@)),
            Err(e) => separated_chunks(data@, *header, long_value_page, reference@) == Err::<
                Seq<Seq<u8>>,
                ReadError,
            >(e),
        },
{
    let page = match long_value_page {
        Some(page) => page,
        None => { return Err(ReadError::SeparatedValueWithoutLongValueInfo); },
    };
    let number = match reference_bytes_to_value_number(reference) {
        Some(number) => number,
        None => { return Err(ReadError::Io(IoErrorKind::InvalidData)); },
    };
    let mut chunks: Vec<Vec<u8>> = Vec::new();
    let mut cursor: usize = 0;
    assert(payloads(chunks@) =~= Seq::<Seq<u8>>::empty());
    read_data_from_tree(data, header, page, number, 1, &mut chunks, &mut cursor)?;
    Ok(chunks)
}

/// The texts of the first `k` chunks, each as a `LongText`.
pub open spec fn chunk_texts(chunks: Seq<Seq<u8>>, codepage: i32, k: int) -> Result<
    Seq<DataView>,
    ReadError,
>
    decreases k,
{
    if k <= 0 {
        Ok(Seq::empty())
    } else {
        match chunk_texts(chunks, codepage, k - 1) {
            Err(e) => Err(e),
            Ok(before) => match spec_decode_string(chunks[k - 1], codepage) {
                Err(e) => Err(e),
                Ok(text) => Ok(before.push(DataView::LongText(text))),
            },
        }
    }
}

/// A failure among the first `k` chunks is the failure of every longer run
/// of them.
proof fn lemma_chunk_texts_fail(chunks: Seq<Seq<u8>>, codepage: i32, k: int, m: int)
    requires
        0 <= k <= m,
        chunk_texts(chunks, codepage, k) is Err,
    ensures
        chunk_texts(chunks, codepage, m) == chunk_texts(chunks, codepage, k),
    decreases m - k,
{
    if k < m {
        lemma_chunk_texts_fail(chunks, codepage, k, m - 1);
    }
}

/// Whether values of type `data_type` can stand in the tagged region.
pub open spec fn is_tagged_type(data_type: DataType) -> bool {
    data_type is Long || data_type is Currency || data_type is LongText || data_type is LongBinary
}

/// Whether values of type `data_type` can be separated.
pub open spec fn is_long_type(data_type: DataType) -> bool {
    data_type is LongText || data_type is LongBinary
}

/// The data that one value of a tagged column gives. `Long` and `Currency`
/// take four and eight bytes. A long value that is separated stands for the
/// chunks that its bytes name, each of which is a value; one that is not is
/// itself the value.
pub open spec fn tagged_slice_values(
    s: Seq<u8>,
    header: Header,
    long_value_page: Option<u64>,
    column: ColumnView,
    flags: TagFlags,
    slice: Seq<u8>,
) -> Result<Seq<DataView>, ReadError> {
    match column.column_type {
        DataType::Long => if slice.len() != 4 {
            Err(ReadError::Io(IoErrorKind::InvalidData))
        } else {
            Ok(seq![DataView::Long(signed32(le_u32_at(slice, 0)))])
        },
        DataType::Currency => if slice.len() != 8 {
            Err(ReadError::Io(IoErrorKind::InvalidData))
        } else {
            Ok(seq![DataView::Currency(signed64(le_u64_at(slice, 0)))])
        },
        DataType::LongText => if flags.contains(TAG_SEPARATED) {
            match separated_chunks(s, header, long_value_page, slice) {
                Err(e) => Err(e),
                Ok(chunks) => chunk_texts(chunks, column.codepage, chunks.len() as int),
            }
        } else {
            match spec_decode_string(slice, column.codepage) {
                Err(e) => Err(e),
                Ok(text) => Ok(seq![DataView::LongText(text)]),
            }
        },
        DataType::LongBinary => if flags.contains(TAG_SEPARATED) {
            match separated_chunks(s, header, long_value_page, slice) {
                Err(e) => Err(e),
                Ok(chunks) => Ok(chunk_binaries(chunks)),
            }
        } else {
            Ok(seq![DataView::LongBinary(slice)])
        },
        _ => Err(
            ReadError::UnexpectedTaggedColumnDataType {
                table_id: column.table_object_id,
                column_id: column.column_id,
                data_type: column.column_type,
            },
        ),
    }
}

/// The data that the first `k` values of a tagged column give, one behind
/// the other.
pub open spec fn tagged_values(
    s: Seq<u8>,
    header: Header,
    long_value_page: Option<u64>,
    column: ColumnView,
    flags: TagFlags,
    slices: Seq<Seq<u8>>,
    k: int,
) -> Result<Seq<DataView>, ReadError>
    decreases k,
{
    if k <= 0 {
        Ok(Seq::empty())
    } else {
        match tagged_values(s, header, long_value_page, column, flags, slices, k - 1) {
            Err(e) => Err(e),
            Ok(before) => match tagged_slice_values(
                s,
                header,
                long_value_page,
                column,
                flags,
                slices[k - 1],
            ) {
                Err(e) => Err(e),
                Ok(more) => Ok(before + more),
            },
        }
    }
}

/// A failure among the first `k` values is the failure of every longer run
/// of them.
proof fn lemma_tagged_values_fail(
    s: Seq<u8>,
    header: Header,
    long_value_page: Option<u64>,
    column: ColumnView,
    flags: TagFlags,
    slices: Seq<Seq<u8>>,
    k: int,
    m: int,
)
    requires
        0 <= k <= m,
        tagged_values(s, header, long_value_page, column, flags, slices, k) is Err,
    ensures
        tagged_values(s, header, long_value_page, column, flags, slices, m) == tagged_values(
            s,
            header,
            long_value_page,
            column,
            flags,
            slices,
            k,
        ),
    decreases m - k,
{
    if k < m {
        lemma_tagged_values_fail(s, header, long_value_page, column, flags, slices, k, m - 1);
    }
}

/// The value of a tagged column whose bytes are `item`.
///
/// The column's type must be one that can stand in the tagged region, and
/// one of the long types where the value is separated. One piece of data
/// makes a `Complex` value, any other number a `Multiple` one.
#[verifier::opaque]
pub open spec fn tagged_column_value(
    s: Seq<u8>,
    header: Header,
    long_value_page: Option<u64>,
    column: ColumnView,
    small_flags: SmallTagFlags,
    item: Seq<u8>,
) -> Result<ValueView, ReadError> {
    let flags = tagged_flags(item, small_flags);
    let body = tagged_body(item, small_flags);
    if small_flags.contains(SMALL_TAG_HAS_EXTENDED_FLAGS) && item.len() < 1 {
        Err(ReadError::Io(IoErrorKind::UnexpectedEof))
    } else if !is_tagged_type(column.column_type) || (flags.contains(TAG_SEPARATED)
        && !is_long_type(column.column_type)) {
        Err(
            ReadError::UnexpectedTaggedColumnDataType {
                table_id: column.table_object_id,
                column_id: column.column_id,
                data_type: column.column_type,
            },
        )
    } else {
        match value_slices(body, flags) {
            Err(e) => Err(e),
            Ok(slices) => match tagged_values(
                s,
                header,
                long_value_page,
                column,
                flags,
                slices,
                slices.len() as int,
            ) {
                Err(e) => Err(e),
                Ok(values) => Ok(
                    if values.len() == 1 {
                        ValueView::Complex { data: values[0], flags }
                    } else {
                        ValueView::Multiple { values, flags }
                    },
                ),
            },
        }
    }
}

/// What a sequence of values holds after one more value.
proof fn lemma_data_views_push(values: Seq<Data>, more: Data)
    ensures
        data_views(values.push(more)) == data_views(values).push(more@),
{
    assert(data_views(values.push(more)) =~= data_views(values).push(more@));
}

/// Decodes every chunk as text and appends the texts to `values`.
fn push_chunk_texts(chunks: &Vec<Vec<u8>>, codepage: i32, values: &mut Vec<Data>) -> (r: Result<
    (),
    ReadError,
>)
    ensures
        match r {
            Ok(()) => match chunk_texts(payloads(chunks@), codepage, chunks@.len() as int) {
                Ok(more) => data_views(final(values)@) == data_views(old(values)@) + more,
                Err(_) => false,
            },
            Err(e) => chunk_texts(payloads(chunks@), codepage, chunks@.len() as int) == Err::<
                Seq<DataView>,
                ReadError,
            >(e),
        },
{
    let ghost texts = payloads(chunks@);
    let ghost before = data_views(values@);
    let mut k: usize = 0;
    assert(before =~= before + Seq::<DataView>::empty());
    while k < chunks.len()
        invariant
            k <= chunks@.len(),
            texts == payloads(chunks@),
            before == data_views(old(values)@),
            match chunk_texts(texts, codepage, k as int) {
                Ok(more) => data_views(values@) == before + more,
                Err(_) => false,
            },
        decreases chunks@.len() - k,
    {
        assert(texts[k as int] == chunks@[k as int]@);
        let text = match decode_string(chunks[k].as_slice(), codepage) {
            Ok(text) => text,
            Err(e) => {
                proof {
                    assert(chunk_texts(texts, codepage, k + 1) is Err);
                    lemma_chunk_texts_fail(texts, codepage, k + 1, texts.len() as int);
                }
                return Err(e);
            },
        };
        let ghost sofar = chunk_texts(texts, codepage, k as int)->Ok_0;
        let ghost earlier = values@;
        let piece = Data::LongText(text);
        values.push(piece);
        proof {
            lemma_data_views_push(earlier, piece);
            assert((before + sofar).push(piece@) =~= before + sofar.push(piece@));
        }
        k += 1;
    }
    Ok(())
}

/// The chunks, each as a `LongBinary`.
pub open spec fn chunk_binaries(chunks: Seq<Seq<u8>>) -> Seq<DataView> {
    chunks.map_values(|chunk: Seq<u8>| DataView::LongBinary(chunk))
}

/// Appends every chunk to `values` as a binary value.
fn push_chunk_binaries(chunks: &Vec<Vec<u8>>, values: &mut Vec<Data>)
    ensures
        data_views(final(values)@) == data_views(old(values)@) + chunk_binaries(
            payloads(chunks@),
        ),
{
    let ghost binaries = chunk_binaries(payloads(chunks@));
    let ghost before = data_views(values@);
    let mut k: usize = 0;
    assert(before =~= before + binaries.take(0));
    while k < chunks.len()
        invariant
            k <= chunks@.len(),
            binaries == chunk_binaries(payloads(chunks@)),
            before == data_views(old(values)@),
            data_views(values@) == before + binaries.take(k as int),
        decreases chunks@.len() - k,
    {
        let ghost earlier = values@;
        let piece = Data::LongBinary(copy_all(chunks[k].as_slice()));
        values.push(piece);
        proof {
            lemma_data_views_push(earlier, piece);
            assert(binaries[k as int] == piece@);
            assert((before + binaries.take(k as int)).push(piece@) =~= before + binaries.take(
                k + 1,
            ));
        }
        k += 1;
    }
    assert(binaries.take(chunks@.len() as int) =~= binaries);
}

/// Decodes one value of a tagged column and appends its data to `values`.
fn decode_tagged_slice(
    data: &[u8],
    header: &Header,
    long_value_page: Option<u64>,
    column: &Column,
    flags: TagFlags,
    slice: &[u8],
    values: &mut Vec<Data>,
) -> (r: Result<(), ReadError>)
    ensures
        match r {
            Ok(()) => match tagged_slice_values(
                data@,
                *header,
                long_value_page,
                column@,
                flags,
                slice@,
            ) {
                Ok(more) => data_views(final(values)@) == data_views(old(values)@) + more,
                Err(_) => false,
            },
            Err(e) => tagged_slice_values(data@, *header, long_value_page, column@, flags, slice@)
                == Err::<Seq<DataView>, ReadError>(e),
        },
{
    let ghost before = values@;
    match column.column_type {
        DataType::Long => {
            if slice.len() != 4 {
                return Err(ReadError::Io(IoErrorKind::InvalidData));
            }
            let piece = Data::Long(i32_from_bits(u32_at(slice, 0)));
            values.push(piece);
            proof {
                lemma_data_views_push(before, piece);
                assert(data_views(before).push(piece@) =~= data_views(before) + seq![piece@]);
            }
            Ok(())
        },
        DataType::Currency => {
            if slice.len() != 8 {
                return Err(ReadError::Io(IoErrorKind::InvalidData));
            }
            let piece = Data::Currency(i64_from_bits(u64_at(slice, 0)));
            values.push(piece);
            proof {
                lemma_data_views_push(before, piece);
                assert(data_views(before).push(piece@) =~= data_views(before) + seq![piece@]);
            }
            Ok(())
        },
        DataType::LongText => {
            if flags.contains(TAG_SEPARATED) {
                let chunks = read_separated_chunks(data, header, long_value_page, slice)?;
                push_chunk_texts(&chunks, column.codepage, values)
            } else {
                let text = decode_string(slice, column.codepage)?;
                let piece = Data::LongText(text);
                values.push(piece);
                proof {
                    lemma_data_views_push(before, piece);
                    assert(data_views(before).push(piece@) =~= data_views(before) + seq![piece@]);
                }
                Ok(())
            }
        },
        DataType::LongBinary => {
            if flags.contains(TAG_SEPARATED) {
                let chunks = read_separated_chunks(data, header, long_value_page, slice)?;
                push_chunk_binaries(&chunks, values);
                Ok(())
            } else {
                let piece = Data::LongBinary(copy_all(slice));
                values.push(piece);
                proof {
                    lemma_data_views_push(before, piece);
                    assert(data_views(before).push(piece@) =~= data_views(before) + seq![piece@]);
                }
                Ok(())
            }
        },
        _ => Err(
            ReadError::UnexpectedTaggedColumnDataType {
                table_id: column.table_object_id,
                column_id: column.column_id,
                data_type: column.column_type,
            },
        ),
    }
}

/// Decodes the values that stand at `ranges` in the body of a tagged value.
fn decode_tagged_slices(
    data: &[u8],
    header: &Header,
    long_value_page: Option<u64>,
    column: &Column,
    flags: TagFlags,
    body: &[u8],
    ranges: &Vec<(usize, usize)>,
) -> (r: Result<Vec<Data>, ReadError>)
    requires
        ranges_within(ranges@, body@.len() as int),
    ensures
        match r {
            Ok(values) => tagged_values(
                data@,
                *header,
                long_value_page,
                column@,
                flags,
                slices_at(body@, ranges@),
                ranges@.len() as int,
            ) == Ok::<Seq<DataView>, ReadError>(data_views(values@)),
            Err(e) => tagged_values(
                data@,
                *header,
                long_value_page,
                column@,
                flags,
                slices_at(body@, ranges@),
                ranges@.len() as int,
            ) == Err::<Seq<DataView>, ReadError>(e),
        },
{
    let ghost slices = slices_at(body@, ranges@);
    let mut values: Vec<Data> = Vec::new();
    let mut k: usize = 0;
    assert(data_views(values@) =~= Seq::<DataView>::empty());
    while k < ranges.len()
        invariant
            k <= ranges@.len(),
            ranges_within(ranges@, body@.len() as int),
            slices == slices_at(body@, ranges@),
            tagged_values(data@, *header, long_value_page, column@, flags, slices, k as int)
                == Ok::<Seq<DataView>, ReadError>(data_views(values@)),
        decreases ranges@.len() - k,
    {
        let (begin, end) = ranges[k];
        assert(ranges@[k as int].0 <= ranges@[k as int].1 <= body@.len());
        let slice = slice_subrange(body, begin, end);
        assert(slice@ == slices[k as int]);
        match decode_tagged_slice(
            data,
            header,
            long_value_page,
            column,
            flags,
            slice,
            &mut values,
        ) {
            Ok(()) => {},
            Err(e) => {
                proof {
                    assert(tagged_values(
                        data@,
                        *header,
                        long_value_page,
                        column@,
                        flags,
                        slices,
                        k + 1,
                    ) is Err);
                    lemma_tagged_values_fail(
                        data@,
                        *header,
                        long_value_page,
                        column@,
                        flags,
                        slices,
                        k + 1,
                        slices.len() as int,
                    );
                }
                return Err(e);
            },
        }
        k += 1;
    }
    Ok(values)
}

/// Decodes the value of a tagged column from its bytes.
///
/// A separated long value is followed into the long-value tree of the
/// table: the value holds one piece of data for each chunk that a walk
/// through that tree keeps which starts at the entry with the number that
/// the value's bytes store and asks for one payload.
pub fn decode_tagged_value(
    data: &[u8],
    header: &Header,
    long_value_page: Option<u64>,
    column: &Column,
    small_flags: SmallTagFlags,
    item: &[u8],
) -> (r: Result<Value, ReadError>)
    ensures
        match r {
            Ok(value) => tagged_column_value(
                data@,
                *header,
                long_value_page,
                column@,
                small_flags,
                item@,
            ) == Ok::<ValueView, ReadError>(value@),
            Err(e) => tagged_column_value(
                data@,
                *header,
                long_value_page,
                column@,
                small_flags,
                item@,
            ) == Err::<ValueView, ReadError>(e),
        },
{
    reveal(tagged_column_value);
    let length: usize = item.len();
    let (flags, body) = if small_flags.contains(SMALL_TAG_HAS_EXTENDED_FLAGS) {
        if length < 1 {
            return Err(ReadError::Io(IoErrorKind::UnexpectedEof));
        }
        let bits: u8 = if small_flags.contains(SMALL_TAG_DERIVED) {
            item[0] | TAG_DERIVED
        } else {
            item[0]
        };
        (TagFlags::from_bits_retain(bits), slice_subrange(item, 1, length))
    } else {
        assert(item@.subrange(0, length as int) =~= item@);
        (TagFlags::from_small(small_flags), slice_subrange(item, 0, length))
    };
    assert(flags == tagged_flags(item@, small_flags));
    assert(body@ == tagged_body(item@, small_flags));
    let supported = match column.column_type {
        DataType::Long | DataType::Currency => !flags.contains(TAG_SEPARATED),
        DataType::LongText | DataType::LongBinary => true,
        _ => false,
    };
    if !supported {
        return Err(
            ReadError::UnexpectedTaggedColumnDataType {
                table_id: column.table_object_id,
                column_id: column.column_id,
                data_type: column.column_type,
            },
        );
    }
    let ranges = value_ranges(body, flags)?;
    let mut values = decode_tagged_slices(
        data,
        header,
        long_value_page,
        column,
        flags,
        body,
        &ranges,
    )?;
    if values.len() == 1 {
        match values.pop() {
            Some(only) => Ok(Value::Complex { data: only, flags }),
            None => Err(ReadError::Io(IoErrorKind::InvalidData)),
        }
    } else {
        Ok(Value::Multiple { values, flags })
    }
}


/// The value under which the bytes of a tagged column that the schema does
/// not know are kept: a `Complex` value whose data holds the bytes as they
/// stand in the row, a flag byte among them, and whose flags are those that
/// the offset word alone gives.
pub open spec fn unknown_tagged_value(small_flags: SmallTagFlags, item: Seq<u8>) -> ValueView {
    ValueView::Complex {
        data: DataView::Binary(item),
        flags: TagFlags::spec_from_small(small_flags),
    }
}

/// The value that a directory entry of the tagged region gives, whose bytes
/// are `item`: the value of the schema's column with the entry's id, or,
/// where the schema has no such column, the bytes themselves.
pub open spec fn tagged_entry_value(
    s: Seq<u8>,
    header: Header,
    long_value_page: Option<u64>,
    columns: Seq<ColumnView>,
    entry: TagEntry,
    item: Seq<u8>,
) -> Result<ValueView, ReadError> {
    match column_with_id(columns, entry.column as int) {
        Some(column) => tagged_column_value(
            s,
            header,
            long_value_page,
            column,
            entry.flags,
            item,
        ),
        None => Ok(unknown_tagged_value(entry.flags, item)),
    }
}

/// The row after the first `k` entries of the directory of the tagged
/// region `t`. The bytes of every entry are cut out. An entry with an id
/// from 256 on puts its value under its id; an entry with the id of a
/// column of another region is passed over.
pub open spec fn tagged_phase(
    s: Seq<u8>,
    header: Header,
    long_value_page: Option<u64>,
    columns: Seq<ColumnView>,
    t: Seq<u8>,
    entries: Seq<TagEntry>,
    k: int,
    row: Map<i32, ValueView>,
) -> Result<Map<i32, ValueView>, ReadError>
    decreases k,
{
    if k <= 0 {
        Ok(row)
    } else {
        match tagged_phase(s, header, long_value_page, columns, t, entries, k - 1, row) {
            Err(e) => Err(e),
            Ok(before) => match tagged_item(t, entries, k - 1) {
                Err(e) => Err(e),
                Ok(item) => if entries[k - 1].column < 256 {
                    Ok(before)
                } else {
                    match tagged_entry_value(
                        s,
                        header,
                        long_value_page,
                        columns,
                        entries[k - 1],
                        item,
                    ) {
                        Err(e) => Err(e),
                        Ok(value) => Ok(before.insert(entries[k - 1].column as i32, value)),
                    }
                },
            },
        }
    }
}

/// A failure among the first `k` entries is the failure of every longer run
/// of them.
proof fn lemma_tagged_phase_fails(
    s: Seq<u8>,
    header: Header,
    long_value_page: Option<u64>,
    columns: Seq<ColumnView>,
    t: Seq<u8>,
    entries: Seq<TagEntry>,
    k: int,
    m: int,
    row: Map<i32, ValueView>,
)
    requires
        0 <= k <= m,
        tagged_phase(s, header, long_value_page, columns, t, entries, k, row) is Err,
    ensures
        tagged_phase(s, header, long_value_page, columns, t, entries, m, row) == tagged_phase(
            s,
            header,
            long_value_page,
            columns,
            t,
            entries,
            k,
            row,
        ),
    decreases m - k,
{
    if k < m {
        lemma_tagged_phase_fails(s, header, long_value_page, columns, t, entries, k, m - 1, row);
    }
}

/// The row after the tagged region `t`, which is not empty.
pub open spec fn tagged_rows(
    s: Seq<u8>,
    header: Header,
    long_value_page: Option<u64>,
    columns: Seq<ColumnView>,
    page_size: u32,
    t: Seq<u8>,
    row: Map<i32, ValueView>,
) -> Result<Map<i32, ValueView>, ReadError> {
    match tag_directory(t, page_size <= MAX_SIZE_SMALL_PAGE) {
        Err(e) => Err(e),
        Ok(entries) => tagged_phase(
            s,
            header,
            long_value_page,
            columns,
            t,
            entries,
            entries.len() as int,
            row,
        ),
    }
}

/// Decodes the tagged region of a row into `row`.
fn decode_tagged_columns(
    data: &[u8],
    header: &Header,
    long_value_page: Option<u64>,
    columns: &[Column],
    page_size: u32,
    t: &[u8],
    row: &mut BTreeMap<i32, Value>,
) -> (r: Result<(), ReadError>)
    ensures
        match r {
            Ok(()) => tagged_rows(
                data@,
                *header,
                long_value_page,
                column_views(columns@),
                page_size,
                t@,
                row_view(old(row)@),
            ) == Ok::<Map<i32, ValueView>, ReadError>(row_view(final(row)@)),
            Err(e) => tagged_rows(
                data@,
                *header,
                long_value_page,
                column_views(columns@),
                page_size,
                t@,
                row_view(old(row)@),
            ) == Err::<Map<i32, ValueView>, ReadError>(e),
        },
{
    let entries = read_tag_directory(t, page_size <= MAX_SIZE_SMALL_PAGE)?;
    let ghost start = row_view(old(row)@);
    let length: usize = t.len();
    let mut k: usize = 0;
    while k < entries.len()
        invariant
            k <= entries@.len(),
            length == t@.len(),
            start == row_view(old(row)@),
            tag_directory(t@, page_size <= MAX_SIZE_SMALL_PAGE) == Ok::<
                Seq<TagEntry>,
                ReadError,
            >(entries@),
            tagged_phase(
                data@,
                *header,
                long_value_page,
                column_views(columns@),
                t@,
                entries@,
                k as int,
                start,
            ) == Ok::<Map<i32, ValueView>, ReadError>(row_view(row@)),
        decreases entries@.len() - k,
    {
        let entry = entries[k];
        let begin: usize = entry.offset as usize;
        let end: usize = if k + 1 < entries.len() {
            entries[k + 1].offset as usize
        } else {
            length
        };
        if begin > end || end > length {
            proof {
                assert(tagged_phase(
                    data@,
                    *header,
                    long_value_page,
                    column_views(columns@),
                    t@,
                    entries@,
                    k + 1,
                    start,
                ) is Err);
                lemma_tagged_phase_fails(
                    data@,
                    *header,
                    long_value_page,
                    column_views(columns@),
                    t@,
                    entries@,
                    k + 1,
                    entries@.len() as int,
                    start,
                );
            }
            if begin > end {
                return Err(ReadError::Io(IoErrorKind::InvalidData));
            }
            return Err(ReadError::Io(IoErrorKind::UnexpectedEof));
        }
        let item = slice_subrange(t, begin, end);
        if entry.column >= 256 {
            let value = match find_column(columns, entry.column as i32) {
                None => Value::Complex {
                    data: Data::Binary(copy_all(item)),
                    flags: TagFlags::from_small(entry.flags),
                },
                Some(position) => {
                    match decode_tagged_value(
                        data,
                        header,
                        long_value_page,
                        &columns[position],
                        entry.flags,
                        item,
                    ) {
                        Ok(value) => value,
                        Err(e) => {
                            proof {
                                assert(tagged_phase(
                                    data@,
                                    *header,
                                    long_value_page,
                                    column_views(columns@),
                                    t@,
                                    entries@,
                                    k + 1,
                                    start,
                                ) is Err);
                                lemma_tagged_phase_fails(
                                    data@,
                                    *header,
                                    long_value_page,
                                    column_views(columns@),
                                    t@,
                                    entries@,
                                    k + 1,
                                    entries@.len() as int,
                                    start,
                                );
                            }
                            return Err(e);
                        },
                    }
                },
            };
            let ghost before = row@;
            row.insert(entry.column as i32, value);
            assert(row_view(row@) =~= row_view(before).insert(entry.column as i32, value@));
        }
        k += 1;
    }
    Ok(())
}

/// The offset, behind the end offsets of the variable columns, at which the
/// tagged region starts: where the last variable column ends.
pub open spec fn tagged_start(offsets: Seq<u8>, count: int) -> int {
    variable_begin(offsets, count)
}

/// What a row holds: for the id of each column that has a value in the row,
/// that value.
///
/// The fixed region gives the columns with an id from 1 to 127, the
/// variable region those from 128 to 255, the tagged region those from 256
/// on. The first failure ends the decoding.
#[verifier::opaque]
pub open spec fn spec_decode_row(
    s: Seq<u8>,
    header: Header,
    row: Seq<u8>,
    columns: Seq<ColumnView>,
    page_size: u32,
    long_value_page: Option<u64>,
) -> Result<Map<i32, ValueView>, ReadError> {
    let fixed = row.subrange(4, nullity_start(row));
    let nullity = row.subrange(nullity_start(row), end_of_fixed(row));
    let offsets = row.skip(end_of_fixed(row));
    let count = variable_count(row);
    let values = offsets.skip(2 * count);
    let tagged = values.skip(tagged_start(offsets, count));
    match row_layout_error(row) {
        Some(e) => Err(e),
        None => match fixed_rows(fixed, nullity, columns, row[0] as int, Map::empty()) {
            Err(e) => Err(e),
            Ok(after_fixed) => if offsets.len() < 2 * count {
                Err(ReadError::Io(IoErrorKind::UnexpectedEof))
            } else {
                match variable_phase(offsets, values, columns, count, after_fixed) {
                    Err(e) => Err(e),
                    Ok(after_variable) => if tagged_start(offsets, count) > values.len() {
                        Err(ReadError::Io(IoErrorKind::UnexpectedEof))
                    } else if tagged.len() == 0 {
                        Ok(after_variable)
                    } else {
                        tagged_rows(
                            s,
                            header,
                            long_value_page,
                            columns,
                            page_size,
                            tagged,
                            after_variable,
                        )
                    },
                }
            },
        },
    }
}

/// Decodes a row of a table with the columns `columns` from the payload
/// `row_data` of a leaf entry. `data` is the file, in which separated long
/// values are looked up in the tree rooted at `large_value_page_number`.
pub fn decode_row(
    data: &[u8],
    header: &Header,
    row_data: &[u8],
    columns: &[Column],
    page_size: u32,
    large_value_page_number: Option<u64>,
) -> (r: Result<BTreeMap<i32, Value>, ReadError>)
    ensures
        match r {
            Ok(row) => spec_decode_row(
                data@,
                *header,
                row_data@,
                column_views(columns@),
                page_size,
                large_value_page_number,
            ) == Ok::<Map<i32, ValueView>, ReadError>(row_view(row@)),
            Err(e) => spec_decode_row(
                data@,
                *header,
                row_data@,
                column_views(columns@),
                page_size,
                large_value_page_number,
            ) == Err::<Map<i32, ValueView>, ReadError>(e),
        },
{
    reveal(spec_decode_row);
    let length: usize = row_data.len();
    if length < 4 {
        return Err(ReadError::Io(IoErrorKind::UnexpectedEof));
    }
    let last_fixed: usize = row_data[0] as usize;
    let last_variable: usize = row_data[1] as usize;
    let end_fixed: usize = u16_at(row_data, 2) as usize;
    let variable_columns: usize = if last_variable >= 128 {
        last_variable - 127
    } else {
        0
    };
    let nullity_bytes: usize = (last_fixed + 7) / 8;
    if end_fixed < 4 + nullity_bytes {
        return Err(ReadError::Io(IoErrorKind::InvalidData));
    }
    if end_fixed > length {
        return Err(ReadError::Io(IoErrorKind::UnexpectedEof));
    }
    let fixed = slice_subrange(row_data, 4, end_fixed - nullity_bytes);
    let nullity = slice_subrange(row_data, end_fixed - nullity_bytes, end_fixed);
    let offsets = slice_subrange(row_data, end_fixed, length);
    let mut row: BTreeMap<i32, Value> = BTreeMap::new();
    assert(row_view(row@) =~= Map::<i32, ValueView>::empty());
    decode_fixed_columns(fixed, nullity, columns, last_fixed, &mut row)?;
    if offsets.len() < 2 * variable_columns {
        return Err(ReadError::Io(IoErrorKind::UnexpectedEof));
    }
    let values = slice_subrange(offsets, 2 * variable_columns, offsets.len());
    decode_variable_columns(offsets, values, columns, variable_columns, &mut row)?;
    let tagged_from: usize = if variable_columns == 0 {
        0
    } else {
        (u16_at(offsets, 2 * (variable_columns - 1)) % 0x8000) as usize
    };
    if tagged_from > values.len() {
        return Err(ReadError::Io(IoErrorKind::UnexpectedEof));
    }
    let tagged = slice_subrange(values, tagged_from, values.len());
    if tagged.len() > 0 {
        decode_tagged_columns(
            data,
            header,
            large_value_page_number,
            columns,
            page_size,
            tagged,
            &mut row,
        )?;
    }
    Ok(row)
}

/// What the rows of the table rooted at `page_number` hold: every leaf
/// payload of its tree, decoded.
pub open spec fn spec_rows_of(
    s: Seq<u8>,
    header: Header,
    columns: Seq<ColumnView>,
    long_value_page: Option<u64>,
    raw_rows: Seq<Seq<u8>>,
    k: int,
) -> Result<Seq<Map<i32, ValueView>>, ReadError>
    decreases k,
{
    if k <= 0 {
        Ok(Seq::empty())
    } else {
        match spec_rows_of(s, header, columns, long_value_page, raw_rows, k - 1) {
            Err(e) => Err(e),
            Ok(before) => match spec_decode_row(
                s,
                header,
                raw_rows[k - 1],
                columns,
                header.page_size,
                long_value_page,
            ) {
                Err(e) => Err(e),
                Ok(row) => Ok(before.push(row)),
            },
        }
    }
}

/// A failure among the first `k` rows is the failure of every longer run of
/// them.
proof fn lemma_rows_fail(
    s: Seq<u8>,
    header: Header,
    columns: Seq<ColumnView>,
    long_value_page: Option<u64>,
    raw_rows: Seq<Seq<u8>>,
    k: int,
    m: int,
)
    requires
        0 <= k <= m,
        spec_rows_of(s, header, columns, long_value_page, raw_rows, k) is Err,
    ensures
        spec_rows_of(s, header, columns, long_value_page, raw_rows, m) == spec_rows_of(
            s,
            header,
            columns,
            long_value_page,
            raw_rows,
            k,
        ),
    decreases m - k,
{
    if k < m {
        lemma_rows_fail(s, header, columns, long_value_page, raw_rows, k, m - 1);
    }
}

/// What reading the table rooted at `page_number` gives: the leaf payloads
/// of the whole tree, each decoded as a row.
pub open spec fn spec_read_table_from_pages(
    s: Seq<u8>,
    header: Header,
    page_number: u64,
    columns: Seq<ColumnView>,
    long_value_page: Option<u64>,
) -> Result<Seq<Map<i32, ValueView>>, ReadError> {
    match walk_page(
        s,
        header,
        page_number,
        0,
        usize::MAX as nat,
        WalkState { out: Seq::empty(), cursor: 0 },
        MAX_TREE_DEPTH as nat,
    ) {
        Err(e) => Err(e),
        Ok(state) => spec_rows_of(
            s,
            header,
            columns,
            long_value_page,
            state.out,
            state.out.len() as int,
        ),
    }
}

/// What a sequence of rows holds.
pub open spec fn row_views(rows: Seq<BTreeMap<i32, Value>>) -> Seq<Map<i32, ValueView>> {
    rows.map_values(|row: BTreeMap<i32, Value>| row_view(row@))
}

/// Reads every row of the table whose tree is rooted at `page_number`.
pub fn read_table_from_pages(
    data: &[u8],
    header: &Header,
    page_number: u64,
    columns: &[Column],
    large_value_page_number: Option<u64>,
) -> (r: Result<Vec<BTreeMap<i32, Value>>, ReadError>)
    ensures
        match r {
            Ok(rows) => spec_read_table_from_pages(
                data@,
                *header,
                page_number,
                column_views(columns@),
                large_value_page_number,
            ) == Ok::<Seq<Map<i32, ValueView>>, ReadError>(row_views(rows@)),
            Err(e) => spec_read_table_from_pages(
                data@,
                *header,
                page_number,
                column_views(columns@),
                large_value_page_number,
            ) == Err::<Seq<Map<i32, ValueView>>, ReadError>(e),
        },
{
    let mut raw_rows: Vec<Vec<u8>> = Vec::new();
    let mut skip_index: usize = 0;
    assert(payloads(raw_rows@) =~= Seq::<Seq<u8>>::empty());
    read_data_from_tree(data, header, page_number, 0, usize::MAX, &mut raw_rows, &mut skip_index)?;
    let ghost raw = payloads(raw_rows@);
    let mut rows: Vec<BTreeMap<i32, Value>> = Vec::new();
    let mut k: usize = 0;
    assert(row_views(rows@) =~= Seq::<Map<i32, ValueView>>::empty());
    while k < raw_rows.len()
        invariant
            k <= raw_rows@.len(),
            raw == payloads(raw_rows@),
            walk_page(
                data@,
                *header,
                page_number,
                0,
                usize::MAX as nat,
                WalkState { out: Seq::empty(), cursor: 0 },
                MAX_TREE_DEPTH as nat,
            ) matches Ok(state) && state.out == raw,
            spec_rows_of(
                data@,
                *header,
                column_views(columns@),
                large_value_page_number,
                raw,
                k as int,
            ) == Ok::<
                Seq<Map<i32, ValueView>>,
                ReadError,
            >(row_views(rows@)),
        decreases raw_rows@.len() - k,
    {
        assert(raw[k as int] == raw_rows@[k as int]@);
        let row = match decode_row(
            data,
            header,
            raw_rows[k].as_slice(),
            columns,
            header.page_size,
            large_value_page_number,
        ) {
            Ok(row) => row,
            Err(e) => {
                proof {
                    assert(spec_rows_of(
                        data@,
                        *header,
                        column_views(columns@),
                        large_value_page_number,
                        raw,
                        k + 1,
                    ) is Err);
                    lemma_rows_fail(
                        data@,
                        *header,
                        column_views(columns@),
                        large_value_page_number,
                        raw,
                        k + 1,
                        raw.len() as int,
                    );
                }
                return Err(e);
            },
        };
        let ghost before = rows@;
        rows.push(row);
        assert(row_views(rows@) =~= row_views(before).push(row_view(row@)));
        k += 1;
    }
    Ok(rows)
}

} // verus!
