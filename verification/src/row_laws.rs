//! What holds of every row that is decoded.

use vstd::prelude::*;

use crate::data::DataView;
use crate::error::ReadError;
use crate::header::Header;
use crate::page::{walk_page, WalkState, MAX_TREE_DEPTH};
use crate::row::{
    chunk_binaries, chunk_texts, columns_with_id, end_of_fixed, fixed_columns_upto, fixed_phase,
    fixed_rows, held_fixed_columns, is_null, last_fixed_id, nullity_start, spec_decode_row,
    tag_directory, tagged_body, tagged_column_value, tagged_entry_value, tagged_flags,
    tagged_item, tagged_phase, tagged_slice_values, tagged_start, tagged_values, value_number,
    value_slices, variable_begin, variable_count, variable_data, variable_end, variable_phase,
    variable_value, variable_word, TagEntry,
};
use crate::table::{
    column_with_id, column_with_id_among, ColumnView, TagFlags, ValueView, TAG_MULTI_VALUES,
    TAG_SEPARATED, TAG_TWO_VALUES,
};
use crate::text::spec_decode_string;

verus! {

/// Whether a schema has a column with the id `id`.
pub open spec fn schema_has(columns: Seq<ColumnView>, id: int) -> bool {
    exists|j: int| 0 <= j < columns.len() && (#[trigger] columns[j]).column_id == id
}

/// Whether a value comes from the tagged region.
pub open spec fn is_tagged_value(value: ValueView) -> bool {
    value is Complex || value is Multiple
}

/// Every key of a row lies in the range of one region, its value has the
/// form of that region, and the schema has the fixed columns among the
/// keys.
pub open spec fn row_partitioned(row: Map<i32, ValueView>, columns: Seq<ColumnView>) -> bool {
    forall|key: i32| #[trigger]
        row.contains_key(key) ==> {
            &&& key >= 1
            &&& key < 256 ==> row[key] is Simple
            &&& key < 128 ==> schema_has(columns, key as int)
            &&& key >= 256 ==> is_tagged_value(row[key])
        }
}

proof fn lemma_columns_with_id(columns: Seq<ColumnView>, id: int, n: int)
    requires
        n <= columns.len(),
    ensures
        forall|i: int|
            0 <= i < columns_with_id(columns, id, n).len() ==> (#[trigger] columns_with_id(
                columns,
                id,
                n,
            )[i]).column_id == id,
        columns_with_id(columns, id, n).len() > 0 ==> schema_has(columns, id),
    decreases n,
{
    if n > 0 {
        lemma_columns_with_id(columns, id, n - 1);
        if columns[n - 1].column_id == id {
            assert(schema_has(columns, id));
        }
    }
}

proof fn lemma_fixed_columns(columns: Seq<ColumnView>, id: int)
    ensures
        forall|i: int|
            0 <= i < fixed_columns_upto(columns, id).len() ==> 1 <= (#[trigger] fixed_columns_upto(
                columns,
                id,
            )[i]).column_id <= id && schema_has(
                columns,
                fixed_columns_upto(columns, id)[i].column_id as int,
            ),
    decreases id,
{
    if id > 0 {
        lemma_fixed_columns(columns, id - 1);
        lemma_columns_with_id(columns, id, columns.len() as int);
        let before = fixed_columns_upto(columns, id - 1);
        let more = columns_with_id(columns, id, columns.len() as int);
        assert forall|i: int| 0 <= i < (before + more).len() implies 1 <= (#[trigger] (before
            + more)[i]).column_id <= id && schema_has(
                columns,
                (before + more)[i].column_id as int,
            ) by {
            if i < before.len() {
                assert((before + more)[i] == before[i]);
            } else {
                assert((before + more)[i] == more[i - before.len()]);
            }
        }
    }
}

/// Every column among the first `n` that has the id `id` is listed.
proof fn lemma_columns_with_id_complete(columns: Seq<ColumnView>, id: int, n: int, j: int)
    requires
        0 <= j < n <= columns.len(),
        columns[j].column_id == id,
    ensures
        columns_with_id(columns, id, n).contains(columns[j]),
    decreases n,
{
    let listed = columns_with_id(columns, id, n);
    if j == n - 1 {
        assert(listed[listed.len() - 1] == columns[j]);
    } else {
        lemma_columns_with_id_complete(columns, id, n - 1, j);
        let before = columns_with_id(columns, id, n - 1);
        let k = choose|k: int| 0 <= k < before.len() && before[k] == columns[j];
        assert(listed[k] == columns[j]);
    }
}

/// Every column with an id from 1 to `id` is listed.
proof fn lemma_fixed_columns_complete(columns: Seq<ColumnView>, id: int, j: int)
    requires
        0 <= j < columns.len(),
        1 <= columns[j].column_id <= id,
    ensures
        fixed_columns_upto(columns, id).contains(columns[j]),
    decreases id,
{
    let before = fixed_columns_upto(columns, id - 1);
    let more = columns_with_id(columns, id, columns.len() as int);
    if columns[j].column_id == id {
        lemma_columns_with_id_complete(columns, id, columns.len() as int, j);
        let k = choose|k: int| 0 <= k < more.len() && more[k] == columns[j];
        assert((before + more)[before.len() + k] == columns[j]);
    } else {
        lemma_fixed_columns_complete(columns, id - 1, j);
        let k = choose|k: int| 0 <= k < before.len() && before[k] == columns[j];
        assert((before + more)[k] == columns[j]);
    }
}

proof fn lemma_fixed_columns_upto_ascending(columns: Seq<ColumnView>, id: int)
    ensures
        forall|i: int, j: int|
            0 <= i < j < fixed_columns_upto(columns, id).len() ==> (#[trigger] fixed_columns_upto(
                columns,
                id,
            )[i]).column_id <= (#[trigger] fixed_columns_upto(columns, id)[j]).column_id,
    decreases id,
{
    if id > 0 {
        lemma_fixed_columns_upto_ascending(columns, id - 1);
        lemma_fixed_columns(columns, id - 1);
        lemma_columns_with_id(columns, id, columns.len() as int);
        let before = fixed_columns_upto(columns, id - 1);
        let more = columns_with_id(columns, id, columns.len() as int);
        let all = before + more;
        assert forall|i: int, j: int| 0 <= i < j < all.len() implies (#[trigger] all[i]).column_id
            <= (#[trigger] all[j]).column_id by {
            if j < before.len() {
                assert(all[i] == before[i] && all[j] == before[j]);
            } else if i < before.len() {
                assert(all[i] == before[i] && all[j] == more[j - before.len()]);
            } else {
                assert(all[i] == more[i - before.len()] && all[j] == more[j - before.len()]);
            }
        }
    }
}

/// The order of the fixed region. The fixed columns that a row holds are
/// the columns of the schema with an id from 1 to the highest that the row
/// names, all of them, by ascending id.
pub proof fn lemma_fixed_columns_ordered(columns: Seq<ColumnView>, last_fixed: int)
    requires
        0 <= last_fixed,
    ensures
        forall|i: int, j: int|
            0 <= i < j < held_fixed_columns(columns, last_fixed).len() ==> (
            #[trigger] held_fixed_columns(columns, last_fixed)[i]).column_id <= (
            #[trigger] held_fixed_columns(columns, last_fixed)[j]).column_id,
        forall|i: int|
            0 <= i < held_fixed_columns(columns, last_fixed).len() ==> 1 <= (
            #[trigger] held_fixed_columns(columns, last_fixed)[i]).column_id <= last_fixed
                && held_fixed_columns(columns, last_fixed)[i].column_id < 128 && schema_has(
                columns,
                held_fixed_columns(columns, last_fixed)[i].column_id as int,
            ),
        forall|j: int|
            0 <= j < columns.len() && 1 <= (#[trigger] columns[j]).column_id <= last_fixed
                && columns[j].column_id < 128 ==> held_fixed_columns(columns, last_fixed).contains(
                columns[j],
            ),
{
    let last = last_fixed_id(last_fixed);
    lemma_fixed_columns_upto_ascending(columns, last);
    lemma_fixed_columns(columns, last);
    assert forall|j: int|
        0 <= j < columns.len() && 1 <= (#[trigger] columns[j]).column_id <= last_fixed
            && columns[j].column_id < 128 implies held_fixed_columns(columns, last_fixed).contains(
        columns[j],
    ) by {
        lemma_fixed_columns_complete(columns, last, j);
    }
}

/// What the fixed columns with an id up to `last` put into an empty row
/// under the key `key`.
proof fn lemma_fixed_phase(
    fixed: Seq<u8>,
    nullity: Seq<u8>,
    columns: Seq<ColumnView>,
    last: int,
    k: int,
    key: i32,
)
    requires
        0 <= last <= 127,
        0 <= k <= fixed_columns_upto(columns, last).len(),
        fixed_phase(fixed, nullity, fixed_columns_upto(columns, last), k, Map::empty()) is Ok,
    ensures
        ({
            let held = fixed_columns_upto(columns, last);
            let row = fixed_phase(fixed, nullity, held, k, Map::empty())->Ok_0.0;
            &&& row.contains_key(key) ==> 1 <= key <= last && schema_has(columns, key as int)
                && row[key] is Simple && (is_null(nullity, key) ==> row[key] == ValueView::Simple(
                DataView::Nil,
            ))
            &&& forall|i: int|
                0 <= i < k && (#[trigger] held[i]).column_id == key ==> row.contains_key(key)
        }),
    decreases k,
{
    if k > 0 {
        lemma_fixed_phase(fixed, nullity, columns, last, k - 1, key);
        lemma_fixed_columns(columns, last);
        assert(1 <= fixed_columns_upto(columns, last)[k - 1].column_id <= last);
    }
}

/// What the variable region changes in a row under the key `key`.
proof fn lemma_variable_phase(
    offsets: Seq<u8>,
    values: Seq<u8>,
    columns: Seq<ColumnView>,
    k: int,
    row: Map<i32, ValueView>,
    key: i32,
)
    requires
        0 <= k <= 128,
        variable_phase(offsets, values, columns, k, row) is Ok,
    ensures
        ({
            let after = variable_phase(offsets, values, columns, k, row)->Ok_0;
            &&& key < 128 || key >= 128 + k ==> after.contains_key(key) == row.contains_key(key)
                && after[key] == row[key]
            &&& 128 <= key < 128 + k ==> match variable_value(offsets, values, columns, key - 128) {
                Ok(Some(data)) => after.contains_key(key) && after[key] == ValueView::Simple(data),
                Ok(None) => after.contains_key(key) == row.contains_key(key) && after[key]
                    == row[key],
                Err(_) => false,
            }
        }),
    decreases k,
{
    if k > 0 {
        lemma_variable_phase(offsets, values, columns, k - 1, row, key);
    }
}

/// The column that is found for an id has that id.
proof fn lemma_column_with_id(columns: Seq<ColumnView>, id: int, n: int)
    requires
        n <= columns.len(),
    ensures
        match column_with_id_among(columns, id, n) {
            Some(column) => column.column_id == id && schema_has(columns, id),
            None => true,
        },
    decreases n,
{
    if n > 0 {
        if columns[n - 1].column_id == id {
            assert(schema_has(columns, id));
        } else {
            lemma_column_with_id(columns, id, n - 1);
        }
    }
}

/// A value of the tagged region carries tag flags.
proof fn lemma_tagged_column_value(
    s: Seq<u8>,
    header: Header,
    long_value_page: Option<u64>,
    column: ColumnView,
    small_flags: crate::table::SmallTagFlags,
    item: Seq<u8>,
)
    ensures
        tagged_column_value(s, header, long_value_page, column, small_flags, item) matches Ok(
            value,
        ) ==> is_tagged_value(value),
{
    reveal(tagged_column_value);
}

/// What the tagged region changes in a row under the key `key`.
proof fn lemma_tagged_phase(
    s: Seq<u8>,
    header: Header,
    long_value_page: Option<u64>,
    columns: Seq<ColumnView>,
    t: Seq<u8>,
    entries: Seq<TagEntry>,
    k: int,
    row: Map<i32, ValueView>,
    key: i32,
)
    requires
        0 <= k <= entries.len(),
        tagged_phase(s, header, long_value_page, columns, t, entries, k, row) is Ok,
    ensures
        ({
            let after = tagged_phase(s, header, long_value_page, columns, t, entries, k, row)->Ok_0;
            &&& after.contains_key(key) ==> (row.contains_key(key) && after[key] == row[key]) || (
            key >= 256 && is_tagged_value(after[key]))
            &&& key < 256 ==> after.contains_key(key) == row.contains_key(key) && after[key]
                == row[key]
        }),
    decreases k,
{
    if k > 0 {
        lemma_tagged_phase(s, header, long_value_page, columns, t, entries, k - 1, row, key);
        if tagged_item(t, entries, k - 1) is Ok {
            match column_with_id(columns, entries[k - 1].column as int) {
                None => {},
                Some(column) => {
                    lemma_tagged_column_value(
                        s,
                        header,
                        long_value_page,
                        column,
                        entries[k - 1].flags,
                        tagged_item(t, entries, k - 1)->Ok_0,
                    );
                },
            }
        }
    }
}

/// The entry `i` of the directory decides the value under its id, where no
/// later entry has the same id.
proof fn lemma_tagged_phase_last(
    s: Seq<u8>,
    header: Header,
    long_value_page: Option<u64>,
    columns: Seq<ColumnView>,
    t: Seq<u8>,
    entries: Seq<TagEntry>,
    k: int,
    row: Map<i32, ValueView>,
    i: int,
)
    requires
        0 <= i < k <= entries.len(),
        tagged_phase(s, header, long_value_page, columns, t, entries, k, row) is Ok,
        entries[i].column >= 256,
        forall|j: int| i < j < k ==> (#[trigger] entries[j]).column != entries[i].column,
    ensures
        tagged_item(t, entries, i) is Ok,
        tagged_entry_value(
            s,
            header,
            long_value_page,
            columns,
            entries[i],
            tagged_item(t, entries, i)->Ok_0,
        ) is Ok,
        ({
            let after = tagged_phase(s, header, long_value_page, columns, t, entries, k, row)->Ok_0;
            let key = entries[i].column as i32;
            after.contains_key(key) && after[key] == tagged_entry_value(
                s,
                header,
                long_value_page,
                columns,
                entries[i],
                tagged_item(t, entries, i)->Ok_0,
            )->Ok_0
        }),
    decreases k,
{
    if i < k - 1 {
        lemma_tagged_phase_last(s, header, long_value_page, columns, t, entries, k - 1, row, i);
        assert(entries[k - 1].column != entries[i].column);
    }
}

/// The row after the fixed region, where the whole row is decoded.
pub open spec fn row_after_fixed(row: Seq<u8>, columns: Seq<ColumnView>) -> Map<i32, ValueView> {
    fixed_rows(
        row.subrange(4, nullity_start(row)),
        row.subrange(nullity_start(row), end_of_fixed(row)),
        columns,
        row[0] as int,
        Map::empty(),
    )->Ok_0
}

/// The end offsets of the variable columns of a row, and all that follows
/// them.
pub open spec fn row_offsets(row: Seq<u8>) -> Seq<u8> {
    row.skip(end_of_fixed(row))
}

/// The values of the variable columns of a row, and all that follows them.
pub open spec fn row_values(row: Seq<u8>) -> Seq<u8> {
    row_offsets(row).skip(2 * variable_count(row))
}

/// The tagged region of a row.
pub open spec fn row_tagged(row: Seq<u8>) -> Seq<u8> {
    row_values(row).skip(tagged_start(row_offsets(row), variable_count(row)))
}

/// The row after the variable region, where the whole row is decoded.
pub open spec fn row_after_variable(row: Seq<u8>, columns: Seq<ColumnView>) -> Map<
    i32,
    ValueView,
> {
    variable_phase(
        row_offsets(row),
        row_values(row),
        columns,
        variable_count(row),
        row_after_fixed(row, columns),
    )->Ok_0
}

/// The directory of the tagged region of a row, where the whole row is
/// decoded.
pub open spec fn row_directory(row: Seq<u8>, page_size: u32) -> Seq<TagEntry> {
    tag_directory(row_tagged(row), page_size <= crate::page::MAX_SIZE_SMALL_PAGE)->Ok_0
}

/// A decoded row is made in three stages, each of which succeeds.
proof fn lemma_row_stages(
    s: Seq<u8>,
    header: Header,
    row: Seq<u8>,
    columns: Seq<ColumnView>,
    page_size: u32,
    long_value_page: Option<u64>,
)
    requires
        spec_decode_row(s, header, row, columns, page_size, long_value_page) is Ok,
    ensures
        fixed_phase(
            row.subrange(4, nullity_start(row)),
            row.subrange(nullity_start(row), end_of_fixed(row)),
            held_fixed_columns(columns, row[0] as int),
            held_fixed_columns(columns, row[0] as int).len() as int,
            Map::empty(),
        ) matches Ok(after) && after.0 == row_after_fixed(row, columns),
        0 <= variable_count(row) <= 128,
        variable_phase(
            row_offsets(row),
            row_values(row),
            columns,
            variable_count(row),
            row_after_fixed(row, columns),
        ) is Ok,
        row_tagged(row).len() == 0 ==> spec_decode_row(
            s,
            header,
            row,
            columns,
            page_size,
            long_value_page,
        )->Ok_0 == row_after_variable(row, columns),
        row_tagged(row).len() != 0 ==> tagged_phase(
            s,
            header,
            long_value_page,
            columns,
            row_tagged(row),
            row_directory(row, page_size),
            row_directory(row, page_size).len() as int,
            row_after_variable(row, columns),
        ) == Ok::<Map<i32, ValueView>, ReadError>(
            spec_decode_row(s, header, row, columns, page_size, long_value_page)->Ok_0,
        ),
{
    reveal(spec_decode_row);
}

/// What a decoded row holds under the key `key`, by the region of the key.
proof fn lemma_row_key(
    s: Seq<u8>,
    header: Header,
    row: Seq<u8>,
    columns: Seq<ColumnView>,
    page_size: u32,
    long_value_page: Option<u64>,
    key: i32,
)
    requires
        spec_decode_row(s, header, row, columns, page_size, long_value_page) is Ok,
    ensures
        ({
            let decoded = spec_decode_row(
                s,
                header,
                row,
                columns,
                page_size,
                long_value_page,
            )->Ok_0;
            let after_fixed = row_after_fixed(row, columns);
            let nullity = row.subrange(nullity_start(row), end_of_fixed(row));
            &&& key < 128 ==> decoded.contains_key(key) == after_fixed.contains_key(key)
                && decoded[key] == after_fixed[key]
            &&& after_fixed.contains_key(key) ==> 1 <= key < 128 && schema_has(columns, key as int)
                && after_fixed[key] is Simple && (is_null(nullity, key) ==> after_fixed[key]
                == ValueView::Simple(DataView::Nil))
            &&& forall|i: int|
                0 <= i < held_fixed_columns(columns, row[0] as int).len()
                    && (#[trigger] held_fixed_columns(columns, row[0] as int)[i]).column_id == key
                    ==> after_fixed.contains_key(key)
            &&& 128 <= key < 256 && decoded.contains_key(key) ==> decoded[key] is Simple
            &&& 128 <= key < 128 + variable_count(row) ==> match variable_value(
                row_offsets(row),
                row_values(row),
                columns,
                key - 128,
            ) {
                Ok(Some(data)) => decoded.contains_key(key) && decoded[key] == ValueView::Simple(
                    data,
                ),
                Ok(None) => true,
                Err(_) => false,
            }
            &&& key >= 256 && decoded.contains_key(key) ==> is_tagged_value(decoded[key])
        }),
{
    let fixed = row.subrange(4, nullity_start(row));
    let nullity = row.subrange(nullity_start(row), end_of_fixed(row));
    lemma_row_stages(s, header, row, columns, page_size, long_value_page);
    lemma_fixed_phase(
        fixed,
        nullity,
        columns,
        last_fixed_id(row[0] as int),
        held_fixed_columns(columns, row[0] as int).len() as int,
        key,
    );
    lemma_variable_phase(
        row_offsets(row),
        row_values(row),
        columns,
        variable_count(row),
        row_after_fixed(row, columns),
        key,
    );
    if row_tagged(row).len() != 0 {
        lemma_tagged_phase(
            s,
            header,
            long_value_page,
            columns,
            row_tagged(row),
            row_directory(row, page_size),
            row_directory(row, page_size).len() as int,
            row_after_variable(row, columns),
            key,
        );
    }
}

/// The partition of a row. Every key of a decoded row lies in exactly one
/// of the ranges from 1 to 127, from 128 to 255, and from 256 on. A key of
/// the first two ranges has a simple value, a key of the third a value from
/// the tagged region, and the schema has a column for every key of the
/// first range.
pub proof fn lemma_row_partition(
    s: Seq<u8>,
    header: Header,
    row: Seq<u8>,
    columns: Seq<ColumnView>,
    page_size: u32,
    long_value_page: Option<u64>,
)
    requires
        spec_decode_row(s, header, row, columns, page_size, long_value_page) is Ok,
    ensures
        row_partitioned(
            spec_decode_row(s, header, row, columns, page_size, long_value_page)->Ok_0,
            columns,
        ),
{
    let decoded = spec_decode_row(s, header, row, columns, page_size, long_value_page)->Ok_0;
    assert forall|key: i32| #[trigger] decoded.contains_key(key) implies {
        &&& key >= 1
        &&& key < 256 ==> decoded[key] is Simple
        &&& key < 128 ==> schema_has(columns, key as int)
        &&& key >= 256 ==> is_tagged_value(decoded[key])
    } by {
        lemma_row_key(s, header, row, columns, page_size, long_value_page, key);
    }
}

/// Null correctness. A fixed column that the row holds and marks as null
/// has the value `Nil`, whatever its bytes are.
pub proof fn lemma_null_is_nil(
    s: Seq<u8>,
    header: Header,
    row: Seq<u8>,
    columns: Seq<ColumnView>,
    page_size: u32,
    long_value_page: Option<u64>,
    i: int,
)
    requires
        spec_decode_row(s, header, row, columns, page_size, long_value_page) is Ok,
        0 <= i < held_fixed_columns(columns, row[0] as int).len(),
        is_null(
            row.subrange(nullity_start(row), end_of_fixed(row)),
            held_fixed_columns(columns, row[0] as int)[i].column_id,
        ),
    ensures
        ({
            let decoded = spec_decode_row(
                s,
                header,
                row,
                columns,
                page_size,
                long_value_page,
            )->Ok_0;
            let id = held_fixed_columns(columns, row[0] as int)[i].column_id;
            decoded.contains_key(id) && decoded[id] == ValueView::Simple(DataView::Nil)
        }),
{
    let id = held_fixed_columns(columns, row[0] as int)[i].column_id;
    lemma_row_key(s, header, row, columns, page_size, long_value_page, id);
}

/// Unknown variable columns lose nothing. A variable column that the row
/// holds and that the schema does not know has its bytes as a simple
/// `Binary` value.
pub proof fn lemma_unknown_variable_column(
    s: Seq<u8>,
    header: Header,
    row: Seq<u8>,
    columns: Seq<ColumnView>,
    page_size: u32,
    long_value_page: Option<u64>,
    i: int,
)
    requires
        spec_decode_row(s, header, row, columns, page_size, long_value_page) is Ok,
        0 <= i < variable_count(row),
        variable_word(row_offsets(row), i) < 0x8000,
        column_with_id(columns, 128 + i).is_none(),
    ensures
        ({
            let decoded = spec_decode_row(
                s,
                header,
                row,
                columns,
                page_size,
                long_value_page,
            )->Ok_0;
            decoded.contains_key((128 + i) as i32) && decoded[(128 + i) as i32]
                == ValueView::Simple(
                DataView::Binary(
                    row_values(row).subrange(
                        variable_begin(row_offsets(row), i),
                        variable_end(row_offsets(row), i),
                    ),
                ),
            )
        }),
{
    reveal(variable_data);
    lemma_row_key(s, header, row, columns, page_size, long_value_page, (128 + i) as i32);
}

/// The bytes of the entry `i` of the directory of the tagged region of a
/// row.
pub open spec fn row_item(row: Seq<u8>, page_size: u32, i: int) -> Seq<u8> {
    tagged_item(row_tagged(row), row_directory(row, page_size), i)->Ok_0
}

/// The entry `i` of the directory of the tagged region of a row decides
/// what the row holds under its id: its id is 256 or more, and no later
/// entry has the same id.
pub open spec fn row_entry_decides(row: Seq<u8>, page_size: u32, i: int) -> bool {
    &&& row_tagged(row).len() != 0
    &&& 0 <= i < row_directory(row, page_size).len()
    &&& row_directory(row, page_size)[i].column >= 256
    &&& forall|j: int|
        i < j < row_directory(row, page_size).len() ==> (#[trigger] row_directory(
            row,
            page_size,
        )[j]).column != row_directory(row, page_size)[i].column
}

/// Tagged entries. A decoded row holds, under the id of an entry of its
/// tagged directory that decides, the value that the entry's bytes give.
pub proof fn lemma_tagged_entry(
    s: Seq<u8>,
    header: Header,
    row: Seq<u8>,
    columns: Seq<ColumnView>,
    page_size: u32,
    long_value_page: Option<u64>,
    i: int,
)
    requires
        spec_decode_row(s, header, row, columns, page_size, long_value_page) is Ok,
        row_entry_decides(row, page_size, i),
    ensures
        ({
            let decoded = spec_decode_row(
                s,
                header,
                row,
                columns,
                page_size,
                long_value_page,
            )->Ok_0;
            let entry = row_directory(row, page_size)[i];
            &&& decoded.contains_key(entry.column as i32)
            &&& tagged_entry_value(
                s,
                header,
                long_value_page,
                columns,
                entry,
                row_item(row, page_size, i),
            ) == Ok::<ValueView, ReadError>(decoded[entry.column as i32])
        }),
{
    lemma_row_stages(s, header, row, columns, page_size, long_value_page);
    lemma_tagged_phase_last(
        s,
        header,
        long_value_page,
        columns,
        row_tagged(row),
        row_directory(row, page_size),
        row_directory(row, page_size).len() as int,
        row_after_variable(row, columns),
        i,
    );
}

/// Unknown tagged columns lose nothing. A tagged column that the row holds
/// and that the schema does not know has its bytes, as they stand in the
/// row, as the `Binary` data of a `Complex` value.
pub proof fn lemma_unknown_tagged_column(
    s: Seq<u8>,
    header: Header,
    row: Seq<u8>,
    columns: Seq<ColumnView>,
    page_size: u32,
    long_value_page: Option<u64>,
    i: int,
)
    requires
        spec_decode_row(s, header, row, columns, page_size, long_value_page) is Ok,
        row_entry_decides(row, page_size, i),
        column_with_id(columns, row_directory(row, page_size)[i].column as int).is_none(),
    ensures
        ({
            let decoded = spec_decode_row(
                s,
                header,
                row,
                columns,
                page_size,
                long_value_page,
            )->Ok_0;
            let entry = row_directory(row, page_size)[i];
            &&& decoded.contains_key(entry.column as i32)
            &&& decoded[entry.column as i32] == ValueView::Complex {
                data: DataView::Binary(row_item(row, page_size, i)),
                flags: TagFlags::spec_from_small(entry.flags),
            }
        }),
{
    lemma_tagged_entry(s, header, row, columns, page_size, long_value_page, i);
}

/// The pieces of data that a value holds, in their order.
pub open spec fn data_of(value: ValueView) -> Seq<DataView> {
    match value {
        ValueView::Simple(data) => seq![data],
        ValueView::Complex { data, .. } => seq![data],
        ValueView::Multiple { values, .. } => values,
    }
}

/// The chunks of the long value with the number that `reference` holds:
/// what a walk through the long-value tree at `page` keeps which starts at
/// the entry with that number and asks for one payload.
pub open spec fn long_value_chunks(
    s: Seq<u8>,
    header: Header,
    page: u64,
    reference: Seq<u8>,
) -> Seq<Seq<u8>> {
    walk_page(
        s,
        header,
        page,
        value_number(reference),
        1,
        WalkState { out: Seq::empty(), cursor: 0 },
        MAX_TREE_DEPTH as nat,
    )->Ok_0.out
}

/// Separated long values in a row. Where an entry of the tagged directory
/// of a decoded row decides, the schema knows its column, and its flags
/// mark one separated value, the table has a long-value tree and the row
/// holds under the column's id the chunks of the long value that the
/// entry's bytes name: as they are for a long binary column, as texts for a
/// long text column, one piece of data for each chunk and in their order.
pub proof fn lemma_separated_row_value(
    s: Seq<u8>,
    header: Header,
    row: Seq<u8>,
    columns: Seq<ColumnView>,
    page_size: u32,
    long_value_page: Option<u64>,
    i: int,
)
    requires
        spec_decode_row(s, header, row, columns, page_size, long_value_page) is Ok,
        row_entry_decides(row, page_size, i),
        column_with_id(columns, row_directory(row, page_size)[i].column as int) is Some,
        ({
            let entry = row_directory(row, page_size)[i];
            let flags = tagged_flags(row_item(row, page_size, i), entry.flags);
            flags.contains(TAG_SEPARATED) && !flags.contains(TAG_TWO_VALUES) && !flags.contains(
                TAG_MULTI_VALUES,
            )
        }),
    ensures
        long_value_page is Some,
        ({
            let decoded = spec_decode_row(
                s,
                header,
                row,
                columns,
                page_size,
                long_value_page,
            )->Ok_0;
            let entry = row_directory(row, page_size)[i];
            let column = column_with_id(columns, entry.column as int)->Some_0;
            let item = row_item(row, page_size, i);
            let chunks = long_value_chunks(
                s,
                header,
                long_value_page->Some_0,
                tagged_body(item, entry.flags),
            );
            let data = data_of(decoded[entry.column as i32]);
            &&& decoded.contains_key(entry.column as i32)
            &&& column.column_type is LongBinary || column.column_type is LongText
            &&& data.len() == chunks.len()
            &&& column.column_type is LongBinary ==> data == chunk_binaries(chunks)
            &&& column.column_type is LongText ==> forall|k: int|
                0 <= k < chunks.len() ==> (#[trigger] data[k]) is LongText && spec_decode_string(
                    chunks[k],
                    column.codepage,
                ) == Ok::<Seq<char>, ReadError>(data[k]->LongText_0)
        }),
{
    let entry = row_directory(row, page_size)[i];
    let column = column_with_id(columns, entry.column as int)->Some_0;
    let item = row_item(row, page_size, i);
    let flags = tagged_flags(item, entry.flags);
    let body = tagged_body(item, entry.flags);
    lemma_tagged_entry(s, header, row, columns, page_size, long_value_page, i);
    reveal(tagged_column_value);
    let slices = value_slices(body, flags)->Ok_0;
    assert(slices == seq![body]);
    assert(tagged_values(s, header, long_value_page, column, flags, slices, 0) == Ok::<
        Seq<DataView>,
        ReadError,
    >(Seq::empty()));
    let values = tagged_slice_values(s, header, long_value_page, column, flags, body);
    assert(tagged_values(s, header, long_value_page, column, flags, slices, 1) is Ok);
    assert(values is Ok);
    assert(tagged_values(s, header, long_value_page, column, flags, slices, 1)->Ok_0
        =~= values->Ok_0);
    let chunks = long_value_chunks(s, header, long_value_page->Some_0, body);
    if column.column_type is LongText {
        lemma_chunk_texts(chunks, column.codepage, chunks.len() as int);
    } else {
        assert(chunk_binaries(chunks).len() == chunks.len());
    }
}

/// Separated long values. The data of a separated value of a long binary
/// column are the chunks that a walk through the long-value tree keeps
/// which starts at the entry with the value's number and asks for one
/// payload; the data of one of a long text column are the texts of those
/// chunks, one for one.
pub proof fn lemma_separated_value(
    s: Seq<u8>,
    header: Header,
    page: u64,
    column: ColumnView,
    flags: TagFlags,
    reference: Seq<u8>,
)
    requires
        flags.contains(TAG_SEPARATED),
        column.column_type is LongBinary || column.column_type is LongText,
        value_number(reference) <= usize::MAX,
        walk_page(
            s,
            header,
            page,
            value_number(reference),
            1,
            WalkState { out: Seq::empty(), cursor: 0 },
            MAX_TREE_DEPTH as nat,
        ) is Ok,
    ensures
        ({
            let chunks = walk_page(
                s,
                header,
                page,
                value_number(reference),
                1,
                WalkState { out: Seq::empty(), cursor: 0 },
                MAX_TREE_DEPTH as nat,
            )->Ok_0.out;
            let values = tagged_slice_values(s, header, Some(page), column, flags, reference);
            &&& column.column_type is LongBinary ==> values == Ok::<Seq<DataView>, ReadError>(
                chunk_binaries(chunks),
            )
            &&& column.column_type is LongText ==> values == chunk_texts(
                chunks,
                column.codepage,
                chunks.len() as int,
            )
            &&& values matches Ok(data) ==> data.len() == chunks.len() && forall|k: int|
                0 <= k < chunks.len() ==> if column.column_type is LongBinary {
                    #[trigger] data[k] == DataView::LongBinary(chunks[k])
                } else {
                    spec_decode_string(chunks[k], column.codepage) == Ok::<Seq<char>, ReadError>(
                        data[k]->LongText_0,
                    ) && data[k] is LongText
                }
        }),
{
    let chunks = walk_page(
        s,
        header,
        page,
        value_number(reference),
        1,
        WalkState { out: Seq::empty(), cursor: 0 },
        MAX_TREE_DEPTH as nat,
    )->Ok_0.out;
    if column.column_type is LongText {
        lemma_chunk_texts(chunks, column.codepage, chunks.len() as int);
    }
}

/// The texts of chunks are as many as the chunks, and each is the text of
/// its chunk.
proof fn lemma_chunk_texts(chunks: Seq<Seq<u8>>, codepage: i32, k: int)
    requires
        0 <= k <= chunks.len(),
    ensures
        chunk_texts(chunks, codepage, k) matches Ok(data) ==> data.len() == k && forall|j: int|
            0 <= j < k ==> (#[trigger] data[j]) is LongText && spec_decode_string(
                chunks[j],
                codepage,
            ) == Ok::<Seq<char>, ReadError>(data[j]->LongText_0),
    decreases k,
{
    if k > 0 {
        lemma_chunk_texts(chunks, codepage, k - 1);
    }
}

} // verus!
