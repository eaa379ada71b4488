//! What it means to unify the dictionaries of record batches: the mathematical statement.

use vstd::prelude::*;

use crate::arrow::{
    batch_columns, batch_rows, constructible, schema_fields, schema_metadata, Batch,
};
use crate::columns::supported;
use crate::entries::{
    all_entries, cells_of, dictionaries, entries, firsts, offset_of, position, widths_of,
};
use crate::index_type::{capacity, too_wide, widened};
use crate::model::{
    fits_offsets, native_bytes, sum_of, ArrayModel, Cell, ColumnType, Element, FieldModel,
    IndexType,
};
use arrow_schema::Schema;

verus! {

/// What is done with one dictionary column.
#[derive(Debug, Clone, Copy, PartialEq, Eq, Structural)]
pub enum Path {
    /// The dictionaries are joined. The key type is widened where that is needed; where it would
    /// become too wide, the column loses its dictionary.
    Concat,
    /// The same with the distinct values alone.
    Dedup,
    /// The dictionaries are joined, and the key type is kept.
    Keep,
}

/// One column of several batches.
pub open spec fn column_of(batches: Seq<Batch>, c: int) -> Seq<ArrayModel> {
    Seq::new(batches.len(), |b: int| batch_columns(batches[b])[c])
}

/// The number of rows of each batch.
pub open spec fn rows_list(batches: Seq<Batch>) -> Seq<nat> {
    Seq::new(batches.len(), |b: int| batch_rows(batches[b]))
}

/// The dictionary that all batches share.
pub open spec fn unified_dictionary(path: Path, column: Seq<ArrayModel>) -> Seq<Cell> {
    match path {
        Path::Dedup => cells_of(firsts(all_entries(column))),
        _ => dictionaries(column),
    }
}

/// How many bytes the dictionaries keep for the values of the shared one.
pub open spec fn unified_widths(path: Path, column: Seq<ArrayModel>) -> Seq<nat> {
    match path {
        Path::Dedup => widths_of(firsts(all_entries(column))),
        _ => widths_of(all_entries(column)),
    }
}

/// The key type of the shared dictionary.
pub open spec fn unified_key(path: Path, key: IndexType, column: Seq<ArrayModel>) -> IndexType {
    match path {
        Path::Keep => key,
        _ => widened(key, unified_dictionary(path, column).len()),
    }
}

/// Whether the column loses its dictionary.
pub open spec fn falls_back(path: Path, key: IndexType, column: Seq<ArrayModel>) -> bool {
    match path {
        Path::Keep => false,
        _ => too_wide(unified_key(path, key, column)),
    }
}

/// The field that takes a field's place: only the type changes.
pub open spec fn unified_field(
    path: Path,
    field: FieldModel,
    column: Seq<ArrayModel>,
) -> FieldModel {
    match field.ty {
        ColumnType::Plain(_) => field,
        ColumnType::Dictionary(k, e) => if falls_back(path, k, column) {
            FieldModel { ty: ColumnType::Plain(e), ..field }
        } else {
            FieldModel { ty: ColumnType::Dictionary(unified_key(path, k, column), e), ..field }
        },
    }
}

/// The key that takes the place of a key of one batch.
pub open spec fn renumbered(
    path: Path,
    column: Seq<ArrayModel>,
    b: int,
    key: Option<u64>,
) -> Option<u64> {
    match key {
        None => None,
        Some(k) => match path {
            Path::Dedup => Some(
                position(firsts(all_entries(column)), entries(column[b])[k as int].key) as u64,
            ),
            _ => Some((k + offset_of(column, b)) as u64),
        },
    }
}

/// Whether an array is what takes the place of one batch's column.
pub open spec fn array_unified(
    path: Path,
    field: FieldModel,
    column: Seq<ArrayModel>,
    b: int,
    new: ArrayModel,
) -> bool {
    match field.ty {
        ColumnType::Plain(_) => new == column[b],
        ColumnType::Dictionary(k, e) => {
            &&& new.well_formed()
            &&& if falls_back(path, k, column) {
                &&& new.ty == ColumnType::Plain(e)
                &&& new.cells == column[b].cells
            } else {
                &&& new.ty == ColumnType::Dictionary(unified_key(path, k, column), e)
                &&& new.dictionary == unified_dictionary(path, column)
                &&& new.keys.len() == column[b].keys.len()
                &&& forall|i: int|
                    0 <= i < new.keys.len() ==> #[trigger] new.keys[i] == renumbered(
                        path,
                        column,
                        b,
                        column[b].keys[i],
                    )
            }
        },
    }
}

/// The fields that take the fields' places.
pub open spec fn unified_fields(
    fields: Seq<FieldModel>,
    batches: Seq<Batch>,
    paths: Seq<Path>,
) -> Seq<FieldModel> {
    Seq::new(
        fields.len(),
        |c: int| unified_field(paths[c], fields[c], column_of(batches, c)),
    )
}

/// Whether one batch takes the place of another: as many rows, each column unified, and nulls at
/// most where the fields allow them.
pub open spec fn batch_unified(
    fields: Seq<FieldModel>,
    batches: Seq<Batch>,
    paths: Seq<Path>,
    b: int,
    new: Batch,
) -> bool {
    &&& batch_rows(new) == batch_rows(batches[b])
    &&& batch_columns(new).len() == fields.len()
    &&& forall|c: int|
        0 <= c < fields.len() ==> array_unified(
            paths[c],
            fields[c],
            column_of(batches, c),
            b,
            #[trigger] batch_columns(new)[c],
        )
    &&& forall|c: int|
        0 <= c < fields.len() ==> fields[c].nullable || !(#[trigger] batch_columns(
            new,
        )[c]).marks_null()
}

/// How many values the shared dictionaries of the first `n` columns have together.
pub open spec fn unified_lens(
    fields: Seq<FieldModel>,
    batches: Seq<Batch>,
    paths: Seq<Path>,
    n: nat,
) -> nat
    decreases n,
{
    if n == 0 {
        0
    } else {
        let c = n - 1;
        unified_lens(fields, batches, paths, c as nat) + if fields[c].ty is Dictionary {
            unified_dictionary(paths[c], column_of(batches, c)).len()
        } else {
            0
        }
    }
}

/// How many values the dictionaries of the first `n` columns have in all batches together.
pub open spec fn total_lens(fields: Seq<FieldModel>, batches: Seq<Batch>, n: nat) -> nat
    decreases n,
{
    if n == 0 {
        0
    } else {
        let c = n - 1;
        total_lens(fields, batches, c as nat) + if fields[c].ty is Dictionary {
            dictionaries(column_of(batches, c)).len()
        } else {
            0
        }
    }
}

/// Whether a column keeps its dictionary with another key type.
pub open spec fn column_widened(path: Path, field: FieldModel, column: Seq<ArrayModel>) -> bool {
    field.ty matches ColumnType::Dictionary(k, _) && !falls_back(path, k, column) && unified_key(
        path,
        k,
        column,
    ) != k
}

/// Whether a column loses its dictionary.
pub open spec fn column_native(path: Path, field: FieldModel, column: Seq<ArrayModel>) -> bool {
    field.ty matches ColumnType::Dictionary(k, _) && falls_back(path, k, column)
}

/// Whether one of the first `n` columns keeps its dictionary with another key type.
pub open spec fn any_widened(
    fields: Seq<FieldModel>,
    batches: Seq<Batch>,
    paths: Seq<Path>,
    n: int,
) -> bool {
    exists|c: int|
        0 <= c < n && column_widened(#[trigger] paths[c], fields[c], column_of(batches, c))
}

/// Whether one of the first `n` columns loses its dictionary.
pub open spec fn any_native(
    fields: Seq<FieldModel>,
    batches: Seq<Batch>,
    paths: Seq<Path>,
    n: int,
) -> bool {
    exists|c: int|
        0 <= c < n && column_native(#[trigger] paths[c], fields[c], column_of(batches, c))
}

/// What the bulks of the arrays of a column are together.
pub open spec fn bulks(column: Seq<ArrayModel>) -> nat
    decreases column.len(),
{
    if column.len() == 0 {
        0
    } else {
        bulks(column.drop_last()) + column.last().bulk
    }
}

/// Whether the values that the dictionaries of a column hold can be counted with 32-bit offsets,
/// where they hold further values.
pub open spec fn countable(e: Element, column: Seq<ArrayModel>) -> bool {
    e is Nested ==> bulks(column) <= i32::MAX
}

/// Whether record batches can be read by a schema: they have its columns, with dictionaries of
/// types that can be joined, cast and shown, and with keys that can be read; and the lengths of
/// all dictionaries can be added up, and what their values hold can be counted.
pub open spec fn conforming(fields: Seq<FieldModel>, batches: Seq<Batch>) -> bool {
    &&& forall|c: int|
        0 <= c < fields.len() && (#[trigger] fields[c]).ty is Dictionary ==> constructible(
            fields[c].ty.element(),
        )
    &&& batches.len() > 0 ==> forall|c: int|
        0 <= c < fields.len() ==> ((#[trigger] fields[c]).ty matches ColumnType::Dictionary(k, _)
            ==> supported(k))
    &&& forall|b: int|
        0 <= b < batches.len() ==> batch_columns(#[trigger] batches[b]).len() >= fields.len()
    &&& forall|b: int, c: int|
        0 <= b < batches.len() && 0 <= c < fields.len() ==> (#[trigger] batch_columns(
            batches[b],
        )[c]).ty == fields[c].ty
    &&& forall|c: int|
        0 <= c < fields.len() && (#[trigger] fields[c]).ty is Dictionary ==> countable(
            fields[c].ty.element(),
            column_of(batches, c),
        )
    &&& total_lens(fields, batches, fields.len()) <= usize::MAX
}

/// Whether the values of a column's shared dictionary may be too many bytes for one array.
pub open spec fn overfull_dictionary(
    path: Path,
    field: FieldModel,
    column: Seq<ArrayModel>,
) -> bool {
    &&& field.ty is Dictionary
    &&& !fits_offsets(field.ty.element(), sum_of(unified_widths(path, column)))
}

/// Whether a column that loses its dictionary may have too many bytes in one batch.
pub open spec fn overfull_native(path: Path, field: FieldModel, column: Seq<ArrayModel>) -> bool {
    &&& column_native(path, field, column)
    &&& exists|b: int|
        0 <= b < column.len() && !fits_offsets(
            field.ty.element(),
            native_bytes(#[trigger] column[b]),
        )
}

/// Whether a value of an array is null.
pub open spec fn has_null(a: ArrayModel) -> bool {
    exists|i: int| 0 <= i < a.cells.len() && #[trigger] a.cells[i] is Null
}

/// Whether a column that must not show null does: by a null key as long as it has a dictionary,
/// and else by a null value.
pub open spec fn null_clash(path: Path, field: FieldModel, column: Seq<ArrayModel>) -> bool {
    &&& !field.nullable
    &&& exists|b: int|
        0 <= b < column.len() && if column_native(path, field, column) {
            has_null(#[trigger] column[b])
        } else {
            column[b].marks_null()
        }
}

/// What says of one column that its unification may fail.
pub open spec fn column_obstacle(path: Path, field: FieldModel, column: Seq<ArrayModel>) -> bool {
    ||| overfull_dictionary(path, field, column)
    ||| overfull_native(path, field, column)
    ||| null_clash(path, field, column)
}

/// Whether nothing stands in the way of a unification: there is a column for the rows, and no
/// column has an obstacle.
pub open spec fn unifiable(
    fields: Seq<FieldModel>,
    batches: Seq<Batch>,
    paths: Seq<Path>,
) -> bool {
    &&& batches.len() > 0 ==> fields.len() > 0
    &&& forall|c: int|
        0 <= c < fields.len() ==> !column_obstacle(
            #[trigger] paths[c],
            fields[c],
            column_of(batches, c),
        )
}

/// Whether the keys of the kept columns suffice for the joined dictionaries.
pub open spec fn keeps_suffice(
    fields: Seq<FieldModel>,
    batches: Seq<Batch>,
    paths: Seq<Path>,
) -> bool {
    forall|c: int|
        0 <= c < fields.len() && #[trigger] paths[c] is Keep ==> (
        fields[c].ty matches ColumnType::Dictionary(k, _) ==> dictionaries(
            column_of(batches, c),
        ).len() <= capacity(k))
}

/// Whether a schema and batches are the unification of others.
pub open spec fn unifies(
    old_schema: Schema,
    batches: Seq<Batch>,
    paths: Seq<Path>,
    new_schema: Schema,
    new_batches: Seq<Batch>,
) -> bool {
    let fields = schema_fields(old_schema);
    &&& schema_fields(new_schema) == unified_fields(fields, batches, paths)
    &&& schema_metadata(new_schema) == schema_metadata(old_schema)
    &&& new_batches.len() == batches.len()
    &&& forall|b: int|
        0 <= b < batches.len() ==> batch_unified(
            fields,
            batches,
            paths,
            b,
            #[trigger] new_batches[b],
        )
}

/// One path for all columns.
pub open spec fn same_path(fields: Seq<FieldModel>, path: Path) -> Seq<Path> {
    Seq::new(fields.len(), |c: int| path)
}

/// The path of a column by the capacity of its keys: the distinct values are taken only where the
/// keys do not suffice for all of them.
pub open spec fn threshold_path(field: FieldModel, column: Seq<ArrayModel>) -> Path {
    match field.ty {
        ColumnType::Dictionary(k, _) => if dictionaries(column).len() > capacity(k) {
            Path::Dedup
        } else {
            Path::Keep
        },
        ColumnType::Plain(_) => Path::Keep,
    }
}

/// The path of each column by the capacity of its keys.
pub open spec fn threshold_paths(fields: Seq<FieldModel>, batches: Seq<Batch>) -> Seq<Path> {
    Seq::new(fields.len(), |c: int| threshold_path(fields[c], column_of(batches, c)))
}

/// How many values the dictionaries of a column have on average, rounded down.
pub open spec fn average_len(column: Seq<ArrayModel>) -> nat {
    if column.len() > 0 {
        dictionaries(column).len() / column.len()
    } else {
        0
    }
}

/// The path of a column by the average length of its dictionaries: the distinct values are taken
/// where the average is at most the threshold.
pub open spec fn selective_path(
    threshold: nat,
    field: FieldModel,
    column: Seq<ArrayModel>,
) -> Path {
    if field.ty is Dictionary && average_len(column) <= threshold {
        Path::Dedup
    } else {
        Path::Concat
    }
}

/// The path of each column by the average length of its dictionaries.
pub open spec fn selective_paths(
    threshold: nat,
    fields: Seq<FieldModel>,
    batches: Seq<Batch>,
) -> Seq<Path> {
    Seq::new(fields.len(), |c: int| selective_path(threshold, fields[c], column_of(batches, c)))
}

} // verus!
