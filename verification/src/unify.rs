//! Four strategies that give the dictionary columns of record batches one dictionary per column.

use std::sync::Arc;

use arrow_schema::{ArrowError, Schema, SchemaBuilder};
use vstd::prelude::*;

use crate::arrow::{
    array_len, batch_column, batch_columns, batch_rows, builder_fields, builder_metadata,
    cast_to_values,
    column_count, concat_arrays, constructible, contents_of, dictionary_key, element_type,
    empty_values, fields_of, finish_schema, fits_schema, has_field_type, joined, joined_widths, new_batch,
    new_schema, push_field, push_native_field, push_rekeyed_field, schema_fields, schema_len, schema_metadata,
    share_array, slice_array, take_metadata, ArrowArray, Batch,
};
use crate::columns::{
    dict_values, mapped, moved, remap_dict_keys, remap_dict_keys_with_mapping, supported, truncated,
};
use crate::dedup::SeenKeys;
use crate::entries::{
    all_entries, cells_of, dictionaries, entries, firsts, has_key, lemma_entries_are_dictionaries,
    lemma_entry_occurs, lemma_firsts, lemma_firsts_grow, lemma_offset_bound, lemma_offset_locates,
    lemma_offset_step, lemma_position, offset_of, position, widths_of, Entry,
};
use crate::index_type::{capacity, exceeds_max_dict_key, key_type_capacity, widen_key_type};
use crate::model::{
    counted, fits_offsets, native_bytes, sum_of, ArrayModel, Cell, ColumnType, FieldModel,
    IndexType,
};
use crate::nested::{
    bulk_of, can_construct, lemma_bulk_of_one, lemma_bulk_step, lemma_bulks_grow,
    lemma_firsts_keep_less, single_valued,
};
use crate::unification::{
    any_native, any_widened, array_unified, batch_unified, bulks, column_native, column_of, column_widened,
    conforming, countable, falls_back, has_null, keeps_suffice, null_clash, overfull_dictionary, overfull_native,
    renumbered, same_path, selective_path, selective_paths, threshold_path,
    threshold_paths, total_lens, unifiable, unified_dictionary, unified_field, unified_fields,
    unified_key, unified_lens, unifies, Path,
};
use crate::value_key::{value_key, KeyModel};

verus! {

/// Whether one column of the batches has the type of its field, which is a dictionary that can
/// be read.
pub open spec fn readable_column(field: FieldModel, batches: Seq<Batch>, c: int) -> bool {
    &&& field.ty is Dictionary
    &&& constructible(field.ty.element())
    &&& batches.len() > 0 ==> (field.ty matches ColumnType::Dictionary(k, _) && supported(k))
    &&& forall|b: int|
        0 <= b < batches.len() ==> {
            &&& c < batch_columns(#[trigger] batches[b]).len()
            &&& batch_columns(batches[b])[c].ty == field.ty
        }
    &&& countable(field.ty.element(), column_of(batches, c))
}

/// Why a unification failed, with the error of the Arrow crates.
#[derive(Debug)]
pub enum UnifyError {
    /// The dictionaries of a column could not be joined.
    Concat(ArrowError),
    /// The distinct values of a column could not be joined.
    DedupConcat(ArrowError),
    /// A column could not be turned into one without a dictionary.
    Cast(ArrowError),
    /// The columns do not make a batch.
    Batch(ArrowError),
}

impl UnifyError {
    /// The failure in words.
    pub fn message(&self) -> (r: &'static str)
        ensures
            r@ == (match *self {
                UnifyError::Concat(_) => "concat failed"@,
                UnifyError::DedupConcat(_) => "dedup concat failed"@,
                UnifyError::Cast(_) => "cast failed"@,
                UnifyError::Batch(_) => "batch build failed"@,
            }),
    {
        match self {
            UnifyError::Concat(_) => "concat failed",
            UnifyError::DedupConcat(_) => "dedup concat failed",
            UnifyError::Cast(_) => "cast failed",
            UnifyError::Batch(_) => "batch build failed",
        }
    }
}

/// Whether an error is the one for what a column shows.
pub open spec fn column_explains(
    error: UnifyError,
    path: Path,
    field: FieldModel,
    column: Seq<ArrayModel>,
) -> bool {
    match error {
        UnifyError::Concat(_) => !(path is Dedup) && overfull_dictionary(path, field, column),
        UnifyError::DedupConcat(_) => path is Dedup && overfull_dictionary(path, field, column),
        UnifyError::Cast(_) => overfull_native(path, field, column),
        UnifyError::Batch(_) => null_clash(path, field, column),
    }
}

/// Whether an error has its cause in the schema and the batches.
pub open spec fn explains(
    error: UnifyError,
    fields: Seq<FieldModel>,
    batches: Seq<Batch>,
    paths: Seq<Path>,
) -> bool {
    ||| error is Batch && batches.len() > 0 && fields.len() == 0
    ||| exists|c: int|
        0 <= c < fields.len() && column_explains(
            error,
            #[trigger] paths[c],
            fields[c],
            column_of(batches, c),
        )
}

/// An error that has its cause in the schema and the batches does not come where nothing stands
/// in the way.
proof fn lemma_explained(
    error: UnifyError,
    fields: Seq<FieldModel>,
    batches: Seq<Batch>,
    paths: Seq<Path>,
)
    requires
        explains(error, fields, batches, paths),
    ensures
        !unifiable(fields, batches, paths),
{
}

/// One column of all batches with its shared dictionary.
struct UnifiedColumn {
    /// The column of each batch.
    arrays: Vec<ArrowArray>,
    /// The key type; none where the column lost its dictionary.
    key: Option<IndexType>,
    /// How many values the shared dictionary has, or would have.
    dict_len: usize,
}

spec fn keys_of(s: Seq<Entry>) -> Seq<KeyModel> {
    Seq::new(s.len(), |i: int| s[i].key)
}

/// Whether a mapping leads each value of a dictionary to the entry with its key.
spec fn leads(mapping: Seq<usize>, from: Seq<Entry>, to: Seq<Entry>) -> bool {
    forall|v: int|
        0 <= v < mapping.len() ==> (#[trigger] mapping[v]) < to.len() && to[mapping[v] as int].key
            == from[v].key
}

/// The distinct values of a column over all batches, and for each batch the place of each of its
/// dictionary values among them.
pub fn dedup_dict_values(
    schema: &Schema,
    batches: &[Batch],
    col_idx: usize,
    key_type: IndexType,
) -> (r: Result<(ArrowArray, Vec<Vec<usize>>), ArrowError>)
    requires
        col_idx < schema_fields(*schema).len(),
        readable_column(schema_fields(*schema)[col_idx as int], batches@, col_idx as int),
        schema_fields(*schema)[col_idx as int].ty.key() == Some(key_type),
    ensures
        ({
            let column = column_of(batches@, col_idx as int);
            let element = schema_fields(*schema)[col_idx as int].ty.element();
            match r {
                Ok((values, mappings)) => {
                    &&& values@.ty == ColumnType::Plain(element)
                    &&& values@.cells == cells_of(firsts(all_entries(column)))
                    &&& values@.well_formed()
                    &&& mappings.len() == batches@.len()
                    &&& forall|b: int|
                        0 <= b < mappings.len() ==> (#[trigger] mappings[b]).len()
                            == column[b].dictionary.len()
                    &&& forall|b: int, v: int|
                        0 <= b < mappings.len() && 0 <= v < mappings[b].len()
                            ==> #[trigger] mappings[b][v] == position(
                            firsts(all_entries(column)),
                            entries(column[b])[v].key,
                        )
                },
                Err(_) => !fits_offsets(
                    element,
                    sum_of(widths_of(firsts(all_entries(column)))),
                ),
            }
        }),
{
    let ghost field = schema_fields(*schema)[col_idx as int];
    let ghost e = field.ty.element();
    let ghost column = column_of(batches@, col_idx as int);
    let mut seen: SeenKeys = SeenKeys::new();
    let mut unique: Vec<ArrowArray> = Vec::new();
    let mut mappings: Vec<Vec<usize>> = Vec::new();
    let ghost mut done: Seq<Entry> = seq![];
    proof {
        assert(column.take(0) =~= Seq::<ArrayModel>::empty());
        assert(keys_of(firsts(done)) =~= Seq::<KeyModel>::empty());
        assert(cells_of(firsts(done)) =~= Seq::<Cell>::empty());
        assert(widths_of(firsts(done)) =~= Seq::<nat>::empty());
    }
    let mut batch_idx: usize = 0;
    while batch_idx < batches.len()
        invariant
            batch_idx <= batches.len(),
            batches@.len() == batches.len(),
            col_idx < schema_fields(*schema).len(),
            field == schema_fields(*schema)[col_idx as int],
            field.ty.key() == Some(key_type),
            e == field.ty.element(),
            column == column_of(batches@, col_idx as int),
            readable_column(field, batches@, col_idx as int),
            done == all_entries(column.take(batch_idx as int)),
            e is Nested ==> sum_of(widths_of(done)) <= bulks(column.take(batch_idx as int)),
            seen.well_formed(),
            seen@ == keys_of(firsts(done)),
            unique.len() == firsts(done).len(),
            joined(unique@) == cells_of(firsts(done)),
            counted(e) ==> joined_widths(unique@) == widths_of(firsts(done)),
            forall|i: int|
                0 <= i < unique.len() ==> (#[trigger] unique[i])@.ty == ColumnType::Plain(e),
            mappings.len() == batch_idx,
            forall|b: int|
                0 <= b < mappings.len() ==> (#[trigger] mappings[b]).len()
                    == column[b].dictionary.len(),
            forall|b: int|
                0 <= b < mappings.len() ==> leads(
                    (#[trigger] mappings[b])@,
                    entries(column[b]),
                    firsts(done),
                ),
        decreases batches.len() - batch_idx,
    {
        let col = batch_column(&batches[batch_idx], col_idx);
        assert(col@ == column[batch_idx as int]);
        let values = dict_values(&col, key_type);
        let num_values: usize = array_len(&values);
        let ghost here = entries(column[batch_idx as int]);
        let ghost before = done;
        let mut mapping: Vec<usize> = Vec::new();
        proof {
            assert(before + here.take(0) =~= before);
        }
        let mut val_idx: usize = 0;
        while val_idx < num_values
            invariant
                val_idx <= num_values,
                num_values == values@.cells.len(),
                values@.ty == ColumnType::Plain(e),
                constructible(e),
                values@.cells == column[batch_idx as int].dictionary,
                values@.texts == column[batch_idx as int].texts,
                values@.widths == column[batch_idx as int].widths,
                values@.well_formed(),
                column[batch_idx as int].ty.element() == e,
                here == entries(column[batch_idx as int]),
                done == before + here.take(val_idx as int),
                seen.well_formed(),
                seen@ == keys_of(firsts(done)),
                unique.len() == firsts(done).len(),
                joined(unique@) == cells_of(firsts(done)),
                counted(e) ==> joined_widths(unique@) == widths_of(firsts(done)),
                forall|i: int|
                    0 <= i < unique.len() ==> (#[trigger] unique[i])@.ty == ColumnType::Plain(e),
                mapping.len() == val_idx,
                leads(mapping@, here, firsts(done)),
                mappings.len() == batch_idx,
                forall|b: int|
                    0 <= b < mappings.len() ==> leads(
                        (#[trigger] mappings[b])@,
                        entries(column[b]),
                        firsts(done),
                    ),
            decreases num_values - val_idx,
        {
            let key = value_key(&values, val_idx);
            let ghost entry = here[val_idx as int];
            let ghost grown = firsts(done.push(entry));
            proof {
                assert(entry.key == key@);
                assert(entry.cell == values@.cells[val_idx as int]);
                lemma_firsts_grow(done, entry);
                assert(here.take(val_idx + 1) =~= here.take(val_idx as int).push(entry));
                assert(done.push(entry) =~= before + here.take(val_idx + 1));
                if keys_of(firsts(done)).contains(key@) {
                    let i = choose|i: int|
                        0 <= i < keys_of(firsts(done)).len() && keys_of(firsts(done))[i] == key@;
                    assert(firsts(done)[i].key == entry.key);
                } else if has_key(firsts(done), entry.key) {
                    let i = choose|i: int|
                        0 <= i < firsts(done).len() && (#[trigger] firsts(done)[i]).key
                            == entry.key;
                    assert(keys_of(firsts(done))[i] == key@);
                }
                assert(keys_of(firsts(done).push(entry)) =~= keys_of(firsts(done)).push(
                    entry.key,
                ));
            }
            let next_id: usize = seen.len();
            let unified_idx: usize = seen.place(key);
            assert(seen@ == keys_of(grown));
            if seen.len() > next_id {
                let sliced = slice_array(&values, val_idx, 1);
                let ghost earlier = unique@;
                unique.push(sliced);
                proof {
                    assert(unique@.drop_last() =~= earlier);
                    assert(sliced@.cells =~= seq![entry.cell]);
                    assert(joined(unique@) =~= cells_of(grown));
                    if counted(e) {
                        assert(sliced@.widths =~= seq![entry.width]);
                        assert(joined_widths(unique@) =~= widths_of(grown));
                    }
                }
            }
            mapping.push(unified_idx);
            proof {
                done = done.push(entry);
                assert(keys_of(grown)[unified_idx as int] == entry.key);
            }
            val_idx += 1;
        }
        proof {
            assert(here.take(num_values as int) =~= here);
            lemma_offset_step(column, batch_idx as int);
            if e is Nested {
                lemma_bulk_step(column, batch_idx as int);
            }
        }
        mappings.push(mapping);
        batch_idx += 1;
    }
    proof {
        assert(column.take(batch_idx as int) =~= column);
        lemma_firsts(done);
        assert forall|b: int, v: int|
            0 <= b < mappings.len() && 0 <= v
                < mappings[b].len() implies #[trigger] mappings[b][v] == position(
            firsts(all_entries(column)),
            entries(column[b])[v].key,
        ) by {
            assert(leads(mappings[b]@, entries(column[b]), firsts(done)));
            lemma_position(firsts(done), mappings[b]@[v] as int);
        }
    }
    if unique.len() == 0 {
        let values = empty_values(schema, col_idx);
        assert(values@.cells =~= cells_of(firsts(all_entries(column))));
        return Ok((values, mappings));
    }
    proof {
        lemma_firsts_keep_less(done);
        assert forall|i: int| 0 <= i < unique.len() implies (#[trigger] unique[i])@.ty
            == unique[0]@.ty by {
            assert(unique[0]@.ty == ColumnType::Plain(e));
        }
    }
    match concat_arrays(&unique) {
        Ok(values) => {
            assert(unique[0]@.ty == ColumnType::Plain(e));
            Ok((values, mappings))
        },
        Err(error) => {
            assert(unique[0]@.ty == ColumnType::Plain(e));
            Err(error)
        },
    }
}

/// The dictionaries of a column joined, and for each batch where its values begin.
fn joined_dict_values(
    schema: &Schema,
    batches: &[Batch],
    col_idx: usize,
    key_type: IndexType,
) -> (r: Result<(ArrowArray, Vec<usize>), ArrowError>)
    requires
        col_idx < schema_fields(*schema).len(),
        readable_column(schema_fields(*schema)[col_idx as int], batches@, col_idx as int),
        schema_fields(*schema)[col_idx as int].ty.key() == Some(key_type),
        dictionaries(column_of(batches@, col_idx as int)).len() <= usize::MAX,
    ensures
        ({
            let column = column_of(batches@, col_idx as int);
            let element = schema_fields(*schema)[col_idx as int].ty.element();
            match r {
                Ok((values, offsets)) => {
                    &&& values@.ty == ColumnType::Plain(element)
                    &&& values@.cells == dictionaries(column)
                    &&& values@.well_formed()
                    &&& offsets.len() == batches@.len()
                    &&& forall|b: int|
                        0 <= b < offsets.len() ==> #[trigger] offsets[b] == offset_of(column, b)
                },
                Err(_) => !fits_offsets(element, sum_of(widths_of(all_entries(column)))),
            }
        }),
{
    let ghost field = schema_fields(*schema)[col_idx as int];
    let ghost e = field.ty.element();
    let ghost column = column_of(batches@, col_idx as int);
    let mut value_refs: Vec<ArrowArray> = Vec::new();
    let mut batch_offsets: Vec<usize> = Vec::new();
    let mut total_values: usize = 0;
    proof {
        assert(column.take(0) =~= Seq::<ArrayModel>::empty());
        assert(widths_of(all_entries(column.take(0))) =~= Seq::<nat>::empty());
    }
    let mut b: usize = 0;
    while b < batches.len()
        invariant
            b <= batches.len(),
            batches@.len() == batches.len(),
            col_idx < schema_fields(*schema).len(),
            field == schema_fields(*schema)[col_idx as int],
            field.ty.key() == Some(key_type),
            e == field.ty.element(),
            column == column_of(batches@, col_idx as int),
            readable_column(field, batches@, col_idx as int),
            dictionaries(column).len() <= usize::MAX,
            total_values == offset_of(column, b as int),
            e is Nested ==> sum_of(widths_of(all_entries(column.take(b as int)))) <= bulks(
                column.take(b as int),
            ),
            value_refs.len() == b,
            joined(value_refs@) == dictionaries(column.take(b as int)),
            counted(e) ==> joined_widths(value_refs@) == widths_of(
                all_entries(column.take(b as int)),
            ),
            forall|i: int|
                0 <= i < value_refs.len() ==> (#[trigger] value_refs[i])@.ty
                    == ColumnType::Plain(e),
            batch_offsets.len() == b,
            forall|i: int| 0 <= i < b ==> #[trigger] batch_offsets[i] == offset_of(column, i),
        decreases batches.len() - b,
    {
        let col = batch_column(&batches[b], col_idx);
        assert(col@ == column[b as int]);
        let values = dict_values(&col, key_type);
        batch_offsets.push(total_values);
        proof {
            lemma_offset_step(column, b as int);
            lemma_offset_bound(column, b + 1);
        }
        total_values += array_len(&values);
        let ghost earlier = value_refs@;
        let ghost here = values@;
        value_refs.push(values);
        proof {
            assert(value_refs@.drop_last() =~= earlier);
            if counted(e) {
                assert(here.widths =~= widths_of(entries(column[b as int])));
                assert(joined_widths(value_refs@) =~= widths_of(
                    all_entries(column.take(b + 1)),
                ));
            }
            if e is Nested {
                lemma_bulk_step(column, b as int);
            }
        }
        b += 1;
    }
    assert(column.take(b as int) =~= column);
    if total_values == 0 {
        let values = empty_values(schema, col_idx);
        assert(values@.cells =~= dictionaries(column));
        return Ok((values, batch_offsets));
    }
    assert(value_refs.len() > 0);
    assert(value_refs[0]@.ty == ColumnType::Plain(e));
    assert forall|i: int| 0 <= i < value_refs.len() implies (#[trigger] value_refs[i])@.ty
        == value_refs[0]@.ty by {}
    match concat_arrays(&value_refs) {
        Ok(values) => Ok((values, batch_offsets)),
        Err(error) => Err(error),
    }
}

/// The columns of the batches without their dictionaries.
fn native_columns(batches: &[Batch], col_idx: usize, Ghost(field): Ghost<FieldModel>) -> (r: Result<
    Vec<ArrowArray>,
    ArrowError,
>)
    requires
        readable_column(field, batches@, col_idx as int),
    ensures
        ({
            let column = column_of(batches@, col_idx as int);
            match r {
                Ok(arrays) => {
                    &&& arrays.len() == batches@.len()
                    &&& forall|b: int|
                        0 <= b < arrays.len() ==> {
                            &&& (#[trigger] arrays[b])@.ty == ColumnType::Plain(field.ty.element())
                            &&& arrays[b]@.cells == column[b].cells
                            &&& arrays[b]@.well_formed()
                            &&& arrays[b]@.cells.len() == batch_rows(batches[b])
                        }
                },
                Err(_) => exists|b: int|
                    0 <= b < column.len() && !fits_offsets(
                        field.ty.element(),
                        native_bytes(#[trigger] column[b]),
                    ),
            }
        }),
{
    let ghost column = column_of(batches@, col_idx as int);
    let mut arrays: Vec<ArrowArray> = Vec::new();
    let mut b: usize = 0;
    while b < batches.len()
        invariant
            b <= batches.len(),
            batches@.len() == batches.len(),
            column == column_of(batches@, col_idx as int),
            readable_column(field, batches@, col_idx as int),
            arrays.len() == b,
            forall|i: int|
                0 <= i < b ==> {
                    &&& (#[trigger] arrays[i])@.ty == ColumnType::Plain(field.ty.element())
                    &&& arrays[i]@.cells == column[i].cells
                    &&& arrays[i]@.well_formed()
                    &&& arrays[i]@.cells.len() == batch_rows(batches[i])
                },
        decreases batches.len() - b,
    {
        let col = batch_column(&batches[b], col_idx);
        assert(col@ == column[b as int]);
        proof {
            lemma_bulk_of_one(column, b as int);
        }
        match cast_to_values(&col) {
            Ok(array) => arrays.push(array),
            Err(error) => {
                return Err(error);
            },
        }
        b += 1;
    }
    Ok(arrays)
}

/// Gives one dictionary column of all batches a shared dictionary.
fn unify_column(
    schema: &Schema,
    batches: &[Batch],
    col_idx: usize,
    key_type: IndexType,
    path: Path,
) -> (r: Result<UnifiedColumn, UnifyError>)
    requires
        col_idx < schema_fields(*schema).len(),
        readable_column(schema_fields(*schema)[col_idx as int], batches@, col_idx as int),
        schema_fields(*schema)[col_idx as int].ty.key() == Some(key_type),
        dictionaries(column_of(batches@, col_idx as int)).len() <= usize::MAX,
        path is Keep ==> dictionaries(column_of(batches@, col_idx as int)).len() <= capacity(
            key_type,
        ),
    ensures
        ({
            let column = column_of(batches@, col_idx as int);
            let field = schema_fields(*schema)[col_idx as int];
            match r {
                Ok(unified) => {
                    &&& unified.dict_len == unified_dictionary(path, column).len()
                    &&& unified.key == (if falls_back(path, key_type, column) {
                        None
                    } else {
                        Some(unified_key(path, key_type, column))
                    })
                    &&& unified.arrays.len() == batches@.len()
                    &&& forall|b: int|
                        0 <= b < unified.arrays.len() ==> {
                            &&& array_unified(
                                path,
                                field,
                                column,
                                b,
                                (#[trigger] unified.arrays[b])@,
                            )
                            &&& unified.arrays[b]@.cells.len() == batch_rows(batches[b])
                        }
                },
                Err(error) => !(error is Batch) && column_explains(error, path, field, column),
            }
        }),
{
    let ghost field = schema_fields(*schema)[col_idx as int];
    let ghost e = field.ty.element();
    let ghost column = column_of(batches@, col_idx as int);
    let ghost dict = unified_dictionary(path, column);
    let mut offsets: Vec<usize> = Vec::new();
    let mut mappings: Vec<Vec<usize>> = Vec::new();
    let values: ArrowArray;
    proof {
        lemma_entries_are_dictionaries(column);
        lemma_firsts(all_entries(column));
    }
    match path {
        Path::Dedup => {
            match dedup_dict_values(schema, batches, col_idx, key_type) {
                Ok((v, m)) => {
                    values = v;
                    mappings = m;
                },
                Err(error) => {
                    return Err(UnifyError::DedupConcat(error));
                },
            }
        },
        _ => {
            match joined_dict_values(schema, batches, col_idx, key_type) {
                Ok((v, o)) => {
                    values = v;
                    offsets = o;
                },
                Err(error) => {
                    return Err(UnifyError::Concat(error));
                },
            }
        },
    }
    let dict_len: usize = array_len(&values);
    assert(values@.cells == dict);
    let effective_key: IndexType = match path {
        Path::Keep => key_type,
        _ => widen_key_type(key_type, dict_len),
    };
    let native: bool = match path {
        Path::Keep => false,
        _ => exceeds_max_dict_key(effective_key),
    };
    if native {
        return match native_columns(batches, col_idx, Ghost(field)) {
            Ok(arrays) => Ok(UnifiedColumn { arrays, key: None, dict_len }),
            Err(error) => Err(UnifyError::Cast(error)),
        };
    }
    let mut arrays: Vec<ArrowArray> = Vec::new();
    let mut b: usize = 0;
    while b < batches.len()
        invariant
            b <= batches.len(),
            batches@.len() == batches.len(),
            col_idx < schema_fields(*schema).len(),
            field == schema_fields(*schema)[col_idx as int],
            field.ty.key() == Some(key_type),
            e == field.ty.element(),
            column == column_of(batches@, col_idx as int),
            dict == unified_dictionary(path, column),
            dict.len() <= usize::MAX,
            readable_column(field, batches@, col_idx as int),
            values@.ty == ColumnType::Plain(e),
            values@.cells == dict,
            effective_key == unified_key(path, key_type, column),
            !falls_back(path, key_type, column),
            batches.len() > 0 ==> supported(effective_key),
            dict.len() <= capacity(effective_key),
            path is Dedup ==> {
                &&& mappings.len() == batches@.len()
                &&& forall|i: int|
                    0 <= i < mappings.len() ==> (#[trigger] mappings[i]).len()
                        == column[i].dictionary.len()
                &&& forall|i: int, v: int|
                    0 <= i < mappings.len() && 0 <= v < mappings[i].len()
                        ==> #[trigger] mappings[i][v] == position(
                        firsts(all_entries(column)),
                        entries(column[i])[v].key,
                    )
            },
            !(path is Dedup) ==> {
                &&& offsets.len() == batches@.len()
                &&& forall|i: int|
                    0 <= i < offsets.len() ==> #[trigger] offsets[i] == offset_of(column, i)
            },
            arrays.len() == b,
            forall|i: int|
                0 <= i < b ==> {
                    &&& array_unified(path, field, column, i, (#[trigger] arrays[i])@)
                    &&& arrays[i]@.cells.len() == batch_rows(batches[i])
                },
        decreases batches.len() - b,
    {
        let col = batch_column(&batches[b], col_idx);
        assert(col@ == column[b as int]);
        let array: ArrowArray = match path {
            Path::Dedup => {
                proof {
                    assert forall|i: int| 0 <= i < col@.keys.len() implies (
                    #[trigger] col@.keys[i] matches Some(k) ==> {
                        &&& k < mappings[b as int].len()
                        &&& mappings[b as int][k as int] < dict.len()
                        &&& mappings[b as int][k as int] as nat % capacity(effective_key)
                            == mappings[b as int][k as int]
                    }) by {
                        if let Some(k) = col@.keys[i] {
                            lemma_mapped_in_range(column, b as int, k as int);
                            let m = mappings[b as int][k as int];
                            lemma_small(m as nat, capacity(effective_key));
                        }
                    }
                }
                let array = remap_dict_keys_with_mapping(
                    &col,
                    key_type,
                    effective_key,
                    &values,
                    &mappings[b],
                );
                proof {
                    assert forall|i: int| 0 <= i < array@.keys.len() implies #[trigger] array@.keys[i]
                        == renumbered(path, column, b as int, column[b as int].keys[i]) by {
                        assert(array@.keys[i] == truncated(
                            mapped(col@.keys[i], mappings[b as int]@),
                            effective_key,
                        ));
                    }
                }
                array
            },
            _ => {
                proof {
                    lemma_offset_bound(column, b as int);
                    assert forall|i: int| 0 <= i < col@.keys.len() implies (
                    #[trigger] col@.keys[i] matches Some(k) ==> {
                        &&& k + offsets[b as int] < dict.len()
                        &&& (k + offsets[b as int]) % (capacity(effective_key) as int) == k
                            + offsets[b as int]
                    }) by {
                        if let Some(k) = col@.keys[i] {
                            lemma_offset_locates(column, b as int, k as int);
                            lemma_small(
                                (k + offsets[b as int]) as nat,
                                capacity(effective_key),
                            );
                        }
                    }
                }
                let array = remap_dict_keys(&col, key_type, effective_key, &values, offsets[b]);
                proof {
                    assert forall|i: int| 0 <= i < array@.keys.len() implies #[trigger] array@.keys[i]
                        == renumbered(path, column, b as int, column[b as int].keys[i]) by {
                        assert(array@.keys[i] == truncated(
                            moved(col@.keys[i], offsets[b as int] as nat),
                            effective_key,
                        ));
                        if let Some(k) = col@.keys[i] {
                            assert(k + offsets[b as int] < dict.len());
                        }
                    }
                }
                array
            },
        };
        arrays.push(array);
        b += 1;
    }
    Ok(UnifiedColumn { arrays, key: Some(effective_key), dict_len })
}

proof fn lemma_small(a: nat, m: nat)
    requires
        a < m,
    ensures
        a % m == a,
        (a as int) % (m as int) == a,
{
    vstd::arithmetic::div_mod::lemma_small_mod(a, m);
}

proof fn lemma_mapped_in_range(column: Seq<ArrayModel>, b: int, v: int)
    requires
        0 <= b < column.len(),
        0 <= v < column[b].dictionary.len(),
    ensures
        0 <= position(firsts(all_entries(column)), entries(column[b])[v].key) < firsts(
            all_entries(column),
        ).len(),
{
    let all = all_entries(column);
    lemma_entry_occurs(column, b, v);
    lemma_firsts(all);
    let i = choose|i: int| 0 <= i < all.len() && #[trigger] all[i] == entries(column[b])[v];
    assert(has_key(firsts(all), all[i].key));
}

/// The columns of the batches as they are.
fn plain_columns(batches: &[Batch], col_idx: usize) -> (r: Vec<ArrowArray>)
    requires
        forall|b: int|
            0 <= b < batches@.len() ==> col_idx < batch_columns(#[trigger] batches@[b]).len(),
    ensures
        r.len() == batches@.len(),
        forall|b: int|
            0 <= b < r.len() ==> {
                &&& (#[trigger] r[b])@ == column_of(batches@, col_idx as int)[b]
                &&& r[b]@.cells.len() == batch_rows(batches[b])
            },
{
    let mut r: Vec<ArrowArray> = Vec::new();
    let mut b: usize = 0;
    while b < batches.len()
        invariant
            b <= batches.len(),
            batches@.len() == batches.len(),
            forall|i: int|
                0 <= i < batches@.len() ==> col_idx < batch_columns(#[trigger] batches@[i]).len(),
            r.len() == b,
            forall|i: int|
                0 <= i < b ==> {
                    &&& (#[trigger] r[i])@ == column_of(batches@, col_idx as int)[i]
                    &&& r[i]@.cells.len() == batch_rows(batches[i])
                },
        decreases batches.len() - b,
    {
        r.push(batch_column(&batches[b], col_idx));
        b += 1;
    }
    r
}

/// The outcome of a unification.
pub struct UnifyResult {
    /// The batches with one dictionary per column.
    pub batches: Vec<Batch>,
    /// Their schema: the one before, but for the columns whose key type was widened or that lost
    /// their dictionary.
    pub schema: Arc<Schema>,
    /// How many values the shared dictionaries have together.
    pub unified_dict_len: usize,
    /// Whether a key type was widened.
    pub key_widened: bool,
    /// Whether a column lost its dictionary.
    pub native_fallback: bool,
}

impl UnifyResult {
    /// The fields of the schema.
    pub open spec fn fields(&self) -> Seq<FieldModel> {
        schema_fields(*self.schema)
    }

    /// Whether this is the unification of batches by one path per column.
    pub open spec fn is_unification(
        self,
        schema: Schema,
        batches: Seq<Batch>,
        paths: Seq<Path>,
    ) -> bool {
        let fields = schema_fields(schema);
        &&& unifies(schema, batches, paths, *self.schema, self.batches@)
        &&& self.unified_dict_len == unified_lens(fields, batches, paths, fields.len())
        &&& self.key_widened == any_widened(fields, batches, paths, fields.len() as int)
        &&& self.native_fallback == any_native(fields, batches, paths, fields.len() as int)
    }
}

/// What a unification by one path per column returns: the unification, or an error with its
/// cause; and where nothing stands in the way, the unification.
pub open spec fn unification_outcome(
    schema: Schema,
    batches: Seq<Batch>,
    paths: Seq<Path>,
    r: Result<UnifyResult, UnifyError>,
) -> bool {
    &&& match r {
        Ok(result) => result.is_unification(schema, batches, paths),
        Err(error) => explains(error, schema_fields(schema), batches, paths),
    }
    &&& unifiable(schema_fields(schema), batches, paths) ==> r is Ok
}

/// The shared dictionaries are no longer than all dictionaries together.
proof fn lemma_lens(fields: Seq<FieldModel>, batches: Seq<Batch>, paths: Seq<Path>, n: nat)
    ensures
        unified_lens(fields, batches, paths, n) <= total_lens(fields, batches, n),
    decreases n,
{
    if n > 0 {
        let c = n - 1;
        lemma_lens(fields, batches, paths, c as nat);
        let column = column_of(batches, c);
        lemma_entries_are_dictionaries(column);
        lemma_firsts(all_entries(column));
    }
}

/// The dictionaries of fewer columns are no longer together.
proof fn lemma_totals(fields: Seq<FieldModel>, batches: Seq<Batch>, m: nat, n: nat)
    requires
        m <= n,
    ensures
        total_lens(fields, batches, m) <= total_lens(fields, batches, n),
    decreases n - m,
{
    if m < n {
        lemma_totals(fields, batches, m + 1, n);
    }
}

/// The nulls of a unified array are those of the array before.
proof fn lemma_nulls(
    path: Path,
    field: FieldModel,
    column: Seq<ArrayModel>,
    b: int,
    new: ArrayModel,
)
    requires
        array_unified(path, field, column, b, new),
        0 <= b < column.len(),
        column[b].ty == field.ty,
    ensures
        new.marks_null() ==> if column_native(path, field, column) {
            has_null(column[b])
        } else {
            column[b].marks_null()
        },
{
    if new.marks_null() && field.ty is Dictionary {
        if new.ty is Dictionary {
            let i = choose|i: int| 0 <= i < new.keys.len() && #[trigger] new.keys[i] is None;
            assert(new.keys[i] == renumbered(path, column, b, column[b].keys[i]));
            assert(column[b].keys[i] is None);
        } else {
            let i = choose|i: int| 0 <= i < new.cells.len() && #[trigger] new.cells[i] is Null;
            assert(column[b].cells[i] is Null);
        }
    }
}

/// Whether the new columns, column by column and batch by batch, are unified.
spec fn columns_unified(
    fields: Seq<FieldModel>,
    batches: Seq<Batch>,
    paths: Seq<Path>,
    columns: Seq<Vec<ArrowArray>>,
) -> bool {
    &&& forall|c: int| 0 <= c < columns.len() ==> (#[trigger] columns[c]).len() == batches.len()
    &&& forall|c: int, b: int|
        0 <= c < columns.len() && 0 <= b < batches.len() ==> {
            &&& array_unified(
                paths[c],
                fields[c],
                column_of(batches, c),
                b,
                (#[trigger] columns[c][b])@,
            )
            &&& columns[c][b]@.cells.len() == batch_rows(batches[b])
        }
}

/// Makes one batch of the new columns.
fn assemble_batch(
    schema: &Arc<Schema>,
    columns: &Vec<Vec<ArrowArray>>,
    b: usize,
    Ghost(fields): Ghost<Seq<FieldModel>>,
    Ghost(batches): Ghost<Seq<Batch>>,
    Ghost(paths): Ghost<Seq<Path>>,
) -> (r: Result<Batch, UnifyError>)
    requires
        b < batches.len(),
        conforming(fields, batches),
        paths.len() == fields.len(),
        columns.len() == fields.len(),
        columns_unified(fields, batches, paths, columns@),
        schema_fields(**schema) == unified_fields(fields, batches, paths),
    ensures
        match r {
            Ok(batch) => batch_unified(fields, batches, paths, b as int, batch),
            Err(error) => error is Batch && explains(error, fields, batches, paths),
        },
{
    let mut cols: Vec<ArrowArray> = Vec::new();
    let mut c: usize = 0;
    while c < columns.len()
        invariant
            c <= columns.len(),
            b < batches.len(),
            forall|i: int|
                0 <= i < columns.len() ==> (#[trigger] columns[i]).len() == batches.len(),
            cols.len() == c,
            forall|i: int| 0 <= i < c ==> (#[trigger] cols[i])@ == columns[i][b as int]@,
        decreases columns.len() - c,
    {
        cols.push(share_array(&columns[c][b]));
        c += 1;
    }
    let ghost contents = contents_of(cols@);
    let ghost new_fields = fields_of(schema);
    proof {
        assert forall|i: int| 0 <= i < contents.len() implies {
            &&& (#[trigger] contents[i]).cells.len() == batch_rows(batches[b as int])
            &&& contents[i].ty == new_fields[i].ty
            &&& array_unified(paths[i], fields[i], column_of(batches, i), b as int, contents[i])
        } by {
            assert(cols[i]@ == columns[i][b as int]@);
            assert(column_of(batches, i)[b as int] == batch_columns(batches[b as int])[i]);
            assert(batch_columns(batches[b as int])[i].ty == fields[i].ty);
        }
        if fields.len() > 0 {
            assert(contents[0].cells.len() == batch_rows(batches[b as int]));
            if !fits_schema(new_fields, contents) {
                let i = choose|i: int|
                    0 <= i < contents.len() && !{
                        &&& (#[trigger] contents[i]).cells.len() == contents[0].cells.len()
                        &&& contents[i].ty == new_fields[i].ty
                        &&& new_fields[i].nullable || !contents[i].marks_null()
                    };
                let column = column_of(batches, i);
                assert(column[b as int] == batch_columns(batches[b as int])[i]);
                assert(column[b as int].ty == fields[i].ty);
                lemma_nulls(paths[i], fields[i], column, b as int, contents[i]);
                assert(null_clash(paths[i], fields[i], column));
            }
        }
    }
    match new_batch(schema, cols) {
        Ok(batch) => Ok(batch),
        Err(error) => {
            let error = UnifyError::Batch(error);
            proof {
                if fields.len() > 0 {
                    let i = choose|i: int|
                        0 <= i < fields.len() && null_clash(
                            paths[i],
                            #[trigger] fields[i],
                            column_of(batches, i),
                        );
                    assert(column_explains(error, paths[i], fields[i], column_of(batches, i)));
                }
            }
            Err(error)
        },
    }
}

/// Unifies the batches by one path per column.
fn unify_with(schema: &Arc<Schema>, batches: &[Batch], paths: &Vec<Path>) -> (r: Result<
    UnifyResult,
    UnifyError,
>)
    requires
        conforming(schema_fields(**schema), batches@),
        paths.len() == schema_fields(**schema).len(),
        keeps_suffice(schema_fields(**schema), batches@, paths@),
    ensures
        unification_outcome(**schema, batches@, paths@, r),
{
    let ghost fields = fields_of(schema);
    let num_cols: usize = schema_len(schema);
    let mut column_data: Vec<Vec<ArrowArray>> = Vec::new();
    let mut new_fields: SchemaBuilder = new_schema();
    take_metadata(&mut new_fields, schema);
    let mut any_key_widened: bool = false;
    let mut any_native_fallback: bool = false;
    let mut total_dict_len: usize = 0;
    let mut c: usize = 0;
    proof {
        assert(unified_fields(fields, batches@, paths@).take(0) =~= Seq::<FieldModel>::empty());
    }
    while c < num_cols
        invariant
            c <= num_cols,
            fields == schema_fields(**schema),
            num_cols == fields.len(),
            conforming(fields, batches@),
            paths.len() == fields.len(),
            keeps_suffice(fields, batches@, paths@),
            column_data.len() == c,
            columns_unified(fields, batches@, paths@, column_data@),
            builder_fields(new_fields) == unified_fields(fields, batches@, paths@).take(c as int),
            builder_metadata(new_fields) == schema_metadata(**schema),
            total_dict_len == unified_lens(fields, batches@, paths@, c as nat),
            any_key_widened == any_widened(fields, batches@, paths@, c as int),
            any_native_fallback == any_native(fields, batches@, paths@, c as int),
        decreases num_cols - c,
    {
        let ghost column = column_of(batches@, c as int);
        let ghost path = paths[c as int];
        let ghost field = fields[c as int];
        proof {
            lemma_lens(fields, batches@, paths@, (c + 1) as nat);
            lemma_totals(fields, batches@, (c + 1) as nat, fields.len());
            assert(unified_fields(fields, batches@, paths@).take(c + 1) =~= unified_fields(
                fields,
                batches@,
                paths@,
            ).take(c as int).push(unified_field(path, field, column)));
            assert forall|b: int| 0 <= b < batches@.len() implies {
                &&& c < batch_columns(#[trigger] batches@[b]).len()
                &&& batch_columns(batches@[b])[c as int].ty == field.ty
            } by {}
            if any_widened(fields, batches@, paths@, c + 1) && !any_widened(
                fields,
                batches@,
                paths@,
                c as int,
            ) {
                assert(column_widened(path, field, column));
            }
            if any_native(fields, batches@, paths@, c + 1) && !any_native(
                fields,
                batches@,
                paths@,
                c as int,
            ) {
                assert(column_native(path, field, column));
            }
        }
        match dictionary_key(schema, c) {
            Some(key_type) => {
                proof {
                    assert(fields[c as int].ty is Dictionary);
                    assert(readable_column(field, batches@, c as int));
                }
                match unify_column(schema, batches, c, key_type, paths[c]) {
                    Ok(unified) => {
                        proof {
                            assert(unified.dict_len == unified_dictionary(path, column).len());
                        }
                        total_dict_len += unified.dict_len;
                        match unified.key {
                            None => {
                                any_native_fallback = true;
                                push_native_field(&mut new_fields, schema, c);
                                assert(column_native(paths[c as int], field, column));
                            },
                            Some(effective_key) => {
                                if effective_key != key_type {
                                    any_key_widened = true;
                                    assert(column_widened(paths[c as int], field, column));
                                    proof {
                                        lemma_rekeyed(path, field, column);
                                    }
                                    push_rekeyed_field(
                                        &mut new_fields,
                                        schema,
                                        c,
                                        effective_key,
                                    );
                                } else {
                                    push_field(&mut new_fields, schema, c);
                                    assert(unified_field(path, field, column) == field);
                                }
                            },
                        }
                        column_data.push(unified.arrays);
                    },
                    Err(error) => {
                        proof {
                            assert(column_explains(error, paths[c as int], field, column));
                            lemma_explained(error, fields, batches@, paths@);
                        }
                        return Err(error);
                    },
                }
            },
            None => {
                let cols = plain_columns(batches, c);
                column_data.push(cols);
                push_field(&mut new_fields, schema, c);
            },
        }
        c += 1;
    }
    proof {
        assert(unified_fields(fields, batches@, paths@).take(c as int) =~= unified_fields(
            fields,
            batches@,
            paths@,
        ));
    }
    let new_schema: Arc<Schema> = finish_schema(new_fields);
    let mut new_batches: Vec<Batch> = Vec::new();
    let mut b: usize = 0;
    while b < batches.len()
        invariant
            b <= batches.len(),
            batches@.len() == batches.len(),
            conforming(fields, batches@),
            paths.len() == fields.len(),
            column_data.len() == fields.len(),
            columns_unified(fields, batches@, paths@, column_data@),
            schema_fields(*new_schema) == unified_fields(fields, batches@, paths@),
            schema_metadata(*new_schema) == schema_metadata(**schema),
            fields == schema_fields(**schema),
            new_batches.len() == b,
            forall|i: int|
                0 <= i < b ==> batch_unified(
                    fields,
                    batches@,
                    paths@,
                    i,
                    #[trigger] new_batches[i],
                ),
        decreases batches.len() - b,
    {
        match assemble_batch(
            &new_schema,
            &column_data,
            b,
            Ghost(fields),
            Ghost(batches@),
            Ghost(paths@),
        ) {
            Ok(batch) => new_batches.push(batch),
            Err(error) => {
                proof {
                    lemma_explained(error, fields, batches@, paths@);
                }
                return Err(error);
            },
        }
        b += 1;
    }
    Ok(
        UnifyResult {
            batches: new_batches,
            schema: new_schema,
            unified_dict_len: total_dict_len,
            key_widened: any_key_widened,
            native_fallback: any_native_fallback,
        },
    )
}

/// A key type that is widened and not too wide has sixteen bits.
proof fn lemma_rekeyed(path: Path, field: FieldModel, column: Seq<ArrayModel>)
    requires
        column_widened(path, field, column),
        column.len() == 0 ==> unified_dictionary(path, column).len() == 0,
        column.len() > 0 ==> supported(field.ty->Dictionary_0),
    ensures
        unified_key(path, field.ty->Dictionary_0, column) is UInt16,
{
}

/// How many values the dictionaries of a column have together.
fn total_dict_values(
    schema: &Schema,
    batches: &[Batch],
    col_idx: usize,
    key_type: IndexType,
) -> (r: usize)
    requires
        col_idx < schema_fields(*schema).len(),
        readable_column(schema_fields(*schema)[col_idx as int], batches@, col_idx as int),
        schema_fields(*schema)[col_idx as int].ty.key() == Some(key_type),
        dictionaries(column_of(batches@, col_idx as int)).len() <= usize::MAX,
    ensures
        r == dictionaries(column_of(batches@, col_idx as int)).len(),
{
    let ghost field = schema_fields(*schema)[col_idx as int];
    let ghost column = column_of(batches@, col_idx as int);
    let mut total_values: usize = 0;
    proof {
        assert(column.take(0) =~= Seq::<ArrayModel>::empty());
    }
    let mut b: usize = 0;
    while b < batches.len()
        invariant
            b <= batches.len(),
            batches@.len() == batches.len(),
            field.ty.key() == Some(key_type),
            column == column_of(batches@, col_idx as int),
            readable_column(field, batches@, col_idx as int),
            dictionaries(column).len() <= usize::MAX,
            total_values == offset_of(column, b as int),
        decreases batches.len() - b,
    {
        let col = batch_column(&batches[b], col_idx);
        assert(col@ == column[b as int]);
        proof {
            lemma_offset_step(column, b as int);
            lemma_offset_bound(column, b + 1);
        }
        total_values += array_len(&dict_values(&col, key_type));
        b += 1;
    }
    assert(column.take(b as int) =~= column);
    total_values
}

/// What `conforming` says of one dictionary column.
proof fn lemma_conforming_column(fields: Seq<FieldModel>, batches: Seq<Batch>, c: int)
    requires
        conforming(fields, batches),
        0 <= c < fields.len(),
        fields[c].ty is Dictionary,
    ensures
        readable_column(fields[c], batches, c),
        dictionaries(column_of(batches, c)).len() <= usize::MAX,
{
    lemma_totals(fields, batches, (c + 1) as nat, fields.len());
    assert forall|b: int| 0 <= b < batches.len() implies {
        &&& c < batch_columns(#[trigger] batches[b]).len()
        &&& batch_columns(batches[b])[c].ty == fields[c].ty
    } by {}
}

/// One path for all columns.
fn uniform_paths(schema: &Schema, path: Path) -> (r: Vec<Path>)
    ensures
        r@ == same_path(schema_fields(*schema), path),
{
    let num_cols: usize = schema_len(schema);
    let mut paths: Vec<Path> = Vec::new();
    let mut c: usize = 0;
    while c < num_cols
        invariant
            c <= num_cols,
            paths.len() == c,
            forall|i: int| 0 <= i < c ==> paths[i] == path,
        decreases num_cols - c,
    {
        paths.push(path);
        c += 1;
    }
    assert(paths@ =~= same_path(schema_fields(*schema), path));
    paths
}

/// Joins the dictionaries of each column, without looking for values that occur twice.
pub fn unify_concat(schema: &Arc<Schema>, batches: &[Batch]) -> (r: Result<UnifyResult, UnifyError>)
    requires
        conforming(schema_fields(**schema), batches@),
    ensures
        unification_outcome(
            **schema,
            batches@,
            same_path(schema_fields(**schema), Path::Concat),
            r,
        ),
{
    let paths = uniform_paths(schema, Path::Concat);
    unify_with(schema, batches, &paths)
}

/// Takes the distinct values of each column for its dictionary.
pub fn unify_dedup(schema: &Arc<Schema>, batches: &[Batch]) -> (r: Result<UnifyResult, UnifyError>)
    requires
        conforming(schema_fields(**schema), batches@),
    ensures
        unification_outcome(
            **schema,
            batches@,
            same_path(schema_fields(**schema), Path::Dedup),
            r,
        ),
{
    let paths = uniform_paths(schema, Path::Dedup);
    unify_with(schema, batches, &paths)
}

/// Takes the distinct values of a column only where its keys do not suffice for all values, that
/// is, where its key type would be widened or its dictionary lost.
pub fn unify_threshold(schema: &Arc<Schema>, batches: &[Batch]) -> (r: Result<
    UnifyResult,
    UnifyError,
>)
    requires
        conforming(schema_fields(**schema), batches@),
    ensures
        unification_outcome(
            **schema,
            batches@,
            threshold_paths(schema_fields(**schema), batches@),
            r,
        ),
{
    let ghost fields = fields_of(schema);
    let num_cols: usize = schema_len(schema);
    let mut paths: Vec<Path> = Vec::new();
    let mut c: usize = 0;
    while c < num_cols
        invariant
            c <= num_cols,
            fields == schema_fields(**schema),
            num_cols == fields.len(),
            conforming(fields, batches@),
            paths.len() == c,
            forall|i: int|
                0 <= i < c ==> #[trigger] paths[i] == threshold_path(
                    fields[i],
                    column_of(batches@, i),
                ),
        decreases num_cols - c,
    {
        let path: Path = match dictionary_key(schema, c) {
            Some(key_type) => {
                proof {
                    lemma_conforming_column(fields, batches@, c as int);
                }
                let total_values: usize = total_dict_values(schema, batches, c, key_type);
                if total_values as u64 > key_type_capacity(key_type) {
                    Path::Dedup
                } else {
                    Path::Keep
                }
            },
            None => Path::Keep,
        };
        paths.push(path);
        c += 1;
    }
    assert(paths@ =~= threshold_paths(fields, batches@));
    unify_with(schema, batches, &paths)
}

/// The average dictionary length up to which [`unify_selective`] takes the distinct values of a
/// column.
pub const SELECTIVE_DEDUP_PER_BATCH_THRESHOLD: usize = 256;

/// Takes the distinct values of a column where its dictionaries are short, on average at most
/// [`SELECTIVE_DEDUP_PER_BATCH_THRESHOLD`] values long.
pub fn unify_selective(schema: &Arc<Schema>, batches: &[Batch]) -> (r: Result<
    UnifyResult,
    UnifyError,
>)
    requires
        conforming(schema_fields(**schema), batches@),
    ensures
        unification_outcome(
            **schema,
            batches@,
            selective_paths(256, schema_fields(**schema), batches@),
            r,
        ),
{
    unify_selective_with_threshold(schema, batches, SELECTIVE_DEDUP_PER_BATCH_THRESHOLD)
}

/// Takes the distinct values of a column where its dictionaries are on average at most
/// `threshold` values long; the other columns are joined as they are.
pub fn unify_selective_with_threshold(
    schema: &Arc<Schema>,
    batches: &[Batch],
    threshold: usize,
) -> (r: Result<UnifyResult, UnifyError>)
    requires
        conforming(schema_fields(**schema), batches@),
    ensures
        unification_outcome(
            **schema,
            batches@,
            selective_paths(threshold as nat, schema_fields(**schema), batches@),
            r,
        ),
{
    let ghost fields = fields_of(schema);
    let num_cols: usize = schema_len(schema);
    let num_batches: usize = batches.len();
    let mut paths: Vec<Path> = Vec::new();
    let mut c: usize = 0;
    while c < num_cols
        invariant
            c <= num_cols,
            fields == schema_fields(**schema),
            num_cols == fields.len(),
            num_batches == batches@.len(),
            conforming(fields, batches@),
            paths.len() == c,
            forall|i: int|
                0 <= i < c ==> #[trigger] paths[i] == selective_path(
                    threshold as nat,
                    fields[i],
                    column_of(batches@, i),
                ),
        decreases num_cols - c,
    {
        let path: Path = match dictionary_key(schema, c) {
            Some(key_type) => {
                proof {
                    lemma_conforming_column(fields, batches@, c as int);
                }
                let total_values: usize = total_dict_values(schema, batches, c, key_type);
                let avg_per_batch: usize = if num_batches > 0 {
                    total_values / num_batches
                } else {
                    0
                };
                if avg_per_batch <= threshold {
                    Path::Dedup
                } else {
                    Path::Concat
                }
            },
            None => Path::Concat,
        };
        paths.push(path);
        c += 1;
    }
    assert(paths@ =~= selective_paths(threshold as nat, fields, batches@));
    unify_with(schema, batches, &paths)
}

/// Whether record batches can be unified by a schema: see [`conforming`].
pub fn conforms(schema: &Arc<Schema>, batches: &[Batch]) -> (r: bool)
    ensures
        r == conforming(schema_fields(**schema), batches@),
{
    let ghost fields = fields_of(schema);
    let num_cols: usize = schema_len(schema);
    let mut b: usize = 0;
    while b < batches.len()
        invariant
            b <= batches.len(),
            batches@.len() == batches.len(),
            fields == schema_fields(**schema),
            num_cols == fields.len(),
            forall|i: int|
                0 <= i < b ==> batch_columns(#[trigger] batches@[i]).len() >= fields.len(),
        decreases batches.len() - b,
    {
        if column_count(&batches[b]) < num_cols {
            return false;
        }
        b += 1;
    }
    let mut total: usize = 0;
    let mut c: usize = 0;
    while c < num_cols
        invariant
            c <= num_cols,
            batches@.len() == batches.len(),
            fields == schema_fields(**schema),
            num_cols == fields.len(),
            forall|i: int|
                0 <= i < batches@.len() ==> batch_columns(#[trigger] batches@[i]).len()
                    >= fields.len(),
            forall|i: int|
                0 <= i < c && (#[trigger] fields[i]).ty is Dictionary ==> constructible(
                    fields[i].ty.element(),
                ),
            batches@.len() > 0 ==> forall|i: int|
                0 <= i < c ==> ((#[trigger] fields[i]).ty matches ColumnType::Dictionary(k, _)
                    ==> supported(k)),
            forall|j: int, i: int|
                0 <= j < batches@.len() && 0 <= i < c ==> (#[trigger] batch_columns(
                    batches@[j],
                )[i]).ty == fields[i].ty,
            forall|i: int|
                0 <= i < c && (#[trigger] fields[i]).ty is Dictionary ==> countable(
                    fields[i].ty.element(),
                    column_of(batches@, i),
                ),
            total == total_lens(fields, batches@, c as nat),
        decreases num_cols - c,
    {
        let ghost column = column_of(batches@, c as int);
        let ghost before = total;
        let key: Option<IndexType> = dictionary_key(schema, c);
        if let Some(key_type) = key {
            if !can_construct(schema, c) {
                return false;
            }
            if batches.len() > 0 && !(key_type == IndexType::UInt8 || key_type
                == IndexType::UInt16) {
                return false;
            }
        }
        proof {
            assert(column.take(0) =~= Seq::<ArrayModel>::empty());
            lemma_totals(fields, batches@, (c + 1) as nat, fields.len());
        }
        let nested: bool = element_type(schema, c).is_none() && !single_valued(schema, c);
        let mut held: usize = 0;
        let mut b: usize = 0;
        while b < batches.len()
            invariant
                b <= batches.len(),
                c < num_cols,
                batches@.len() == batches.len(),
                fields == schema_fields(**schema),
                num_cols == fields.len(),
                column == column_of(batches@, c as int),
                key == fields[c as int].ty.key(),
                key is Some ==> constructible(fields[c as int].ty.element()),
                nested == (fields[c as int].ty.element() is Nested),
                key is Some && nested ==> held == bulks(column.take(b as int)) && held <= i32::MAX,
                batches@.len() > 0 ==> (fields[c as int].ty matches ColumnType::Dictionary(k, _)
                    ==> supported(k)),
                forall|i: int|
                    0 <= i < batches@.len() ==> batch_columns(#[trigger] batches@[i]).len()
                        >= fields.len(),
                forall|j: int|
                    0 <= j < b ==> (#[trigger] batch_columns(batches@[j])[c as int]).ty
                        == fields[c as int].ty,
                before == total_lens(fields, batches@, c as nat),
                total_lens(fields, batches@, (c + 1) as nat) <= total_lens(
                    fields,
                    batches@,
                    fields.len(),
                ),
                total == before + (if key is Some {
                    offset_of(column, b as int)
                } else {
                    0
                }),
            decreases batches.len() - b,
        {
            let col = batch_column(&batches[b], c);
            assert(col@ == column[b as int]);
            if !has_field_type(&col, schema, c) {
                assert(batch_columns(batches@[b as int])[c as int].ty != fields[c as int].ty);
                return false;
            }
            if let Some(key_type) = key {
                let values = dict_values(&col, key_type);
                let len: usize = array_len(&values);
                proof {
                    lemma_offset_step(column, b as int);
                    lemma_offset_bound(column, b + 1);
                    lemma_bulks_grow(column, b + 1);
                    assert(column.take(b + 1).drop_last() =~= column.take(b as int));
                }
                if nested {
                    let more: Option<usize> = match bulk_of(&values) {
                        Some(n) => held.checked_add(n),
                        None => None,
                    };
                    match more {
                        Some(sum) if sum <= 0x7fff_ffff => {
                            held = sum;
                        },
                        _ => {
                            assert(!countable(fields[c as int].ty.element(), column));
                            return false;
                        },
                    }
                }
                match total.checked_add(len) {
                    Some(sum) => {
                        total = sum;
                    },
                    None => {
                        return false;
                    },
                }
            }
            b += 1;
        }
        assert(column.take(b as int) =~= column);
        c += 1;
    }
    true
}

} // verus!
