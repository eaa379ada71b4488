//! What holds of every unification.

use arrow_schema::Schema;
use vstd::prelude::*;

use crate::arrow::{batch_columns, batch_rows, schema_fields, schema_metadata, Batch};
use crate::columns::supported;
use crate::entries::{
    all_entries, cells_of, dictionaries, distinct_keys, entries, firsts, has_key,
    lemma_entries_are_dictionaries, lemma_entry_occurs, lemma_firsts, lemma_offset_locates,
    position, Entry,
};
use crate::encoding::{encodable, fields_weight};
use crate::ipc::{
    batches_typed, columns_list, columns_typed, nulls_allowed, one_dictionary_each,
    reader_accepts, reader_knows, reader_takes,
};
use crate::model::{decoded, is_of, ArrayModel, ColumnType, Element, ElementType, FieldModel};
use crate::unification::{
    any_native, any_widened, array_unified, average_len, batch_unified, column_native, column_of,
    column_widened, conforming, falls_back, renumbered, rows_list, same_path, selective_paths,
    threshold_path, unified_dictionary, unified_field, unified_fields, unified_lens, Path,
};
use crate::unify::UnifyResult;
use crate::value_key::{key_of, keys_tell_values_apart, self_keyed};

verus! {

/// Whether all columns of record batches are well-formed arrays with one position per row.
pub open spec fn valid(batches: Seq<Batch>) -> bool {
    forall|b: int, c: int|
        0 <= b < batches.len() && 0 <= c < batch_columns(batches[b]).len() ==> {
            &&& (#[trigger] batch_columns(batches[b])[c]).well_formed()
            &&& batch_columns(batches[b])[c].cells.len() == batch_rows(batches[b])
        }
}

/// Whether dictionary values of a column with one key are one value.
pub open spec fn tells_apart(column: Seq<ArrayModel>) -> bool {
    forall|i: int, j: int|
        0 <= i < all_entries(column).len() && 0 <= j < all_entries(column).len()
            && (#[trigger] all_entries(column)[i]).key == (#[trigger] all_entries(column)[j]).key
            ==> all_entries(column)[i].cell == all_entries(column)[j].cell
}

/// The keys of texts, binary values of one size, 32-bit and 64-bit integers and durations tell
/// the values of a column apart.
pub proof fn self_keyed_columns_tell_apart(column: Seq<ArrayModel>, e: ElementType)
    requires
        self_keyed(e),
        forall|b: int|
            0 <= b < column.len() ==> (#[trigger] column[b]).well_formed() && column[b].ty is Dictionary
                && column[b].ty.element() == Element::Known(e),
    ensures
        tells_apart(column),
{
    let all = all_entries(column);
    lemma_entries_typed(column, e);
    assert forall|i: int, j: int|
        0 <= i < all.len() && 0 <= j < all.len() && (#[trigger] all[i]).key == (
        #[trigger] all[j]).key implies all[i].cell == all[j].cell by {
        let s = choose|s: Seq<u8>| all[i].key == #[trigger] key_of(Element::Known(e), all[i].cell, s);
        let t = choose|t: Seq<u8>| all[j].key == #[trigger] key_of(Element::Known(e), all[j].cell, t);
        keys_tell_values_apart(e, all[i].cell, all[j].cell, s, t);
    }
}

/// The entries of a column of one type have its values, and their keys.
pub proof fn lemma_entries_typed(column: Seq<ArrayModel>, e: ElementType)
    requires
        forall|b: int|
            0 <= b < column.len() ==> (#[trigger] column[b]).well_formed() && column[b].ty is Dictionary
                && column[b].ty.element() == Element::Known(e),
    ensures
        forall|i: int|
            0 <= i < all_entries(column).len() ==> is_of(e, (#[trigger] all_entries(column)[i]).cell)
                && exists|s: Seq<u8>|
                all_entries(column)[i].key == #[trigger] key_of(
                    Element::Known(e),
                    all_entries(column)[i].cell,
                    s,
                ),
    decreases column.len(),
{
    if column.len() > 0 {
        let before = column.drop_last();
        assert forall|b: int| 0 <= b < before.len() implies (#[trigger] before[b]).well_formed()
            && before[b].ty is Dictionary && before[b].ty.element() == Element::Known(e) by {
            assert(before[b] == column[b]);
        }
        lemma_entries_typed(before, e);
        let last = column.last();
        assert(column[column.len() - 1] == last);
        assert forall|i: int| 0 <= i < all_entries(column).len() implies is_of(
            e,
            (#[trigger] all_entries(column)[i]).cell,
        ) && exists|s: Seq<u8>|
            all_entries(column)[i].key == #[trigger] key_of(
                Element::Known(e),
                all_entries(column)[i].cell,
                s,
            ) by {
            let n = all_entries(before).len();
            if i < n {
                assert(all_entries(column)[i] == all_entries(before)[i]);
            } else {
                let v = i - n;
                assert(all_entries(column)[i] == entries(last)[v]);
                assert(is_of(e, last.dictionary[v]));
                assert(all_entries(column)[i].key == key_of(
                    Element::Known(e),
                    last.dictionary[v],
                    last.texts[v],
                ));
            }
        }
    }
}

/// A unified array has the value at each position that the array before had.
pub proof fn array_keeps_values(
    path: Path,
    field: FieldModel,
    column: Seq<ArrayModel>,
    b: int,
    new: ArrayModel,
)
    requires
        0 <= b < column.len(),
        column[b].well_formed(),
        column[b].ty == field.ty,
        path is Dedup ==> tells_apart(column),
        dictionaries(column).len() <= u64::MAX,
        array_unified(path, field, column, b, new),
    ensures
        new.cells == column[b].cells,
{
    let before = column[b];
    if let ColumnType::Dictionary(k, e) = field.ty {
        if !falls_back(path, k, column) {
            let dict = unified_dictionary(path, column);
            assert forall|i: int| 0 <= i < new.cells.len() implies #[trigger] new.cells[i]
                == before.cells[i] by {
                assert(new.keys[i] == renumbered(path, column, b, before.keys[i]));
                assert(new.cells[i] == decoded(new.ty.element(), new.keys[i], new.dictionary));
                assert(before.cells[i] == decoded(
                    before.ty.element(),
                    before.keys[i],
                    before.dictionary,
                ));
                if let Some(key) = before.keys[i] {
                    if path is Dedup {
                        lemma_dedup_finds(column, b, key as int);
                    } else {
                        lemma_offset_locates(column, b, key as int);
                    }
                }
            }
            assert(new.cells =~= before.cells);
        }
    }
}

/// Among the distinct values, each dictionary value is found at the place of its key.
proof fn lemma_dedup_finds(column: Seq<ArrayModel>, b: int, v: int)
    requires
        0 <= b < column.len(),
        0 <= v < column[b].dictionary.len(),
        tells_apart(column),
        dictionaries(column).len() <= u64::MAX,
    ensures
        ({
            let f = firsts(all_entries(column));
            let p = position(f, entries(column[b])[v].key);
            0 <= p < f.len() && p as u64 == p && cells_of(f)[p] == column[b].dictionary[v]
        }),
{
    let all = all_entries(column);
    let f = firsts(all);
    lemma_entries_are_dictionaries(column);
    lemma_firsts(all);
    lemma_entry_occurs(column, b, v);
    let i = choose|i: int| 0 <= i < all.len() && #[trigger] all[i] == entries(column[b])[v];
    assert(has_key(f, all[i].key));
    let p = position(f, entries(column[b])[v].key);
    assert(0 <= p < f.len() && f[p].key == all[i].key);
    assert(all.contains(f[p]));
    let j = choose|j: int| 0 <= j < all.len() && all[j] == f[p];
    assert(all[j].key == all[i].key);
}

/// No unification changes a value: whatever the path of each column, each row of each batch has
/// the values that it had before.
pub proof fn unification_keeps_values(
    schema: Schema,
    batches: Seq<Batch>,
    paths: Seq<Path>,
    result: UnifyResult,
    b: int,
    c: int,
)
    requires
        conforming(schema_fields(schema), batches),
        valid(batches),
        paths.len() == schema_fields(schema).len(),
        result.is_unification(schema, batches, paths),
        0 <= b < batches.len(),
        0 <= c < schema_fields(schema).len(),
        paths[c] is Dedup && schema_fields(schema)[c].ty is Dictionary ==> tells_apart(
            column_of(batches, c),
        ),
    ensures
        batch_columns(result.batches[b])[c].cells == batch_columns(batches[b])[c].cells,
{
    let fields = schema_fields(schema);
    let column = column_of(batches, c);
    assert(batch_unified(fields, batches, paths, b, result.batches[b]));
    let new = batch_columns(result.batches[b])[c];
    assert(array_unified(paths[c], fields[c], column, b, new));
    assert(column[b] == batch_columns(batches[b])[c]);
    assert(column[b].well_formed());
    if fields[c].ty is Dictionary {
        lemma_column_total(fields, batches, c);
        array_keeps_values(paths[c], fields[c], column, b, new);
    }
}

proof fn lemma_column_total(fields: Seq<FieldModel>, batches: Seq<Batch>, c: int)
    requires
        conforming(fields, batches),
        0 <= c < fields.len(),
        fields[c].ty is Dictionary,
    ensures
        dictionaries(column_of(batches, c)).len() <= usize::MAX,
{
    lemma_totals_grow(fields, batches, (c + 1) as nat, fields.len());
}

proof fn lemma_totals_grow(fields: Seq<FieldModel>, batches: Seq<Batch>, m: nat, n: nat)
    requires
        m <= n,
    ensures
        crate::unification::total_lens(fields, batches, m) <= crate::unification::total_lens(
            fields,
            batches,
            n,
        ),
    decreases n - m,
{
    if m < n {
        lemma_totals_grow(fields, batches, m + 1, n);
    }
}

/// A unification changes nothing of a schema but the type of a dictionary field, and of that not
/// the type of the values: names, nullability, metadata and order stay, and so do all fields and
/// columns that are no dictionaries. Where no key type was widened and no dictionary lost, the
/// schema is the one before.
pub proof fn unification_keeps_schema(
    schema: Schema,
    batches: Seq<Batch>,
    paths: Seq<Path>,
    result: UnifyResult,
    c: int,
)
    requires
        result.is_unification(schema, batches, paths),
        0 <= c < schema_fields(schema).len(),
    ensures
        schema_fields(*result.schema).len() == schema_fields(schema).len(),
        ({
            let before = schema_fields(schema)[c];
            let new = schema_fields(*result.schema)[c];
            &&& new.name == before.name
            &&& new.nullable == before.nullable
            &&& new.metadata == before.metadata
            &&& new.ty.element() == before.ty.element()
            &&& before.ty is Plain ==> new == before
        }),
        schema_fields(schema)[c].ty is Plain ==> forall|b: int|
            0 <= b < batches.len() ==> batch_columns(#[trigger] result.batches[b])[c]
                == batch_columns(batches[b])[c],
        schema_metadata(*result.schema) == schema_metadata(schema),
        !result.key_widened && !result.native_fallback ==> schema_fields(*result.schema)
            == schema_fields(schema),
{
    let fields = schema_fields(schema);
    if !result.key_widened && !result.native_fallback {
        let new = result.fields();
        assert forall|k: int| 0 <= k < fields.len() implies new[k] == fields[k] by {
            let column = column_of(batches, k);
            assert(new[k] == unified_field(paths[k], fields[k], column));
            assert(!column_widened(paths[k], fields[k], column));
            assert(!column_native(paths[k], fields[k], column));
        }
        assert(new =~= fields);
    }
    if fields[c].ty is Plain {
        assert forall|b: int| 0 <= b < batches.len() implies batch_columns(
            #[trigger] result.batches[b],
        )[c] == batch_columns(batches[b])[c] by {
            assert(batch_unified(fields, batches, paths, b, result.batches[b]));
            assert(array_unified(
                paths[c],
                fields[c],
                column_of(batches, c),
                b,
                batch_columns(result.batches[b])[c],
            ));
        }
    }
}

/// The columns of a unified batch have the types that the unified schema names.
pub proof fn unification_fits_its_schema(
    schema: Schema,
    batches: Seq<Batch>,
    paths: Seq<Path>,
    result: UnifyResult,
    b: int,
    c: int,
)
    requires
        conforming(schema_fields(schema), batches),
        result.is_unification(schema, batches, paths),
        0 <= b < batches.len(),
        0 <= c < schema_fields(schema).len(),
    ensures
        batch_columns(result.batches[b])[c].ty == schema_fields(*result.schema)[c].ty,
{
    let fields = schema_fields(schema);
    assert(batch_unified(fields, batches, paths, b, result.batches[b]));
    assert(array_unified(
        paths[c],
        fields[c],
        column_of(batches, c),
        b,
        batch_columns(result.batches[b])[c],
    ));
    assert(batch_columns(batches[b])[c].ty == fields[c].ty);
}

/// After a unification all batches share one dictionary per column.
pub proof fn unification_shares_dictionaries(
    schema: Schema,
    batches: Seq<Batch>,
    paths: Seq<Path>,
    result: UnifyResult,
    b1: int,
    b2: int,
    c: int,
)
    requires
        result.is_unification(schema, batches, paths),
        0 <= b1 < batches.len(),
        0 <= b2 < batches.len(),
        0 <= c < schema_fields(schema).len(),
        schema_fields(*result.schema)[c].ty is Dictionary,
    ensures
        batch_columns(result.batches[b1])[c].dictionary == batch_columns(
            result.batches[b2],
        )[c].dictionary,
{
    let fields = schema_fields(schema);
    assert(batch_unified(fields, batches, paths, b1, result.batches[b1]));
    assert(batch_unified(fields, batches, paths, b2, result.batches[b2]));
    assert(array_unified(
        paths[c],
        fields[c],
        column_of(batches, c),
        b1,
        batch_columns(result.batches[b1])[c],
    ));
    assert(array_unified(
        paths[c],
        fields[c],
        column_of(batches, c),
        b2,
        batch_columns(result.batches[b2])[c],
    ));
}

/// A unification keeps the number of rows of each batch.
pub proof fn unification_keeps_rows(
    schema: Schema,
    batches: Seq<Batch>,
    paths: Seq<Path>,
    result: UnifyResult,
)
    requires
        result.is_unification(schema, batches, paths),
    ensures
        rows_list(result.batches@) == rows_list(batches),
{
    assert forall|b: int| 0 <= b < batches.len() implies batch_rows(#[trigger] result.batches@[b])
        == batch_rows(batches[b]) by {
        assert(batch_unified(schema_fields(schema), batches, paths, b, result.batches@[b]));
    }
    assert(rows_list(result.batches@) =~= rows_list(batches));
}

/// The batches of a unification can be written to one file: they have the columns of its schema,
/// and no column has a second dictionary.
pub proof fn unified_batches_fit_one_file(
    schema: Schema,
    batches: Seq<Batch>,
    paths: Seq<Path>,
    result: UnifyResult,
)
    requires
        conforming(schema_fields(schema), batches),
        result.is_unification(schema, batches, paths),
    ensures
        batches_typed(schema_fields(*result.schema), result.batches@),
        one_dictionary_each(schema_fields(*result.schema), result.batches@),
{
    let fields = schema_fields(schema);
    let new_fields = result.fields();
    assert forall|b: int| 0 <= b < batches.len() implies columns_typed(
        new_fields,
        batch_columns(#[trigger] result.batches@[b]),
    ) by {
        assert(batch_unified(fields, batches, paths, b, result.batches@[b]));
        assert forall|c: int| 0 <= c < new_fields.len() implies (#[trigger] batch_columns(
            result.batches@[b],
        )[c]).ty == new_fields[c].ty by {
            unification_fits_its_schema(schema, batches, paths, result, b, c);
        }
    }
    assert forall|b: int, c: int|
        0 <= b < batches.len() && 0 <= c < new_fields.len() && new_fields[c].ty is Dictionary implies (
    #[trigger] batch_columns(result.batches@[b])[c]).dictionary == batch_columns(
        result.batches@[0],
    )[c].dictionary by {
        unification_shares_dictionaries(schema, batches, paths, result, b, 0, c);
    }
}

/// A unified schema is described in as many bytes as the schema before.
proof fn lemma_same_weight(old_fields: Seq<FieldModel>, new_fields: Seq<FieldModel>)
    requires
        new_fields.len() == old_fields.len(),
        forall|c: int|
            0 <= c < old_fields.len() ==> {
                &&& (#[trigger] new_fields[c]).name == old_fields[c].name
                &&& new_fields[c].metadata == old_fields[c].metadata
                &&& new_fields[c].ty.element() == old_fields[c].ty.element()
            },
    ensures
        fields_weight(new_fields) == fields_weight(old_fields),
    decreases old_fields.len(),
{
    if old_fields.len() > 0 {
        lemma_same_weight(old_fields.drop_last(), new_fields.drop_last());
        assert(new_fields[new_fields.len() - 1].name == old_fields[old_fields.len() - 1].name);
    }
}

/// Where a file can describe a schema and so many batches, it can describe their unification.
pub proof fn unification_stays_encodable(
    schema: Schema,
    batches: Seq<Batch>,
    paths: Seq<Path>,
    result: UnifyResult,
)
    requires
        result.is_unification(schema, batches, paths),
        encodable(schema_fields(schema), schema_metadata(schema), batches.len()),
    ensures
        encodable(
            schema_fields(*result.schema),
            schema_metadata(*result.schema),
            result.batches@.len(),
        ),
{
    let fields = schema_fields(schema);
    let new_fields = result.fields();
    assert forall|c: int| 0 <= c < fields.len() implies {
        &&& (#[trigger] new_fields[c]).name == fields[c].name
        &&& new_fields[c].metadata == fields[c].metadata
        &&& new_fields[c].ty.element() == fields[c].ty.element()
    } by {
        assert(new_fields[c] == unified_field(paths[c], fields[c], column_of(batches, c)));
    }
    lemma_same_weight(fields, new_fields);
}

/// Where a reader takes the schema of batches, it takes the file of their unification.
pub proof fn unification_can_be_read(
    schema: Schema,
    batches: Seq<Batch>,
    paths: Seq<Path>,
    result: UnifyResult,
)
    requires
        conforming(schema_fields(schema), batches),
        result.is_unification(schema, batches, paths),
        reader_knows(schema_fields(schema), schema_metadata(schema)),
    ensures
        reader_accepts(
            schema_fields(*result.schema),
            schema_metadata(*result.schema),
            columns_list(result.batches@),
        ),
{
    let fields = schema_fields(schema);
    let new_fields = result.fields();
    let columns = columns_list(result.batches@);
    assert forall|c: int| 0 <= c < fields.len() implies {
        &&& (#[trigger] new_fields[c]).name == fields[c].name
        &&& new_fields[c].metadata == fields[c].metadata
        &&& new_fields[c].nullable == fields[c].nullable
        &&& new_fields[c].ty.element() == fields[c].ty.element()
        &&& reader_takes(new_fields[c].ty)
    } by {
        assert(reader_takes(fields[c].ty));
        assert(new_fields[c] == unified_field(paths[c], fields[c], column_of(batches, c)));
    }
    lemma_same_weight(fields, new_fields);
    unified_batches_fit_one_file(schema, batches, paths, result);
    assert forall|b: int| 0 <= b < columns.len() implies columns_typed(
        new_fields,
        #[trigger] columns[b],
    ) && nulls_allowed(new_fields, columns[b]) by {
        assert(batch_unified(fields, batches, paths, b, result.batches@[b]));
        assert(columns_typed(new_fields, batch_columns(result.batches@[b])));
        assert forall|c: int| 0 <= c < new_fields.len() implies new_fields[c].nullable || !(
        #[trigger] columns[b][c]).marks_null() by {
            assert(columns[b][c] == batch_columns(result.batches@[b])[c]);
            assert(new_fields[c].nullable == fields[c].nullable);
        }
    }
}

/// The distinct values of a column: no two have one key, every dictionary value of every batch
/// has its key among them, and each comes from a batch.
pub proof fn dedup_takes_each_value_once(column: Seq<ArrayModel>)
    ensures
        distinct_keys(firsts(all_entries(column))),
        forall|b: int, v: int|
            0 <= b < column.len() && 0 <= v < column[b].dictionary.len() ==> has_key(
                firsts(all_entries(column)),
                (#[trigger] entries(column[b])[v]).key,
            ),
        forall|i: int|
            0 <= i < firsts(all_entries(column)).len() ==> all_entries(column).contains(
                #[trigger] firsts(all_entries(column))[i],
            ),
{
    let all = all_entries(column);
    lemma_firsts(all);
    assert forall|b: int, v: int|
        0 <= b < column.len() && 0 <= v < column[b].dictionary.len() implies has_key(
        firsts(all),
        (#[trigger] entries(column[b])[v]).key,
    ) by {
        lemma_entry_occurs(column, b, v);
        let i = choose|i: int| 0 <= i < all.len() && #[trigger] all[i] == entries(column[b])[v];
        assert(has_key(firsts(all), all[i].key));
    }
}

/// No dictionary that holds the keys of all values is shorter than that of the distinct values.
pub proof fn dedup_is_shortest(column: Seq<ArrayModel>, other: Seq<Entry>)
    requires
        forall|i: int|
            0 <= i < all_entries(column).len() ==> has_key(
                other,
                (#[trigger] all_entries(column)[i]).key,
            ),
    ensures
        firsts(all_entries(column)).len() <= other.len(),
{
    let f = firsts(all_entries(column));
    lemma_firsts(all_entries(column));
    assert forall|i: int| 0 <= i < f.len() implies has_key(other, (#[trigger] f[i]).key) by {
        let all = all_entries(column);
        assert(all.contains(f[i]));
        let j = choose|j: int| 0 <= j < all.len() && all[j] == f[i];
        assert(has_key(other, all[j].key));
    }
    lemma_pigeonhole(f, other);
}

proof fn lemma_pigeonhole(f: Seq<Entry>, other: Seq<Entry>)
    requires
        distinct_keys(f),
        forall|i: int| 0 <= i < f.len() ==> has_key(other, (#[trigger] f[i]).key),
    ensures
        f.len() <= other.len(),
    decreases f.len(),
{
    if f.len() > 0 {
        let last = f.last();
        assert(has_key(other, f[f.len() - 1].key));
        let p = choose|p: int| 0 <= p < other.len() && (#[trigger] other[p]).key == last.key;
        let rest = other.remove(p);
        let g = f.drop_last();
        assert forall|i: int| 0 <= i < g.len() implies has_key(rest, (#[trigger] g[i]).key) by {
            assert(g[i] == f[i]);
            let q = choose|q: int| 0 <= q < other.len() && (#[trigger] other[q]).key == f[i].key;
            assert(f[i].key != f[f.len() - 1].key);
            assert(q != p);
            if q < p {
                assert(rest[q] == other[q]);
            } else {
                assert(rest[q - 1] == other[q]);
            }
        }
        assert(distinct_keys(g)) by {
            assert forall|i: int, j: int| 0 <= i < j < g.len() implies (#[trigger] g[i]).key != (
            #[trigger] g[j]).key by {
                assert(g[i] == f[i] && g[j] == f[j]);
            }
        }
        lemma_pigeonhole(g, rest);
    }
}

/// Where no value occurs twice, the distinct values are the joined dictionaries.
pub proof fn dedup_without_overlap_is_concat(column: Seq<ArrayModel>)
    requires
        distinct_keys(all_entries(column)),
    ensures
        unified_dictionary(Path::Dedup, column) == unified_dictionary(Path::Concat, column),
{
    lemma_firsts_of_distinct(all_entries(column));
    lemma_entries_are_dictionaries(column);
}

proof fn lemma_firsts_of_distinct(s: Seq<Entry>)
    requires
        distinct_keys(s),
    ensures
        firsts(s) == s,
    decreases s.len(),
{
    if s.len() > 0 {
        let d = s.drop_last();
        assert(distinct_keys(d)) by {
            assert forall|i: int, j: int| 0 <= i < j < d.len() implies (#[trigger] d[i]).key != (
            #[trigger] d[j]).key by {
                assert(d[i] == s[i] && d[j] == s[j]);
            }
        }
        lemma_firsts_of_distinct(d);
        if has_key(d, s.last().key) {
            let i = choose|i: int| 0 <= i < d.len() && (#[trigger] d[i]).key == s.last().key;
            assert(d[i] == s[i]);
            assert(s[i].key != s[s.len() - 1].key);
        }
        assert(firsts(s) =~= s);
    }
}

/// Where every batch has the dictionary of the first, and that has no value twice, it is the
/// shared dictionary, however many batches there are.
pub proof fn dedup_of_full_overlap_is_one_dictionary(column: Seq<ArrayModel>)
    requires
        column.len() > 0,
        distinct_keys(entries(column[0])),
        forall|b: int|
            0 <= b < column.len() ==> entries(#[trigger] column[b]) == entries(column[0]),
    ensures
        unified_dictionary(Path::Dedup, column) == column[0].dictionary,
{
    lemma_full_overlap(column);
    assert(cells_of(entries(column[0])) =~= column[0].dictionary);
}

proof fn lemma_full_overlap(column: Seq<ArrayModel>)
    requires
        column.len() > 0,
        distinct_keys(entries(column[0])),
        forall|b: int|
            0 <= b < column.len() ==> entries(#[trigger] column[b]) == entries(column[0]),
    ensures
        firsts(all_entries(column)) == entries(column[0]),
    decreases column.len(),
{
    let one = entries(column[0]);
    let before = column.drop_last();
    assert(column[column.len() - 1] == column.last());
    if column.len() == 1 {
        assert(all_entries(before) =~= seq![]);
        assert(all_entries(column) =~= one);
        lemma_firsts_of_distinct(one);
    } else {
        assert forall|b: int| 0 <= b < before.len() implies entries(#[trigger] before[b])
            == entries(before[0]) by {
            assert(before[b] == column[b]);
        }
        assert(before[0] == column[0]);
        lemma_full_overlap(before);
        lemma_firsts_absorb(all_entries(before), one);
    }
}

proof fn lemma_firsts_absorb(s: Seq<Entry>, more: Seq<Entry>)
    requires
        forall|i: int| 0 <= i < more.len() ==> has_key(firsts(s), (#[trigger] more[i]).key),
    ensures
        firsts(s + more) == firsts(s),
    decreases more.len(),
{
    if more.len() == 0 {
        assert(s + more =~= s);
    } else {
        let fewer = more.drop_last();
        assert forall|i: int| 0 <= i < fewer.len() implies has_key(
            firsts(s),
            (#[trigger] fewer[i]).key,
        ) by {
            assert(fewer[i] == more[i]);
        }
        lemma_firsts_absorb(s, fewer);
        assert((s + more).drop_last() =~= s + fewer);
        assert(has_key(firsts(s), more[more.len() - 1].key));
    }
}

/// Whatever the paths, the shared dictionaries have together at least as many values as those of
/// the distinct values, and at most as many as the joined ones.
pub proof fn dedup_shrinks_dictionaries(
    fields: Seq<FieldModel>,
    batches: Seq<Batch>,
    paths: Seq<Path>,
    n: nat,
)
    requires
        n <= fields.len(),
        paths.len() == fields.len(),
    ensures
        unified_lens(fields, batches, same_path(fields, Path::Dedup), n) <= unified_lens(
            fields,
            batches,
            paths,
            n,
        ),
        unified_lens(fields, batches, paths, n) <= unified_lens(
            fields,
            batches,
            same_path(fields, Path::Concat),
            n,
        ),
    decreases n,
{
    if n > 0 {
        let c = n - 1;
        dedup_shrinks_dictionaries(fields, batches, paths, c as nat);
        let column = column_of(batches, c);
        lemma_entries_are_dictionaries(column);
        lemma_firsts(all_entries(column));
    }
}

/// Taking the distinct values never widens a key type that joining leaves alone, and never costs
/// a column its dictionary that joining leaves it.
pub proof fn dedup_avoids_widening(field: FieldModel, column: Seq<ArrayModel>)
    requires
        column.len() > 0,
        field.ty matches ColumnType::Dictionary(k, _) ==> supported(k),
    ensures
        column_native(Path::Dedup, field, column) ==> column_native(Path::Concat, field, column),
        column_widened(Path::Dedup, field, column) ==> column_widened(Path::Concat, field, column)
            || column_native(Path::Concat, field, column),
{
    lemma_entries_are_dictionaries(column);
    lemma_firsts(all_entries(column));
}

/// A column loses its dictionary exactly where the shared one would have more than 65,536 values.
pub proof fn fallback_beyond_sixteen_bits(path: Path, field: FieldModel, column: Seq<ArrayModel>)
    requires
        !(path is Keep),
        field.ty matches ColumnType::Dictionary(k, _) && supported(k),
    ensures
        column_native(path, field, column) <==> unified_dictionary(path, column).len() > 65536,
{
}

/// The choice by the capacity of the keys widens key types and drops dictionaries exactly where
/// taking the distinct values of every column does.
pub proof fn threshold_widens_as_dedup(field: FieldModel, column: Seq<ArrayModel>)
    requires
        field.ty matches ColumnType::Dictionary(k, _) ==> supported(k),
    ensures
        column_widened(threshold_path(field, column), field, column) == column_widened(
            Path::Dedup,
            field,
            column,
        ),
        column_native(threshold_path(field, column), field, column) == column_native(
            Path::Dedup,
            field,
            column,
        ),
{
    lemma_entries_are_dictionaries(column);
    lemma_firsts(all_entries(column));
}

/// Paths that agree on the dictionary columns lead to one unification.
proof fn lemma_paths_of_dictionaries(
    schema: Schema,
    batches: Seq<Batch>,
    p: Seq<Path>,
    q: Seq<Path>,
    result: UnifyResult,
)
    requires
        p.len() == schema_fields(schema).len(),
        q.len() == schema_fields(schema).len(),
        forall|c: int|
            0 <= c < p.len() && (#[trigger] schema_fields(schema)[c]).ty is Dictionary ==> p[c]
                == q[c],
        result.is_unification(schema, batches, p),
    ensures
        result.is_unification(schema, batches, q),
{
    let fields = schema_fields(schema);
    assert(unified_fields(fields, batches, p) =~= unified_fields(fields, batches, q)) by {
        assert forall|c: int| 0 <= c < fields.len() implies unified_field(
            p[c],
            fields[c],
            column_of(batches, c),
        ) == unified_field(q[c], fields[c], column_of(batches, c)) by {
            assert(fields[c].ty is Dictionary || fields[c].ty is Plain);
        }
    }
    assert forall|b: int| 0 <= b < batches.len() implies batch_unified(
        fields,
        batches,
        q,
        b,
        #[trigger] result.batches@[b],
    ) by {
        let new = result.batches@[b];
        assert(batch_unified(fields, batches, p, b, new));
        assert forall|c: int| 0 <= c < fields.len() implies array_unified(
            q[c],
            fields[c],
            column_of(batches, c),
            b,
            #[trigger] batch_columns(new)[c],
        ) by {
            assert(array_unified(p[c], fields[c], column_of(batches, c), b, batch_columns(new)[c]));
            assert(fields[c].ty is Dictionary || fields[c].ty is Plain);
        }
    }
    lemma_lens_agree(fields, batches, p, q, fields.len());
    let n = fields.len() as int;
    if any_widened(fields, batches, p, n) {
        let c = choose|c: int|
            0 <= c < n && column_widened(#[trigger] p[c], fields[c], column_of(batches, c));
        assert(fields[c].ty is Dictionary);
        assert(column_widened(q[c], fields[c], column_of(batches, c)));
    }
    if any_widened(fields, batches, q, n) {
        let c = choose|c: int|
            0 <= c < n && column_widened(#[trigger] q[c], fields[c], column_of(batches, c));
        assert(fields[c].ty is Dictionary);
        assert(column_widened(p[c], fields[c], column_of(batches, c)));
    }
    if any_native(fields, batches, p, n) {
        let c = choose|c: int|
            0 <= c < n && column_native(#[trigger] p[c], fields[c], column_of(batches, c));
        assert(fields[c].ty is Dictionary);
        assert(column_native(q[c], fields[c], column_of(batches, c)));
    }
    if any_native(fields, batches, q, n) {
        let c = choose|c: int|
            0 <= c < n && column_native(#[trigger] q[c], fields[c], column_of(batches, c));
        assert(fields[c].ty is Dictionary);
        assert(column_native(p[c], fields[c], column_of(batches, c)));
    }
}

proof fn lemma_lens_agree(
    fields: Seq<FieldModel>,
    batches: Seq<Batch>,
    p: Seq<Path>,
    q: Seq<Path>,
    n: nat,
)
    requires
        n <= fields.len(),
        forall|c: int| 0 <= c < n && (#[trigger] fields[c]).ty is Dictionary ==> p[c] == q[c],
    ensures
        unified_lens(fields, batches, p, n) == unified_lens(fields, batches, q, n),
    decreases n,
{
    if n > 0 {
        lemma_lens_agree(fields, batches, p, q, (n - 1) as nat);
        assert(fields[n - 1].ty is Dictionary ==> p[n - 1] == q[n - 1]);
    }
}

/// With a threshold that no column's average exceeds, the selective strategy is the one that
/// takes the distinct values of every column.
pub proof fn selective_with_high_threshold_is_dedup(
    schema: Schema,
    batches: Seq<Batch>,
    threshold: nat,
    result: UnifyResult,
)
    requires
        forall|c: int|
            0 <= c < schema_fields(schema).len() && (#[trigger] schema_fields(
                schema,
            )[c]).ty is Dictionary ==> average_len(column_of(batches, c)) <= threshold,
    ensures
        result.is_unification(
            schema,
            batches,
            selective_paths(threshold, schema_fields(schema), batches),
        ) <==> result.is_unification(
            schema,
            batches,
            same_path(schema_fields(schema), Path::Dedup),
        ),
{
    let fields = schema_fields(schema);
    let p = selective_paths(threshold, fields, batches);
    let q = same_path(fields, Path::Dedup);
    if result.is_unification(schema, batches, p) {
        lemma_paths_of_dictionaries(schema, batches, p, q, result);
    }
    if result.is_unification(schema, batches, q) {
        lemma_paths_of_dictionaries(schema, batches, q, p, result);
    }
}

/// With a threshold that every dictionary column's average exceeds, the selective strategy is the
/// one that joins the dictionaries.
pub proof fn selective_with_low_threshold_is_concat(
    schema: Schema,
    batches: Seq<Batch>,
    threshold: nat,
    result: UnifyResult,
)
    requires
        forall|c: int|
            0 <= c < schema_fields(schema).len() && (#[trigger] schema_fields(
                schema,
            )[c]).ty is Dictionary ==> average_len(column_of(batches, c)) > threshold,
    ensures
        result.is_unification(
            schema,
            batches,
            selective_paths(threshold, schema_fields(schema), batches),
        ) <==> result.is_unification(
            schema,
            batches,
            same_path(schema_fields(schema), Path::Concat),
        ),
{
    let fields = schema_fields(schema);
    let p = selective_paths(threshold, fields, batches);
    let q = same_path(fields, Path::Concat);
    if result.is_unification(schema, batches, p) {
        lemma_paths_of_dictionaries(schema, batches, p, q, result);
    }
    if result.is_unification(schema, batches, q) {
        lemma_paths_of_dictionaries(schema, batches, q, p, result);
    }
}

/// A higher threshold never lengthens the shared dictionaries of the selective strategy.
pub proof fn higher_threshold_never_lengthens(
    fields: Seq<FieldModel>,
    batches: Seq<Batch>,
    low: nat,
    high: nat,
    n: nat,
)
    requires
        low <= high,
        n <= fields.len(),
    ensures
        unified_lens(fields, batches, selective_paths(high, fields, batches), n) <= unified_lens(
            fields,
            batches,
            selective_paths(low, fields, batches),
            n,
        ),
    decreases n,
{
    if n > 0 {
        let c = n - 1;
        higher_threshold_never_lengthens(fields, batches, low, high, c as nat);
        let column = column_of(batches, c);
        lemma_entries_are_dictionaries(column);
        lemma_firsts(all_entries(column));
    }
}

} // verus!
