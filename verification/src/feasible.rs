//! When every strategy succeeds on batches: short values, and not too many of them.

use vstd::prelude::*;

use crate::arrow::{batch_columns, Batch};
use crate::encoding::{encodable, field_weight, fields_weight, lemma_no_metadata};
use crate::entries::{
    all_entries, entries, firsts, lemma_entries_are_dictionaries, lemma_firsts,
};
use crate::ipc::{reader_knows, reader_takes};
use crate::model::{
    cell_bytes, has_small_offsets, is_of, native_bytes, payload, sum_of, ArrayModel, Cell, FieldModel,
};
use crate::unification::{
    column_obstacle, column_of, has_null, unifiable, unified_widths, Path,
};
use crate::workload::lemma_dictionaries_bound;

verus! {

/// Whether a value is not null, and at most a thousand bytes long.
pub open spec fn short(cell: Cell) -> bool {
    !(cell is Null) && cell_bytes(cell) <= 1000
}

/// Whether all values of an array are short.
pub open spec fn brief(a: ArrayModel) -> bool {
    forall|i: int| 0 <= i < a.cells.len() ==> short(#[trigger] a.cells[i])
}

/// Whether an array has so many positions, and a dictionary array is one of short values.
pub open spec fn brief_column(field: FieldModel, rows: nat, a: ArrayModel) -> bool {
    &&& a.well_formed()
    &&& a.ty == field.ty
    &&& a.cells.len() == rows
    &&& field.nullable || !a.marks_null()
    &&& field.ty is Dictionary ==> {
        &&& field.ty.single()
        &&& brief(a)
        &&& a.dictionary.len() <= rows
        &&& forall|v: int|
            0 <= v < a.dictionary.len() ==> a.cells.contains(#[trigger] a.dictionary[v])
    }
}

/// Whether the columns of a batch have so many positions, and its dictionaries hold short values.
pub open spec fn brief_batch(fields: Seq<FieldModel>, rows: nat, batch: Batch) -> bool {
    &&& batch_columns(batch).len() == fields.len()
    &&& forall|c: int|
        0 <= c < fields.len() ==> brief_column(
            fields[c],
            rows,
            #[trigger] batch_columns(batch)[c],
        )
}

/// Whether a field has a short name, no metadata, and a listed type that a reader takes.
pub open spec fn modest_field(f: FieldModel) -> bool {
    &&& f.name.len() <= 100
    &&& f.metadata.dom() =~= Set::<Seq<char>>::empty()
    &&& f.ty.listed()
    &&& reader_takes(f.ty)
}

/// So many modest fields can be described in a file, and a reader takes them.
pub proof fn lemma_modest_fields(
    fields: Seq<FieldModel>,
    metadata: Map<Seq<char>, Seq<char>>,
    num_batches: nat,
)
    requires
        0 < fields.len() <= 1000,
        metadata.dom() =~= Set::<Seq<char>>::empty(),
        forall|c: int| 0 <= c < fields.len() ==> modest_field(#[trigger] fields[c]),
        num_batches <= 33_000_000,
    ensures
        encodable(fields, metadata, num_batches),
        reader_knows(fields, metadata),
{
    lemma_no_metadata(metadata);
    lemma_modest_weight(fields);
    assert forall|c: int| 0 <= c < fields.len() implies reader_takes(
        (#[trigger] fields[c]).ty,
    ) by {
        assert(modest_field(fields[c]));
    }
}

proof fn lemma_modest_weight(fields: Seq<FieldModel>)
    requires
        forall|c: int| 0 <= c < fields.len() ==> modest_field(#[trigger] fields[c]),
    ensures
        fields_weight(fields) <= 656 * fields.len(),
    decreases fields.len(),
{
    if fields.len() > 0 {
        let before = fields.drop_last();
        assert forall|c: int| 0 <= c < before.len() implies modest_field(#[trigger] before[c]) by {
            assert(before[c] == fields[c]);
        }
        lemma_modest_weight(before);
        let last = fields[fields.len() - 1];
        assert(modest_field(last));
        lemma_no_metadata(last.metadata);
        assert(field_weight(last) <= 656);
    }
}

/// A sum of bounded numbers is bounded.
proof fn lemma_sum_bound(s: Seq<nat>, bound: nat)
    requires
        forall|i: int| 0 <= i < s.len() ==> #[trigger] s[i] <= bound,
    ensures
        sum_of(s) <= s.len() * bound,
    decreases s.len(),
{
    if s.len() > 0 {
        lemma_sum_bound(s.drop_last(), bound);
        assert(s[s.len() - 1] <= bound);
        assert((s.len() - 1) * bound + bound == s.len() * bound) by (nonlinear_arith);
    } else {
        assert(0 * bound == 0);
    }
}

/// Short values have few bytes together.
proof fn lemma_payload_bound(cells: Seq<Cell>)
    requires
        forall|i: int| 0 <= i < cells.len() ==> short(#[trigger] cells[i]),
    ensures
        payload(cells) <= 1000 * cells.len(),
    decreases cells.len(),
{
    if cells.len() > 0 {
        lemma_payload_bound(cells.drop_last());
        assert(short(cells[cells.len() - 1]));
    }
}

/// The dictionaries of arrays of short values keep few bytes for each value.
proof fn lemma_entries_brief(column: Seq<ArrayModel>, field: FieldModel, rows: nat)
    requires
        field.ty is Dictionary,
        has_small_offsets(field.ty.element()),
        forall|b: int| 0 <= b < column.len() ==> brief_column(field, rows, #[trigger] column[b]),
    ensures
        forall|i: int|
            0 <= i < all_entries(column).len() ==> (#[trigger] all_entries(column)[i]).width
                <= 1000,
    decreases column.len(),
{
    if column.len() > 0 {
        let before = column.drop_last();
        let last = column[column.len() - 1];
        assert forall|b: int| 0 <= b < before.len() implies brief_column(
            field,
            rows,
            #[trigger] before[b],
        ) by {
            assert(before[b] == column[b]);
        }
        lemma_entries_brief(before, field, rows);
        assert(brief_column(field, rows, last));
        assert forall|i: int| 0 <= i < all_entries(column).len() implies (
        #[trigger] all_entries(column)[i]).width <= 1000 by {
            let n = all_entries(before).len();
            if i < n {
                assert(all_entries(column)[i] == all_entries(before)[i]);
            } else {
                let v = i - n;
                assert(all_entries(column)[i] == entries(last)[v]);
                assert(last.cells.contains(last.dictionary[v]));
                let r = choose|r: int| 0 <= r < last.cells.len() && last.cells[r] == last.dictionary[v];
                assert(short(last.cells[r]));
                assert(is_of(field.ty.element()->Known_0, last.dictionary[v]));
                assert(last.dictionary[v] is Bytes);
            }
        }
    }
}

/// A column of short values that are not too many has no obstacle on any path.
proof fn lemma_brief_column(
    path: Path,
    field: FieldModel,
    column: Seq<ArrayModel>,
    rows: nat,
)
    requires
        forall|b: int| 0 <= b < column.len() ==> brief_column(field, rows, #[trigger] column[b]),
        column.len() * rows <= 2_000_000,
    ensures
        !column_obstacle(path, field, column),
{
    if field.ty is Dictionary && column.len() > 0 {
        assert(brief_column(field, rows, column[0]));
        if has_small_offsets(field.ty.element()) {
            let all = all_entries(column);
            let widths = unified_widths(path, column);
            lemma_entries_brief(column, field, rows);
            lemma_entries_are_dictionaries(column);
            assert forall|b: int| 0 <= b < column.len() implies (
            #[trigger] column[b]).dictionary.len() <= rows by {
                assert(brief_column(field, rows, column[b]));
            }
            lemma_dictionaries_bound(column, rows);
            lemma_firsts(all);
            assert forall|i: int| 0 <= i < widths.len() implies #[trigger] widths[i] <= 1000 by {
                if path is Dedup {
                    assert(all.contains(firsts(all)[i]));
                    let j = choose|j: int| 0 <= j < all.len() && all[j] == firsts(all)[i];
                    assert(all[j].width <= 1000);
                } else {
                    assert(all[i].width <= 1000);
                }
            }
            lemma_sum_bound(widths, 1000);
            assert(sum_of(widths) <= i32::MAX);
        }
        assert forall|b: int| 0 <= b < column.len() implies payload(
            (#[trigger] column[b]).cells,
        ) <= i32::MAX && !has_null(column[b]) by {
            assert(brief_column(field, rows, column[b]));
            assert(native_bytes(column[b]) == payload(column[b].cells));
            lemma_payload_bound(column[b].cells);
            assert(rows <= column.len() * rows) by (nonlinear_arith)
                requires
                    column.len() >= 1,
            ;
        }
    }
    assert forall|b: int| 0 <= b < column.len() implies field.nullable || !(
    #[trigger] column[b]).marks_null() by {
        assert(brief_column(field, rows, column[b]));
    }
}

/// Nothing stands in the way of a unification of batches of short values that are not too many.
pub proof fn lemma_brief_unifiable(
    fields: Seq<FieldModel>,
    batches: Seq<Batch>,
    paths: Seq<Path>,
    rows: nat,
)
    requires
        fields.len() > 0,
        paths.len() == fields.len(),
        forall|b: int| 0 <= b < batches.len() ==> brief_batch(fields, rows, #[trigger] batches[b]),
        batches.len() * rows <= 2_000_000,
    ensures
        unifiable(fields, batches, paths),
{
    assert forall|c: int| 0 <= c < fields.len() implies !column_obstacle(
        #[trigger] paths[c],
        fields[c],
        column_of(batches, c),
    ) by {
        let column = column_of(batches, c);
        assert forall|b: int| 0 <= b < column.len() implies brief_column(
            fields[c],
            rows,
            #[trigger] column[b],
        ) by {
            assert(brief_batch(fields, rows, batches[b]));
            assert(column[b] == batch_columns(batches[b])[c]);
        }
        lemma_brief_column(paths[c], fields[c], column, rows);
    }
}

} // verus!
