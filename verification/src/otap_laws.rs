//! What holds of all batches of logs, metrics and traces.

use arrow_schema::Schema;
use vstd::prelude::*;

use crate::arrow::{batch_columns, schema_fields, Batch};
use crate::building::{distinct, lemma_distinct, lemma_distinct_in_pool};
use crate::entries::{
    all_entries, dictionaries, distinct_keys, entries, lemma_entries_are_dictionaries,
    lemma_offset_step,
};
use crate::laws::{dedup_without_overlap_is_concat, selective_with_high_threshold_is_dedup};
use crate::model::{ArrayModel, Cell};
use crate::otap_logs::{
    batch_event, is_logs_batch, logs_batch_of, logs_columns, logs_draw_valid, logs_fields,
    span_id, trace_id, LogsDraw,
};
use crate::otap::{row_time, text_cell, SCHEMA_URL};
use crate::otap_metrics::{
    category, is_metrics_batch, metric_description, metric_name, metrics_batch_of,
    metrics_columns, metrics_fields, units,
};
use crate::otap_traces::{
    duration_at, durations_unique, endpoints, is_traces_batch, services, span_name,
    traces_batch_of, traces_draw_valid, traces_fields, TracesDraw, LONGEST, SHORTEST,
};
use crate::text::{
    decimal, decimal_is_injective, is_digit, le_bytes, lemma_decimal_digits, lemma_le_bytes,
};
use crate::unification::{
    average_len, column_native, column_of, same_path, selective_path, selective_paths,
    unified_dictionary, Path,
};
use crate::unify::UnifyResult;
use crate::value_key::KeyModel;
use crate::workload::lemma_dictionaries_bound;

verus! {

/// Identifiers are different in every row of every batch, as long as batches and rows are counted
/// in thirty-two bits.
pub proof fn span_ids_are_unique(b1: nat, r1: nat, b2: nat, r2: nat)
    requires
        b1 < 0x1_0000_0000,
        r1 < 0x1_0000_0000,
        b2 < 0x1_0000_0000,
        r2 < 0x1_0000_0000,
        span_id(b1, r1) == span_id(b2, r2),
    ensures
        b1 == b2,
        r1 == r2,
{
    let x = span_id(b1, r1);
    let y = span_id(b2, r2);
    assert(x.take(4) =~= le_bytes(b1));
    assert(y.take(4) =~= le_bytes(b2));
    assert(x.skip(4) =~= le_bytes(r1));
    assert(y.skip(4) =~= le_bytes(r2));
    lemma_same_word(b1, b2);
    lemma_same_word(r1, r2);
}

/// Numbers of thirty-two bits with the same four bytes are the same.
proof fn lemma_same_word(m: nat, n: nat)
    requires
        m < 0x1_0000_0000,
        n < 0x1_0000_0000,
        le_bytes(m) == le_bytes(n),
    ensures
        m == n,
{
    lemma_le_bytes(m);
    lemma_le_bytes(n);
    vstd::arithmetic::div_mod::lemma_small_mod(m, 0x1_0000_0000);
    vstd::arithmetic::div_mod::lemma_small_mod(n, 0x1_0000_0000);
}

/// Whether a key is that of bytes that begin with the batch and the row.
spec fn names_row(key: KeyModel, b: nat, r: nat) -> bool {
    key matches KeyModel::Bytes(x) && x.len() >= 8 && x.take(8) == span_id(b, r)
}

/// Whether the dictionary of each array of a column has one value per row, which begins with the
/// batch and the row.
spec fn names_rows(column: Seq<ArrayModel>, rows: nat) -> bool {
    forall|b: int|
        0 <= b < column.len() ==> {
            &&& (#[trigger] column[b]).dictionary.len() == rows
            &&& forall|r: int|
                0 <= r < rows ==> names_row(
                    (#[trigger] entries(column[b])[r]).key,
                    b as nat,
                    r as nat,
                )
        }
}

proof fn lemma_rows_located(column: Seq<ArrayModel>, rows: nat)
    requires
        names_rows(column, rows),
    ensures
        all_entries(column).len() == column.len() * rows,
        forall|b: int, r: int|
            #![trigger names_row(all_entries(column)[b * rows + r].key, b as nat, r as nat)]
            0 <= b < column.len() && 0 <= r < rows ==> names_row(
                all_entries(column)[b * rows + r].key,
                b as nat,
                r as nat,
            ),
    decreases column.len(),
{
    if column.len() > 0 {
        let before = column.drop_last();
        let n = before.len();
        assert(names_rows(before, rows)) by {
            assert forall|b: int| 0 <= b < before.len() implies {
                &&& (#[trigger] before[b]).dictionary.len() == rows
                &&& forall|r: int|
                    0 <= r < rows ==> names_row(
                        (#[trigger] entries(before[b])[r]).key,
                        b as nat,
                        r as nat,
                    )
            } by {
                assert(before[b] == column[b]);
            }
        }
        lemma_rows_located(before, rows);
        assert(column[n as int] == column.last());
        assert(n * rows + rows == column.len() * rows) by (nonlinear_arith)
            requires
                n + 1 == column.len(),
        ;
        let all = all_entries(column);
        assert forall|b: int, r: int| 0 <= b < column.len() && 0 <= r < rows implies names_row(
            #[trigger] all[b * rows + r].key,
            b as nat,
            r as nat,
        ) by {
            if b < n {
                assert(b * rows + r < n * rows) by (nonlinear_arith)
                    requires
                        b + 1 <= n,
                        r < rows,
                ;
                assert(0 <= b * rows) by (nonlinear_arith)
                    requires
                        b >= 0,
                ;
                assert(all[b * rows + r] == all_entries(before)[b * rows + r]);
                assert(names_row(
                    all_entries(before)[b * rows + r].key,
                    b as nat,
                    r as nat,
                ));
            } else {
                assert(b == n);
                assert(0 <= n * rows) by (nonlinear_arith);
                assert(all[n * rows + r] == entries(column[n as int])[r]);
            }
        }
    } else {
        assert(0 * rows == 0);
    }
}

proof fn lemma_named_rows_differ(column: Seq<ArrayModel>, rows: nat)
    requires
        names_rows(column, rows),
        column.len() <= 0x1_0000_0000,
        rows <= 0x1_0000_0000,
    ensures
        distinct_keys(all_entries(column)),
        all_entries(column).len() == column.len() * rows,
{
    lemma_rows_located(column, rows);
    let all = all_entries(column);
    assert forall|i: int, j: int| 0 <= i < j < all.len() implies (#[trigger] all[i]).key != (
    #[trigger] all[j]).key by {
        if all[i].key == all[j].key {
            let m = rows as int;
            if m == 0 {
                assert(column.len() * rows == 0) by (nonlinear_arith)
                    requires
                        rows == 0,
                ;
            }
            lemma_split(i, m, column.len());
            lemma_split(j, m, column.len());
            let (b1, r1) = (i / m, i % m);
            let (b2, r2) = (j / m, j % m);
            assert(names_row(all[b1 * rows + r1].key, b1 as nat, r1 as nat));
            assert(names_row(all[b2 * rows + r2].key, b2 as nat, r2 as nat));
            span_ids_are_unique(b1 as nat, r1 as nat, b2 as nat, r2 as nat);
        }
    }
}

proof fn lemma_split(i: int, m: int, n: nat)
    requires
        0 <= i < n * m,
        m > 0,
    ensures
        i == (i / m) * m + i % m,
        0 <= i / m < n,
        0 <= i % m < m,
{
    vstd::arithmetic::div_mod::lemma_fundamental_div_mod(i, m);
    assert(m * (i / m) == (i / m) * m) by (nonlinear_arith);
    vstd::arithmetic::div_mod::lemma_div_pos_is_pos(i, m);
    if i / m >= n {
        assert((i / m) * m >= n * m) by (nonlinear_arith)
            requires
                i / m >= n,
                m > 0,
        ;
    }
}

proof fn lemma_distinct_of_unique(cells: Seq<Cell>)
    requires
        cells.no_duplicates(),
    ensures
        distinct(cells) == cells,
    decreases cells.len(),
{
    if cells.len() > 0 {
        let d = cells.drop_last();
        lemma_distinct_of_unique(d);
        if d.contains(cells.last()) {
            let i = choose|i: int| 0 <= i < d.len() && d[i] == cells.last();
            assert(cells[i] == cells[cells.len() - 1]);
        }
        assert(distinct(cells) =~= cells);
    }
}

/// The identifiers of log batches never overlap: joining them and taking the distinct ones make
/// one dictionary, with an entry for every row. It is lost exactly if there are more than 65,536
/// rows in all, whichever of the two is done.
pub proof fn log_identifiers_never_overlap(batches: Seq<Batch>, rows: nat, c: int)
    requires
        forall|b: int|
            0 <= b < batches.len() ==> is_logs_batch(b as nat, rows, #[trigger] batches[b]),
        batches.len() <= 0x1_0000_0000,
        rows <= 0x1_0000_0000,
        c == 4 || c == 5,
    ensures
        ({
            let column = column_of(batches, c);
            &&& unified_dictionary(Path::Dedup, column) == unified_dictionary(Path::Concat, column)
            &&& unified_dictionary(Path::Dedup, column).len() == batches.len() * rows
            &&& column_native(Path::Dedup, logs_fields()[c], column) <==> batches.len() * rows
                > 65536
            &&& column_native(Path::Concat, logs_fields()[c], column) <==> batches.len() * rows
                > 65536
        }),
{
    let column = column_of(batches, c);
    assert forall|b: int| 0 <= b < column.len() implies {
        &&& (#[trigger] column[b]).dictionary.len() == rows
        &&& forall|r: int|
            0 <= r < rows ==> names_row(
                (#[trigger] entries(column[b])[r]).key,
                b as nat,
                r as nat,
            )
    } by {
        let a = column[b];
        assert(is_logs_batch(b as nat, rows, batches[b]));
        let (suffix, draws) = choose|suffix: Seq<char>, draws: Seq<LogsDraw>|
            #[trigger] logs_batch_of(b as nat, rows, suffix, draws, batches[b]);
        lemma_log_identifiers(
            b as nat,
            rows,
            batch_event(b as nat, suffix),
            draws,
            batch_columns(batches[b]),
            c,
        );
    }
    lemma_named_rows_differ(column, rows);
    dedup_without_overlap_is_concat(column);
    lemma_entries_are_dictionaries(column);
}

/// The identifiers of log batches are as many per batch as there are rows, so the selective
/// strategy takes the distinct ones exactly if the rows of a batch are at most the threshold.
pub proof fn log_identifiers_and_threshold(
    batches: Seq<Batch>,
    rows: nat,
    c: int,
    threshold: nat,
)
    requires
        forall|b: int|
            0 <= b < batches.len() ==> is_logs_batch(b as nat, rows, #[trigger] batches[b]),
        0 < batches.len() <= 0x1_0000_0000,
        rows <= 0x1_0000_0000,
        c == 4 || c == 5,
    ensures
        average_len(column_of(batches, c)) == rows,
        selective_path(threshold, logs_fields()[c], column_of(batches, c)) is Dedup <==> rows
            <= threshold,
{
    log_identifiers_never_overlap(batches, rows, c);
    let n = batches.len();
    assert(n * rows == rows * n) by (nonlinear_arith);
    vstd::arithmetic::div_mod::lemma_div_by_multiple(rows as int, n as int);
}

/// The key of a duration.
#[verifier::opaque]
spec fn duration_key(d: i64) -> KeyModel {
    KeyModel::Inline((d as int % 0x1_0000_0000_0000_0000) as u64)
}

/// Different durations have different keys.
proof fn lemma_duration_key(d: i64, e: i64)
    requires
        SHORTEST <= d < LONGEST,
        SHORTEST <= e < LONGEST,
        d != e,
    ensures
        duration_key(d) != duration_key(e),
{
    reveal(duration_key);
}

/// Whether a key is that of a duration of one of the first batches.
spec fn from_batches(key: KeyModel, batches: Seq<Batch>, rows: nat, n: nat) -> bool {
    exists|b: int, r: int|
        0 <= b < n && 0 <= r < rows && key == duration_key(#[trigger] duration_at(batches[b], r))
}

/// Whether the duration column of a batch has one dictionary value per row.
spec fn duration_per_row(batches: Seq<Batch>, rows: nat, b: int) -> bool {
    let a = column_of(batches, 8)[b];
    &&& a.dictionary.len() == rows
    &&& forall|r: int|
        0 <= r < rows ==> (#[trigger] entries(a)[r]).key == duration_key(
            duration_at(batches[b], r),
        ) && SHORTEST <= duration_at(batches[b], r) < LONGEST
}

/// The duration column of a batch whose durations differ has one dictionary value per row.
proof fn lemma_duration_column(
    batches: Seq<Batch>,
    rows: nat,
    num_unique_span_names: nat,
    b: int,
)
    requires
        0 <= b < batches.len(),
        is_traces_batch(b as nat, rows, num_unique_span_names, batches[b]),
        durations_unique(batches, rows),
    ensures
        duration_per_row(batches, rows, b),
{
    let a = column_of(batches, 8)[b];
    let draws = choose|draws: Seq<TracesDraw>|
        #[trigger] traces_batch_of(b as nat, rows, num_unique_span_names, draws, batches[b]);
    assert(a == batch_columns(batches[b])[8]);
    assert forall|r: int| 0 <= r < rows implies #[trigger] a.cells[r] == Cell::Int(
        duration_at(batches[b], r) as int,
    ) && SHORTEST <= duration_at(batches[b], r) < LONGEST by {
        assert(traces_draw_valid(num_unique_span_names, draws[r]));
        assert(a.cells[r] == Cell::Int(draws[r].duration as int));
    }
    assert(a.cells.no_duplicates()) by {
        assert forall|i: int, j: int| 0 <= i < j < a.cells.len() implies a.cells[i]
            != a.cells[j] by {
            assert(duration_at(batches[b], i) != duration_at(batches[b], j));
        }
    }
    reveal(duration_key);
    lemma_distinct_of_unique(a.cells);
    assert forall|r: int| 0 <= r < rows implies (#[trigger] entries(a)[r]).key == duration_key(
        duration_at(batches[b], r),
    ) && SHORTEST <= duration_at(batches[b], r) < LONGEST by {
        assert(a.cells[r] == Cell::Int(duration_at(batches[b], r) as int));
    }
}

proof fn lemma_durations_differ(batches: Seq<Batch>, rows: nat, n: nat)
    requires
        n <= batches.len(),
        forall|b: int| 0 <= b < batches.len() ==> #[trigger] duration_per_row(batches, rows, b),
        durations_unique(batches, rows),
    ensures
        ({
            let all = all_entries(column_of(batches, 8).take(n as int));
            &&& distinct_keys(all)
            &&& all.len() == n * rows
            &&& forall|i: int|
                0 <= i < all.len() ==> from_batches((#[trigger] all[i]).key, batches, rows, n)
        }),
    decreases n,
{
    let column = column_of(batches, 8);
    if n == 0 {
        assert(column.take(0) =~= Seq::<ArrayModel>::empty());
        assert(0 * rows == 0);
    } else {
        let m = (n - 1) as nat;
        let before = all_entries(column.take(m as int));
        let here = entries(column[m as int]);
        let all = all_entries(column.take(n as int));
        lemma_durations_differ(batches, rows, m);
        lemma_offset_step(column, m as int);
        assert(all == before + here);
        assert(duration_per_row(batches, rows, m as int));
        assert(m * rows + rows == n * rows) by (nonlinear_arith)
            requires
                m + 1 == n,
        ;
        assert forall|i: int| 0 <= i < all.len() implies from_batches(
            (#[trigger] all[i]).key,
            batches,
            rows,
            n,
        ) by {
            if i < before.len() {
                assert(all[i] == before[i]);
                assert(from_batches(before[i].key, batches, rows, m));
            } else {
                let r = i - before.len();
                assert(all[i] == here[r]);
                assert(here[r].key == duration_key(duration_at(batches[m as int], r)));
            }
        }
        assert forall|i: int, j: int| 0 <= i < j < all.len() implies (#[trigger] all[i]).key != (
        #[trigger] all[j]).key by {
            if j < before.len() {
                assert(all[i] == before[i] && all[j] == before[j]);
            } else {
                let q = j - before.len();
                assert(all[j] == here[q]);
                if i < before.len() {
                    assert(all[i] == before[i]);
                    lemma_later_duration(batches, rows, m, before[i].key, q);
                } else {
                    assert(all[i] == here[i - before.len()]);
                    lemma_other_duration(batches, rows, m as int, i - before.len(), q);
                }
            }
        }
    }
}

/// The key of a duration is none of the keys of earlier batches.
proof fn lemma_later_duration(batches: Seq<Batch>, rows: nat, m: nat, key: KeyModel, q: int)
    requires
        m < batches.len(),
        0 <= q < rows,
        from_batches(key, batches, rows, m),
        forall|b: int| 0 <= b < batches.len() ==> #[trigger] duration_per_row(batches, rows, b),
        durations_unique(batches, rows),
    ensures
        key != entries(column_of(batches, 8)[m as int])[q].key,
{
    let (b, r) = choose|b: int, r: int|
        0 <= b < m && 0 <= r < rows && key == duration_key(
            #[trigger] duration_at(batches[b], r),
        );
    assert(duration_per_row(batches, rows, b));
    assert(duration_per_row(batches, rows, m as int));
    assert(entries(column_of(batches, 8)[b])[r].key == key);
    assert(duration_at(batches[b], r) != duration_at(batches[m as int], q));
    lemma_duration_key(duration_at(batches[b], r), duration_at(batches[m as int], q));
}

/// Two rows of one batch have different keys.
proof fn lemma_other_duration(batches: Seq<Batch>, rows: nat, m: int, p: int, q: int)
    requires
        0 <= m < batches.len(),
        0 <= p < q < rows,
        duration_per_row(batches, rows, m),
        durations_unique(batches, rows),
    ensures
        entries(column_of(batches, 8)[m])[p].key != entries(column_of(batches, 8)[m])[q].key,
{
    assert(entries(column_of(batches, 8)[m])[p].key == duration_key(duration_at(batches[m], p)));
    assert(duration_at(batches[m], p) != duration_at(batches[m], q));
    lemma_duration_key(duration_at(batches[m], p), duration_at(batches[m], q));
}

/// The durations of trace batches never overlap: joining them and taking the distinct ones make
/// one dictionary, with an entry for every row. It is lost exactly if there are more than 65,536
/// rows in all, whichever of the two is done.
pub proof fn durations_never_overlap(
    batches: Seq<Batch>,
    rows: nat,
    num_unique_span_names: nat,
)
    requires
        forall|b: int|
            0 <= b < batches.len() ==> is_traces_batch(
                b as nat,
                rows,
                num_unique_span_names,
                #[trigger] batches[b],
            ),
        durations_unique(batches, rows),
    ensures
        ({
            let column = column_of(batches, 8);
            &&& unified_dictionary(Path::Dedup, column) == unified_dictionary(Path::Concat, column)
            &&& unified_dictionary(Path::Dedup, column).len() == batches.len() * rows
            &&& column_native(Path::Dedup, traces_fields()[8], column) <==> batches.len() * rows
                > 65536
            &&& column_native(Path::Concat, traces_fields()[8], column) <==> batches.len() * rows
                > 65536
        }),
{
    let column = column_of(batches, 8);
    assert forall|b: int| 0 <= b < batches.len() implies #[trigger] duration_per_row(
        batches,
        rows,
        b,
    ) by {
        assert(is_traces_batch(b as nat, rows, num_unique_span_names, batches[b]));
        lemma_duration_column(batches, rows, num_unique_span_names, b);
    }
    lemma_durations_differ(batches, rows, batches.len());
    assert(column.take(batches.len() as int) =~= column);
    dedup_without_overlap_is_concat(column);
    lemma_entries_are_dictionaries(column);
}

/// On metric batches whose names fit in 8-bit keys, the selective strategy is the one that takes
/// the distinct values of every column.
pub proof fn selective_is_dedup_on_metrics(
    schema: Schema,
    batches: Seq<Batch>,
    rows: nat,
    num_unique_metrics: nat,
    result: UnifyResult,
)
    requires
        schema_fields(schema) == metrics_fields(),
        forall|b: int|
            0 <= b < batches.len() ==> is_metrics_batch(
                rows,
                num_unique_metrics,
                #[trigger] batches[b],
            ),
        num_unique_metrics <= 256 || rows <= 256,
    ensures
        result.is_unification(
            schema,
            batches,
            selective_paths(256, schema_fields(schema), batches),
        ) <==> result.is_unification(
            schema,
            batches,
            same_path(schema_fields(schema), Path::Dedup),
        ),
{
    let fields = metrics_fields();
    assert forall|c: int|
        0 <= c < fields.len() && (#[trigger] fields[c]).ty is Dictionary implies average_len(
        column_of(batches, c),
    ) <= 256 by {
        let column = column_of(batches, c);
        assert forall|b: int| 0 <= b < column.len() implies (
        #[trigger] column[b]).dictionary.len() <= 256 by {
            assert(is_metrics_batch(rows, num_unique_metrics, batches[b]));
            let draws = choose|draws: Seq<usize>|
                #[trigger] metrics_batch_of(rows, num_unique_metrics, draws, batches[b]);
            lemma_metrics_dictionary(
                rows,
                num_unique_metrics,
                draws,
                batch_columns(batches[b]),
                c,
            );
        }
        lemma_average(column, 256);
    }
    selective_with_high_threshold_is_dedup(schema, batches, 256, result);
}

proof fn lemma_average(column: Seq<ArrayModel>, bound: nat)
    requires
        forall|b: int| 0 <= b < column.len() ==> (#[trigger] column[b]).dictionary.len() <= bound,
    ensures
        average_len(column) <= bound,
{
    lemma_dictionaries_bound(column, bound);
    let n = column.len();
    if n > 0 {
        assert(n * bound == bound * n) by (nonlinear_arith);
        vstd::arithmetic::div_mod::lemma_div_is_ordered(
            dictionaries(column).len() as int,
            (bound * n) as int,
            n as int,
        );
        vstd::arithmetic::div_mod::lemma_div_by_multiple(bound as int, n as int);
    }
}

proof fn lemma_metrics_dictionary(
    rows: nat,
    num_unique_metrics: nat,
    draws: Seq<usize>,
    columns: Seq<ArrayModel>,
    c: int,
)
    requires
        metrics_columns(rows, draws, columns),
        draws.len() == rows,
        forall|r: int| 0 <= r < draws.len() ==> #[trigger] draws[r] < num_unique_metrics,
        num_unique_metrics <= 256 || rows <= 256,
        2 <= c <= 6,
    ensures
        columns[c].dictionary.len() <= 256,
{
    let cells = columns[c].cells;
    lemma_distinct(cells);
    if num_unique_metrics <= 256 {
        let url = SCHEMA_URL@;
        let pool = Seq::new(
            num_unique_metrics,
            |i: int|
                if c == 2 {
                    text_cell(metric_name(i as nat))
                } else if c == 3 {
                    text_cell(metric_description(i as nat))
                } else if c == 4 {
                    text_cell(units()[i % 15])
                } else if c == 5 {
                    text_cell(url)
                } else {
                    Cell::Int(i % 2 + 1)
                },
        );
        assert forall|r: int| 0 <= r < cells.len() implies pool.contains(#[trigger] cells[r]) by {
            assert(draws[r] < num_unique_metrics);
            assert(pool[draws[r] as int] == cells[r]);
        }
        lemma_distinct_in_pool(cells, pool);
    }
}

proof fn lemma_log_identifiers(
    b: nat,
    rows: nat,
    own: Seq<char>,
    draws: Seq<LogsDraw>,
    columns: Seq<ArrayModel>,
    c: int,
)
    requires
        logs_columns(b, rows, own, draws, columns),
        draws.len() == rows,
        forall|r: int| 0 <= r < draws.len() ==> logs_draw_valid(#[trigger] draws[r]),
        b < 0x1_0000_0000,
        rows <= 0x1_0000_0000,
        c == 4 || c == 5,
    ensures
        columns[c].dictionary.len() == rows,
        forall|r: int|
            0 <= r < rows ==> names_row((#[trigger] entries(columns[c])[r]).key, b, r as nat),
{
    let a = columns[c];
    let cells = a.cells;
    assert forall|r: int| 0 <= r < rows implies (#[trigger] cells[r] matches Cell::Bytes(x)
        && x.len() >= 8 && x.take(8) == span_id(b, r as nat)) by {
        assert(logs_draw_valid(draws[r]));
        if c == 4 {
            assert(trace_id(b, r as nat, draws[r].tail@).take(8) =~= span_id(b, r as nat));
        } else {
            assert(span_id(b, r as nat).take(8) =~= span_id(b, r as nat));
        }
    }
    assert(cells.no_duplicates()) by {
        assert forall|i: int, j: int| 0 <= i < cells.len() && 0 <= j < cells.len() && i != j implies cells[i]
            != cells[j] by {
            if cells[i] == cells[j] {
                span_ids_are_unique(b, i as nat, b, j as nat);
            }
        }
    }
    lemma_distinct_of_unique(cells);
    assert forall|r: int| 0 <= r < rows implies names_row(
        (#[trigger] entries(a)[r]).key,
        b,
        r as nat,
    ) by {
        assert(a.dictionary[r] == cells[r]);
    }
}

/// Where two texts that end in a mark and decimal digits are the same, so are the digits and what
/// comes before the mark.
proof fn lemma_marked_digits(p: Seq<char>, q: Seq<char>, mark: char, m: nat, n: nat)
    requires
        p.push(mark) + decimal(m) == q.push(mark) + decimal(n),
        !is_digit(mark),
    ensures
        m == n,
        p == q,
{
    let x = p.push(mark) + decimal(m);
    let y = q.push(mark) + decimal(n);
    let dm = decimal(m);
    let dn = decimal(n);
    lemma_decimal_digits(m);
    lemma_decimal_digits(n);
    assert(x.len() == p.len() + 1 + dm.len());
    assert(y.len() == q.len() + 1 + dn.len());
    assert(x == y);
    assert(x[p.len() as int] == mark);
    assert(y[q.len() as int] == mark);
    if p.len() < q.len() {
        assert(is_digit(dm[q.len() - p.len() - 1]));
        assert(x[q.len() as int] == dm[q.len() - p.len() - 1]);
    } else if q.len() < p.len() {
        assert(is_digit(dn[p.len() - q.len() - 1]));
        assert(y[p.len() as int] == dn[p.len() - q.len() - 1]);
    }
    assert(p.len() == q.len());
    assert(dm =~= dn) by {
        assert forall|i: int| 0 <= i < dm.len() implies dm[i] == dn[i] by {
            assert(x[p.len() + 1 + i] == dm[i]);
            assert(y[p.len() + 1 + i] == dn[i]);
        }
    }
    assert(p =~= q) by {
        assert forall|i: int| 0 <= i < p.len() implies p[i] == q[i] by {
            assert(x[i] == p[i]);
            assert(y[i] == q[i]);
        }
    }
    decimal_is_injective(m, n);
}

/// Different metrics have different names.
pub proof fn metric_names_are_unique(i: nat, j: nat)
    requires
        metric_name(i) == metric_name(j),
    ensures
        i == j,
{
    reveal_strlit(".metric_");
    let p = category(i) + ".metric"@;
    let q = category(j) + ".metric"@;
    reveal_strlit(".metric");
    assert(".metric_"@ =~= ".metric"@.push('_'));
    assert(metric_name(i) =~= p.push('_') + decimal(i));
    assert(metric_name(j) =~= q.push('_') + decimal(j));
    lemma_marked_digits(p, q, '_', i, j);
}

/// Different operations have different names.
pub proof fn span_names_are_unique(i: nat, j: nat)
    requires
        span_name(i) == span_name(j),
    ensures
        i == j,
{
    let p = services()[i as int % 4] + " "@ + endpoints()[i as int % 8];
    let q = services()[j as int % 4] + " "@ + endpoints()[j as int % 8];
    reveal_strlit("/");
    assert(span_name(i) =~= p.push('/') + decimal(i / 8));
    assert(span_name(j) =~= q.push('/') + decimal(j / 8));
    lemma_marked_digits(p, q, '/', i / 8, j / 8);
    lemma_operations_differ(i % 8, j % 8);
    assert(i as int % 4 == (i % 8) as int % 4);
    assert(j as int % 4 == (j % 8) as int % 4);
    assert(i as int % 8 == (i % 8) as int % 8);
    assert(j as int % 8 == (j % 8) as int % 8);
}

proof fn lemma_operations_differ(i: nat, j: nat)
    requires
        i < 8,
        j < 8,
    ensures
        services()[i as int % 4] + " "@ + endpoints()[i as int % 8] == services()[j as int % 4]
            + " "@ + endpoints()[j as int % 8] ==> i == j,
{
    reveal_strlit("GET");
    reveal_strlit("POST");
    reveal_strlit("grpc");
    reveal_strlit("internal");
    reveal_strlit(" ");
    reveal_strlit("/api/users");
    reveal_strlit("/api/orders");
    reveal_strlit("/api/products");
    reveal_strlit("/health");
    reveal_strlit(".UserService/GetUser");
    reveal_strlit(".OrderService/CreateOrder");
    reveal_strlit("db.query");
    reveal_strlit("cache.get");
    let p = services()[i as int % 4] + " "@ + endpoints()[i as int % 8];
    let q = services()[j as int % 4] + " "@ + endpoints()[j as int % 8];
    if p == q && i != j {
        assert(p.len() == q.len());
        assert(p[0] == q[0]);
        assert(i == 0 || i == 1 || i == 2 || i == 3 || i == 4 || i == 5 || i == 6 || i == 7);
        assert(j == 0 || j == 1 || j == 2 || j == 3 || j == 4 || j == 5 || j == 6 || j == 7);
    }
}

/// Rows follow each other every millisecond, from one batch to the next.
pub proof fn rows_follow_every_millisecond(b: nat, rows: nat, row: nat)
    ensures
        row_time(0, rows, 0) == 1_700_000_000_000_000_000,
        row_time(b, rows, row + 1) == row_time(b, rows, row) + 1_000_000,
        row_time(b + 1, rows, 0) == row_time(b, rows, rows),
{
    assert((b + 1) * rows + 0 == b * rows + rows) by (nonlinear_arith);
    assert(0 * rows == 0) by (nonlinear_arith);
}

} // verus!
