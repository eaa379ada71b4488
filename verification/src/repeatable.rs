//! Batches are determined by what is drawn for them.

use vstd::prelude::*;

use crate::arrow::{batch_columns, batch_rows, Batch};
use crate::building::{distinct, lemma_distinct};
use crate::model::{decoded, ArrayModel};
use crate::otap_logs::{logs_batch_of, LogsDraw};
use crate::otap_metrics::metrics_batch_of;
use crate::otap_traces::{traces_batch_of, TracesDraw};
use crate::workload::{is_drawn, TestCase};

verus! {

/// Whether two arrays have one type and the same values, and where they are dictionary arrays, the
/// same keys and dictionaries.
pub open spec fn alike(a: ArrayModel, b: ArrayModel) -> bool {
    &&& a.ty == b.ty
    &&& a.cells == b.cells
    &&& a.ty is Dictionary ==> a.keys == b.keys && a.dictionary == b.dictionary
}

/// Whether two batches have as many rows, and columns that are alike.
pub open spec fn same_batch(first: Batch, second: Batch) -> bool {
    &&& batch_rows(first) == batch_rows(second)
    &&& batch_columns(first).len() == batch_columns(second).len()
    &&& forall|c: int|
        0 <= c < batch_columns(first).len() ==> alike(
            #[trigger] batch_columns(first)[c],
            batch_columns(second)[c],
        )
}

/// Whether the dictionary of a dictionary array is made of its distinct values, none of them null.
spec fn minimal(a: ArrayModel) -> bool {
    a.ty is Dictionary ==> {
        &&& a.dictionary == distinct(a.cells)
        &&& a.well_formed()
        &&& !a.marks_null()
    }
}

/// Each value stands once in the dictionary, so that it has one key only.
proof fn lemma_alike(a: ArrayModel, b: ArrayModel)
    requires
        a.ty == b.ty,
        a.cells == b.cells,
        minimal(a),
        minimal(b),
    ensures
        alike(a, b),
{
    if a.ty is Dictionary {
        lemma_distinct(a.cells);
        assert forall|i: int| 0 <= i < a.keys.len() implies a.keys[i] == b.keys[i] by {
            assert(a.keys[i] is Some && b.keys[i] is Some);
            assert(a.cells[i] == decoded(a.ty.element(), a.keys[i], a.dictionary));
            assert(b.cells[i] == decoded(b.ty.element(), b.keys[i], b.dictionary));
            let (m, n) = (a.keys[i]->0 as int, b.keys[i]->0 as int);
            assert(a.dictionary[m] == a.dictionary[n]);
        }
        assert(a.keys =~= b.keys);
    }
}

/// Two columns of a test case that are made of the same draws from the same pool are alike.
pub proof fn same_draws_make_same_column(
    tc: TestCase,
    pool: Seq<Vec<u8>>,
    b: nat,
    draws: Seq<usize>,
    first: ArrayModel,
    second: ArrayModel,
)
    requires
        is_drawn(tc, pool, b, draws, first),
        is_drawn(tc, pool, b, draws, second),
    ensures
        alike(first, second),
{
    lemma_alike(first, second);
}

/// Two batches of logs that are made of the same suffix and the same draws are the same.
pub proof fn same_draws_make_same_logs(
    b: nat,
    rows: nat,
    suffix: Seq<char>,
    draws: Seq<LogsDraw>,
    first: Batch,
    second: Batch,
)
    requires
        logs_batch_of(b, rows, suffix, draws, first),
        logs_batch_of(b, rows, suffix, draws, second),
    ensures
        same_batch(first, second),
{
    assert forall|c: int| 0 <= c < batch_columns(first).len() implies alike(
        #[trigger] batch_columns(first)[c],
        batch_columns(second)[c],
    ) by {
        assert(c == 0 || c == 1 || c == 2 || c == 3 || c == 4 || c == 5 || c == 6 || c == 7 || c == 8
            || c == 9);
        lemma_alike(batch_columns(first)[c], batch_columns(second)[c]);
    }
}

/// Two batches of metrics that are made of the same draws are the same.
pub proof fn same_draws_make_same_metrics(
    rows: nat,
    num_unique_metrics: nat,
    draws: Seq<usize>,
    first: Batch,
    second: Batch,
)
    requires
        metrics_batch_of(rows, num_unique_metrics, draws, first),
        metrics_batch_of(rows, num_unique_metrics, draws, second),
    ensures
        same_batch(first, second),
{
    assert forall|c: int| 0 <= c < batch_columns(first).len() implies alike(
        #[trigger] batch_columns(first)[c],
        batch_columns(second)[c],
    ) by {
        assert(c == 0 || c == 1 || c == 2 || c == 3 || c == 4 || c == 5 || c == 6 || c == 7);
        lemma_alike(batch_columns(first)[c], batch_columns(second)[c]);
    }
}

/// Two batches of traces that are made of the same draws are the same.
pub proof fn same_draws_make_same_traces(
    b: nat,
    rows: nat,
    num_unique_span_names: nat,
    draws: Seq<TracesDraw>,
    first: Batch,
    second: Batch,
)
    requires
        traces_batch_of(b, rows, num_unique_span_names, draws, first),
        traces_batch_of(b, rows, num_unique_span_names, draws, second),
    ensures
        same_batch(first, second),
{
    assert forall|c: int| 0 <= c < batch_columns(first).len() implies alike(
        #[trigger] batch_columns(first)[c],
        batch_columns(second)[c],
    ) by {
        assert(c == 0 || c == 1 || c == 2 || c == 3 || c == 4 || c == 5 || c == 6 || c == 7 || c == 8
            || c == 9);
        lemma_alike(batch_columns(first)[c], batch_columns(second)[c]);
    }
}

} // verus!
