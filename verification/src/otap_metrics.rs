//! Record batches like those of a metric payload: plain columns, and short dictionaries that all
//! batches share.

use std::sync::Arc;

use arrow_schema::{ArrowError, Schema};
use rand::rngs::StdRng;
use vstd::prelude::*;

use crate::arrow::{
    batch_columns, batch_rows, builder_fields, contents_of, finish_schema, fits_schema, new_batch,
    new_schema, no_metadata, schema_fields, schema_metadata, ArrowArray, Batch,
};
use crate::building::{
    bool_array, bool_cell, distinct, int32_cells, int32_dictionary_u8, is_dictionary, is_plain,
    lemma_distinct, lemma_distinct_in_pool, moderate, push_dictionary_field, push_plain_field,
    text_cells, text_dictionary_u8, u16_array, u8_array,
};
use crate::draws::{belows_run, draw_belows, seeded, Generator, BENCH_SEED};
use crate::feasible::{brief, brief_batch, modest_field, short};
use crate::model::{ArrayModel, Cell, ElementType, FieldModel, IndexType};
use crate::otap::{
    dictionary_field, lemma_few_texts, lemma_url, owned, plain_field, text_cell, SCHEMA_URL,
};
use crate::text::{decimal, lemma_decimal_len, lemma_utf8_len, push_decimal};
use crate::unification::conforming;
use crate::workload::lemma_conforming;

verus! {

/// The fields of the metric batches.
pub open spec fn metrics_fields() -> Seq<FieldModel> {
    seq![
        plain_field("id"@, ElementType::UInt16, false),
        plain_field("metric_type"@, ElementType::UInt8, false),
        dictionary_field("name"@, IndexType::UInt8, ElementType::Utf8, false),
        dictionary_field("description"@, IndexType::UInt8, ElementType::Utf8, true),
        dictionary_field("unit"@, IndexType::UInt8, ElementType::Utf8, true),
        dictionary_field("scope_schema_url"@, IndexType::UInt8, ElementType::Utf8, true),
        dictionary_field("aggregation_temporality"@, IndexType::UInt8, ElementType::Int32, true),
        plain_field("is_monotonic"@, ElementType::Boolean, true),
    ]
}

/// The schema of the metric batches.
pub fn metrics_schema() -> (r: Arc<Schema>)
    ensures
        schema_fields(*r) == metrics_fields(),
        schema_metadata(*r) == no_metadata(),
{
    let mut f = new_schema();
    push_plain_field(&mut f, "id", ElementType::UInt16, false);
    push_plain_field(&mut f, "metric_type", ElementType::UInt8, false);
    push_dictionary_field(&mut f, "name", IndexType::UInt8, ElementType::Utf8, false);
    push_dictionary_field(&mut f, "description", IndexType::UInt8, ElementType::Utf8, true);
    push_dictionary_field(&mut f, "unit", IndexType::UInt8, ElementType::Utf8, true);
    push_dictionary_field(&mut f, "scope_schema_url", IndexType::UInt8, ElementType::Utf8, true);
    push_dictionary_field(
        &mut f,
        "aggregation_temporality",
        IndexType::UInt8,
        ElementType::Int32,
        true,
    );
    push_plain_field(&mut f, "is_monotonic", ElementType::Boolean, true);
    assert(builder_fields(f) =~= metrics_fields());
    finish_schema(f)
}

// ---- the values ----------------------------------------------------------------------------

/// The units.
pub open spec fn units() -> Seq<Seq<char>> {
    seq![
        "ms"@,
        "s"@,
        "bytes"@,
        "kB"@,
        "MB"@,
        "1"@,
        "%"@,
        "requests"@,
        "errors"@,
        "connections"@,
        "threads"@,
        "Hz"@,
        "celsius"@,
        "ops"@,
        "packets"@,
    ]
}

/// What a metric's name begins with.
pub open spec fn category(i: nat) -> Seq<char> {
    seq!["http.server"@, "system.cpu"@, "system.memory"@, "runtime.gc"@, "db.client"@][i as int % 5]
}

/// The name of a metric.
pub open spec fn metric_name(i: nat) -> Seq<char> {
    category(i) + ".metric_"@ + decimal(i)
}

/// The description of a metric.
pub open spec fn metric_description(i: nat) -> Seq<char> {
    "Description for "@ + metric_name(i)
}

fn unit(i: usize) -> (r: &'static str)
    requires
        i < 15,
    ensures
        r@ == units()[i as int],
{
    match i {
        0 => "ms",
        1 => "s",
        2 => "bytes",
        3 => "kB",
        4 => "MB",
        5 => "1",
        6 => "%",
        7 => "requests",
        8 => "errors",
        9 => "connections",
        10 => "threads",
        11 => "Hz",
        12 => "celsius",
        13 => "ops",
        _ => "packets",
    }
}

fn push_metric_name(out: &mut String, i: usize)
    ensures
        final(out)@ == old(out)@ + metric_name(i as nat),
{
    let category: &'static str = match i % 5 {
        0 => "http.server",
        1 => "system.cpu",
        2 => "system.memory",
        3 => "runtime.gc",
        _ => "db.client",
    };
    out.push_str(category);
    out.push_str(".metric_");
    push_decimal(out, i as u64);
    assert(out@ =~= old(out)@ + metric_name(i as nat));
}

/// The names of metrics.
pub fn metric_names(n: usize) -> (r: Vec<String>)
    ensures
        r.len() == n,
        forall|i: int| 0 <= i < n ==> (#[trigger] r[i])@ == metric_name(i as nat),
{
    let mut names: Vec<String> = Vec::new();
    let mut i: usize = 0;
    while i < n
        invariant
            i <= n,
            names.len() == i,
            forall|j: int| 0 <= j < i ==> (#[trigger] names[j])@ == metric_name(j as nat),
        decreases n - i,
    {
        let mut name: String = String::new();
        push_metric_name(&mut name, i);
        assert(name@ =~= metric_name(i as nat));
        names.push(name);
        i += 1;
    }
    names
}

/// The descriptions of metrics.
pub fn metric_descriptions(n: usize) -> (r: Vec<String>)
    ensures
        r.len() == n,
        forall|i: int| 0 <= i < n ==> (#[trigger] r[i])@ == metric_description(i as nat),
{
    let mut descriptions: Vec<String> = Vec::new();
    let mut i: usize = 0;
    while i < n
        invariant
            i <= n,
            descriptions.len() == i,
            forall|j: int|
                0 <= j < i ==> (#[trigger] descriptions[j])@ == metric_description(j as nat),
        decreases n - i,
    {
        let mut text: String = String::new();
        text.push_str("Description for ");
        push_metric_name(&mut text, i);
        assert(text@ =~= metric_description(i as nat));
        descriptions.push(text);
        i += 1;
    }
    descriptions
}

/// Whether columns are those that given draws make: each row has the metric that was drawn for
/// it.
pub open spec fn metrics_columns(
    rows: nat,
    draws: Seq<usize>,
    columns: Seq<ArrayModel>,
) -> bool {
    let url = SCHEMA_URL@;
    &&& columns.len() == 8
    &&& is_plain(
        columns[0],
        ElementType::UInt16,
        Seq::new(rows, |r: int| Cell::Int(r % 65536)),
    )
    &&& is_plain(
        columns[1],
        ElementType::UInt8,
        Seq::new(rows, |r: int| Cell::Int(draws[r] as int % 3 + 1)),
    )
    &&& is_dictionary(
        columns[2],
        IndexType::UInt8,
        ElementType::Utf8,
        Seq::new(rows, |r: int| text_cell(metric_name(draws[r] as nat))),
    )
    &&& is_dictionary(
        columns[3],
        IndexType::UInt8,
        ElementType::Utf8,
        Seq::new(rows, |r: int| text_cell(metric_description(draws[r] as nat))),
    )
    &&& is_dictionary(
        columns[4],
        IndexType::UInt8,
        ElementType::Utf8,
        Seq::new(rows, |r: int| text_cell(units()[draws[r] as int % 15])),
    )
    &&& is_dictionary(
        columns[5],
        IndexType::UInt8,
        ElementType::Utf8,
        Seq::new(rows, |r: int| text_cell(url)),
    )
    &&& is_dictionary(
        columns[6],
        IndexType::UInt8,
        ElementType::Int32,
        Seq::new(rows, |r: int| Cell::Int(draws[r] as int % 2 + 1)),
    )
    &&& is_plain(
        columns[7],
        ElementType::Boolean,
        Seq::new(rows, |r: int| bool_cell(draws[r] % 3 == 0)),
    )
}

/// Whether a batch is the one that given draws make.
pub open spec fn metrics_batch_of(
    rows: nat,
    num_unique_metrics: nat,
    draws: Seq<usize>,
    batch: Batch,
) -> bool {
    &&& draws.len() == rows
    &&& forall|r: int| 0 <= r < draws.len() ==> #[trigger] draws[r] < num_unique_metrics
    &&& batch_rows(batch) == rows
    &&& metrics_columns(rows, draws, batch_columns(batch))
}

/// Whether a batch is one that can be drawn.
pub open spec fn is_metrics_batch(rows: nat, num_unique_metrics: nat, batch: Batch) -> bool {
    exists|draws: Seq<usize>| #[trigger] metrics_batch_of(rows, num_unique_metrics, draws, batch)
}

/// What can be built: there is a metric for each row, the names fit in 8-bit keys whatever is
/// drawn, and all rows of all columns can be counted.
pub open spec fn metrics_buildable(
    num_batches: nat,
    rows: nat,
    num_unique_metrics: nat,
) -> bool {
    &&& rows > 0 ==> num_unique_metrics > 0
    &&& num_unique_metrics <= 256 || rows <= 256
    &&& 8 * (num_batches * rows) <= usize::MAX
}

/// Whether so many rows can be built: see [`metrics_buildable`].
pub fn can_build_metrics(
    num_batches: usize,
    rows_per_batch: usize,
    num_unique_metrics: usize,
) -> (r: bool)
    ensures
        r == metrics_buildable(
            num_batches as nat,
            rows_per_batch as nat,
            num_unique_metrics as nat,
        ),
{
    if rows_per_batch > 0 && num_unique_metrics == 0 {
        return false;
    }
    if num_unique_metrics > 256 && rows_per_batch > 256 {
        return false;
    }
    match num_batches.checked_mul(rows_per_batch) {
        Some(total) => total <= usize::MAX / 8,
        None => false,
    }
}

// ---- the batches ---------------------------------------------------------------------------

/// Column by column, what has been drawn for the first rows of a batch.
struct MetricsRows {
    ids: Vec<u16>,
    types: Vec<u8>,
    names: Vec<String>,
    descriptions: Vec<String>,
    units: Vec<String>,
    urls: Vec<String>,
    temporalities: Vec<i32>,
    monotonic: Vec<bool>,
}

/// Whether what has been drawn is what given draws make.
spec fn metrics_rows_of(draws: Seq<usize>, n: nat, v: MetricsRows) -> bool {
    let url = SCHEMA_URL@;
    &&& v.ids.len() == n
    &&& v.types.len() == n
    &&& v.names.len() == n
    &&& v.descriptions.len() == n
    &&& v.units.len() == n
    &&& v.urls.len() == n
    &&& v.temporalities.len() == n
    &&& v.monotonic.len() == n
    &&& forall|r: int| 0 <= r < n ==> #[trigger] v.ids[r] == r % 65536
    &&& forall|r: int| 0 <= r < n ==> #[trigger] v.types[r] == draws[r] as int % 3 + 1
    &&& forall|r: int| 0 <= r < n ==> (#[trigger] v.names[r])@ == metric_name(draws[r] as nat)
    &&& forall|r: int|
        0 <= r < n ==> (#[trigger] v.descriptions[r])@ == metric_description(draws[r] as nat)
    &&& forall|r: int| 0 <= r < n ==> (#[trigger] v.units[r])@ == units()[draws[r] as int % 15]
    &&& forall|r: int| 0 <= r < n ==> (#[trigger] v.urls[r])@ == url
    &&& forall|r: int| 0 <= r < n ==> #[trigger] v.temporalities[r] == draws[r] as int % 2 + 1
    &&& forall|r: int| 0 <= r < n ==> #[trigger] v.monotonic[r] == (draws[r] % 3 == 0)
}

proof fn lemma_units()
    ensures
        forall|i: int| 0 <= i < 15 ==> (#[trigger] units()[i]).len() <= 250,
{
    reveal_strlit("ms");
    reveal_strlit("s");
    reveal_strlit("bytes");
    reveal_strlit("kB");
    reveal_strlit("MB");
    reveal_strlit("1");
    reveal_strlit("%");
    reveal_strlit("requests");
    reveal_strlit("errors");
    reveal_strlit("connections");
    reveal_strlit("threads");
    reveal_strlit("Hz");
    reveal_strlit("celsius");
    reveal_strlit("ops");
    reveal_strlit("packets");
}

proof fn lemma_name_len(i: nat)
    requires
        i <= u64::MAX,
    ensures
        metric_name(i).len() <= 100,
        metric_description(i).len() <= 200,
{
    reveal_strlit("http.server");
    reveal_strlit("system.cpu");
    reveal_strlit("system.memory");
    reveal_strlit("runtime.gc");
    reveal_strlit("db.client");
    reveal_strlit(".metric_");
    reveal_strlit("Description for ");
    lemma_decimal_len(i as u64);
}

/// Texts that are made from a number below a bound each, or that are few, have few distinct ones.
pub proof fn lemma_numbered_texts(
    values: Seq<String>,
    draws: Seq<nat>,
    bound: nat,
    text: spec_fn(nat) -> Seq<char>,
)
    requires
        values.len() == draws.len(),
        bound <= 256 || values.len() <= 256,
        forall|r: int| 0 <= r < draws.len() ==> #[trigger] draws[r] < bound,
        forall|r: int| 0 <= r < values.len() ==> (#[trigger] values[r])@ == text(draws[r]),
        forall|r: int| 0 <= r < values.len() ==> (#[trigger] values[r])@.len() <= 8191,
    ensures
        moderate(values),
        distinct(text_cells(values)).len() <= 256,
{
    let cells = text_cells(values);
    lemma_distinct(cells);
    if bound <= 256 {
        let pool = Seq::new(bound, |i: int| text_cell(text(i as nat)));
        assert forall|i: int| 0 <= i < cells.len() implies pool.contains(#[trigger] cells[i]) by {
            assert(values[i]@ == text(draws[i]));
            assert(pool[draws[i] as int] == cells[i]);
        }
        lemma_distinct_in_pool(cells, pool);
    }
}

proof fn lemma_metrics_texts(
    num_unique_metrics: nat,
    draws: Seq<usize>,
    rows: nat,
    v: MetricsRows,
)
    requires
        metrics_rows_of(draws, rows, v),
        draws.len() == rows,
        num_unique_metrics <= 256 || rows <= 256,
        num_unique_metrics <= u64::MAX,
        forall|r: int| 0 <= r < draws.len() ==> #[trigger] draws[r] < num_unique_metrics,
    ensures
        moderate(v.names@),
        distinct(text_cells(v.names@)).len() <= 256,
        moderate(v.descriptions@),
        distinct(text_cells(v.descriptions@)).len() <= 256,
        moderate(v.units@),
        distinct(text_cells(v.units@)).len() <= 256,
        moderate(v.urls@),
        distinct(text_cells(v.urls@)).len() <= 256,
        distinct(int32_cells(v.temporalities@)).len() <= 256,
{
    lemma_units();
    lemma_url();
    assert forall|r: int| 0 <= r < v.names@.len() implies (#[trigger] v.names@[r])@.len() <= 8191 by {
        assert(v.names[r]@ == metric_name(draws[r] as nat));
        assert(draws[r] < num_unique_metrics);
        lemma_name_len(draws[r] as nat);
    }
    assert forall|r: int| 0 <= r < v.descriptions@.len() implies (
    #[trigger] v.descriptions@[r])@.len() <= 8191 by {
        assert(v.descriptions[r]@ == metric_description(draws[r] as nat));
        assert(draws[r] < num_unique_metrics);
        lemma_name_len(draws[r] as nat);
    }
    let name_of = |i: nat| metric_name(i);
    let description_of = |i: nat| metric_description(i);
    let numbers = Seq::new(rows, |r: int| draws[r] as nat);
    assert forall|r: int| 0 <= r < numbers.len() implies #[trigger] numbers[r]
        < num_unique_metrics by {
        assert(draws[r] < num_unique_metrics);
    }
    lemma_numbered_texts(v.names@, numbers, num_unique_metrics, name_of);
    lemma_numbered_texts(v.descriptions@, numbers, num_unique_metrics, description_of);
    assert forall|i: int| 0 <= i < v.units@.len() implies units().contains(
        (#[trigger] v.units@[i])@,
    ) by {
        assert(v.units[i]@ == units()[draws[i] as int % 15]);
    }
    lemma_few_texts(v.units@, units());
    let urls = seq![SCHEMA_URL@];
    assert forall|i: int| 0 <= i < v.urls@.len() implies urls.contains((#[trigger] v.urls@[i])@) by {
        assert(urls[0] == v.urls[i]@);
    }
    lemma_few_texts(v.urls@, urls);
    let cells = int32_cells(v.temporalities@);
    let pool = seq![Cell::Int(1), Cell::Int(2)];
    assert forall|i: int| 0 <= i < cells.len() implies pool.contains(#[trigger] cells[i]) by {
        assert(v.temporalities[i] == draws[i] as int % 2 + 1);
        assert(pool[draws[i] as int % 2] == cells[i]);
    }
    lemma_distinct_in_pool(cells, pool);
}

/// Draws the metric of each row of one batch.
fn draw_metrics(
    rows_per_batch: usize,
    num_unique_metrics: usize,
    rng: &mut Generator,
) -> (r: Vec<usize>)
    requires
        old(rng).well_formed(),
        rows_per_batch > 0 ==> num_unique_metrics > 0,
    ensures
        final(rng).well_formed(),
        r.len() == rows_per_batch,
        forall|i: int| 0 <= i < r.len() ==> #[trigger] r[i] < num_unique_metrics,
        belows_run(old(rng)@, num_unique_metrics, r@, final(rng)@),
{
    draw_belows(rng, num_unique_metrics, rows_per_batch)
}

/// Whether a batch is the one that the numbers make that a generator gives for it.
pub open spec fn drawn_metrics_batch(
    before: StdRng,
    rows: nat,
    num_unique_metrics: usize,
    batch: Batch,
    after: StdRng,
) -> bool {
    exists|draws: Seq<usize>|
        {
            &&& #[trigger] belows_run(before, num_unique_metrics, draws, after)
            &&& metrics_batch_of(rows, num_unique_metrics as nat, draws, batch)
        }
}

/// Whether batches are those that the generator of the seed makes, one after the other.
pub open spec fn metrics_run(
    rows: nat,
    num_unique_metrics: usize,
    batches: Seq<Batch>,
    states: Seq<StdRng>,
) -> bool {
    &&& states.len() == batches.len() + 1
    &&& seeded(BENCH_SEED, states[0])
    &&& forall|b: int|
        0 <= b < batches.len() ==> drawn_metrics_batch(
            states[b],
            rows,
            num_unique_metrics,
            #[trigger] batches[b],
            states[b + 1],
        )
}

/// Makes one batch of metric rows of the metrics that were drawn.
pub fn metrics_batch(
    schema: &Arc<Schema>,
    names: &Vec<String>,
    descriptions: &Vec<String>,
    draws: &Vec<usize>,
) -> (r: Result<Batch, ArrowError>)
    requires
        schema_fields(**schema) == metrics_fields(),
        names.len() <= 256 || draws.len() <= 256,
        descriptions.len() == names.len(),
        forall|i: int| 0 <= i < names.len() ==> (#[trigger] names[i])@ == metric_name(i as nat),
        forall|i: int|
            0 <= i < descriptions.len() ==> (#[trigger] descriptions[i])@ == metric_description(
                i as nat,
            ),
        forall|i: int| 0 <= i < draws.len() ==> #[trigger] draws[i] < names.len(),
    ensures
        r is Ok,
        r matches Ok(batch) ==> metrics_batch_of(
            draws.len() as nat,
            names.len() as nat,
            draws@,
            batch,
        ),
{
    let ghost rows = draws.len() as nat;
    let ghost num_unique_metrics = names.len() as nat;
    let mut v = MetricsRows {
        ids: Vec::new(),
        types: Vec::new(),
        names: Vec::new(),
        descriptions: Vec::new(),
        units: Vec::new(),
        urls: Vec::new(),
        temporalities: Vec::new(),
        monotonic: Vec::new(),
    };
    let mut row: usize = 0;
    while row < draws.len()
        invariant
            row <= draws.len(),
            descriptions.len() == names.len(),
            forall|i: int|
                0 <= i < names.len() ==> (#[trigger] names[i])@ == metric_name(i as nat),
            forall|i: int|
                0 <= i < descriptions.len() ==> (#[trigger] descriptions[i])@
                    == metric_description(i as nat),
            forall|i: int| 0 <= i < draws.len() ==> #[trigger] draws[i] < names.len(),
            metrics_rows_of(draws@, row as nat, v),
        decreases draws.len() - row,
    {
        let metric_idx: usize = draws[row];
        v.ids.push((row % 65536) as u16);
        v.types.push((metric_idx % 3) as u8 + 1);
        v.names.push(owned(names[metric_idx].as_str()));
        v.descriptions.push(owned(descriptions[metric_idx].as_str()));
        v.units.push(owned(unit(metric_idx % 15)));
        v.urls.push(owned(SCHEMA_URL));
        v.temporalities.push((metric_idx % 2) as i32 + 1);
        v.monotonic.push(metric_idx % 3 == 0);
        row += 1;
    }
    proof {
        lemma_metrics_texts(num_unique_metrics, draws@, rows, v);
    }
    let MetricsRows { ids, types, names, descriptions, units, urls, temporalities, monotonic } = v;
    let c0 = u16_array(ids);
    let c1 = u8_array(types);
    let c2 = text_dictionary_u8(&names);
    let c3 = text_dictionary_u8(&descriptions);
    let c4 = text_dictionary_u8(&units);
    let c5 = text_dictionary_u8(&urls);
    let c6 = int32_dictionary_u8(temporalities);
    let c7 = bool_array(monotonic);
    let mut columns: Vec<ArrowArray> = Vec::new();
    columns.push(c0);
    columns.push(c1);
    columns.push(c2);
    columns.push(c3);
    columns.push(c4);
    columns.push(c5);
    columns.push(c6);
    columns.push(c7);
    let ghost contents = contents_of(columns@);
    proof {
        let url = SCHEMA_URL@;
        assert(c0@.cells =~= Seq::new(rows, |r: int| Cell::Int(r % 65536)));
        assert(c1@.cells =~= Seq::new(rows, |r: int| Cell::Int(draws[r] as int % 3 + 1)));
        assert(c2@.cells =~= Seq::new(rows, |r: int| text_cell(metric_name(draws[r] as nat))));
        assert(c3@.cells =~= Seq::new(rows, |r: int| text_cell(metric_description(draws[r] as nat))));
        assert(c4@.cells =~= Seq::new(
            rows,
            |r: int| text_cell(crate::otap_metrics::units()[draws[r] as int % 15]),
        ));
        assert(c5@.cells =~= Seq::new(rows, |r: int| text_cell(url)));
        assert(c6@.cells =~= Seq::new(rows, |r: int| Cell::Int(draws[r] as int % 2 + 1)));
        assert(c7@.cells =~= Seq::new(rows, |r: int| bool_cell(draws[r] % 3 == 0)));
        assert(metrics_columns(rows, draws@, contents));
        lemma_metrics_fit(rows, draws@, contents);
    }
    match new_batch(schema, columns) {
        Ok(batch) => {
            assert(metrics_batch_of(rows, num_unique_metrics, draws@, batch));
            Ok(batch)
        },
        Err(error) => Err(error),
    }
}

/// Draws one batch of metric rows.
fn build_metrics_batch(
    schema: &Arc<Schema>,
    rows_per_batch: usize,
    names: &Vec<String>,
    descriptions: &Vec<String>,
    rng: &mut Generator,
) -> (r: Result<Batch, ArrowError>)
    requires
        old(rng).well_formed(),
        schema_fields(**schema) == metrics_fields(),
        rows_per_batch > 0 ==> names.len() > 0,
        names.len() <= 256 || rows_per_batch <= 256,
        descriptions.len() == names.len(),
        forall|i: int| 0 <= i < names.len() ==> (#[trigger] names[i])@ == metric_name(i as nat),
        forall|i: int|
            0 <= i < descriptions.len() ==> (#[trigger] descriptions[i])@ == metric_description(
                i as nat,
            ),
    ensures
        final(rng).well_formed(),
        r is Ok,
        r matches Ok(batch) ==> {
            &&& is_metrics_batch(rows_per_batch as nat, names.len() as nat, batch)
            &&& drawn_metrics_batch(
                old(rng)@,
                rows_per_batch as nat,
                names.len(),
                batch,
                final(rng)@,
            )
        },
{
    let draws = draw_metrics(rows_per_batch, names.len(), rng);
    match metrics_batch(schema, names, descriptions, &draws) {
        Ok(batch) => {
            assert(metrics_batch_of(rows_per_batch as nat, names.len() as nat, draws@, batch));
            Ok(batch)
        },
        Err(error) => Err(error),
    }
}

/// The columns of a metric batch fit the schema.
proof fn lemma_metrics_fit(rows: nat, draws: Seq<usize>, columns: Seq<ArrayModel>)
    requires
        metrics_columns(rows, draws, columns),
    ensures
        fits_schema(metrics_fields(), columns),
        forall|c: int|
            0 <= c < 8 && metrics_fields()[c].ty is Dictionary ==> (
            #[trigger] columns[c]).dictionary.len() <= rows,
{
    assert forall|c: int| 0 <= c < columns.len() implies {
        &&& (#[trigger] columns[c]).cells.len() == columns[0].cells.len()
        &&& columns[c].ty == metrics_fields()[c].ty
        &&& metrics_fields()[c].nullable || !columns[c].marks_null()
    } by {
        assert(c == 0 || c == 1 || c == 2 || c == 3 || c == 4 || c == 5 || c == 6 || c == 7);
    }
    lemma_distinct(columns[2].cells);
    lemma_distinct(columns[3].cells);
    lemma_distinct(columns[4].cells);
    lemma_distinct(columns[5].cells);
    lemma_distinct(columns[6].cells);
}

/// The fields of the metric batches have short names, and types that a reader takes.
pub proof fn lemma_metrics_modest()
    ensures
        forall|c: int|
            0 <= c < metrics_fields().len() ==> modest_field(#[trigger] metrics_fields()[c]),
{
    reveal_strlit("id");
    reveal_strlit("metric_type");
    reveal_strlit("name");
    reveal_strlit("description");
    reveal_strlit("unit");
    reveal_strlit("scope_schema_url");
    reveal_strlit("aggregation_temporality");
    reveal_strlit("is_monotonic");
    let fields = metrics_fields();
    assert forall|c: int| 0 <= c < fields.len() implies modest_field(#[trigger] fields[c]) by {
        assert(c == 0 || c == 1 || c == 2 || c == 3 || c == 4 || c == 5 || c == 6 || c == 7);
    }
}

/// The dictionary columns of a metric batch hold short values.
pub proof fn lemma_metrics_brief(rows: nat, num_unique_metrics: nat, batch: Batch)
    requires
        is_metrics_batch(rows, num_unique_metrics, batch),
    ensures
        brief_batch(metrics_fields(), rows, batch),
{
    let draws = choose|draws: Seq<usize>|
        #[trigger] metrics_batch_of(rows, num_unique_metrics, draws, batch);
    let columns = batch_columns(batch);
    lemma_units();
    lemma_url();
    lemma_utf8_len(SCHEMA_URL@);
    assert forall|r: int| 0 <= r < rows implies {
        &&& short(#[trigger] columns[2].cells[r])
        &&& short(columns[3].cells[r])
        &&& short(columns[4].cells[r])
    } by {
        lemma_name_len(draws[r] as nat);
        lemma_utf8_len(metric_name(draws[r] as nat));
        lemma_utf8_len(metric_description(draws[r] as nat));
        lemma_utf8_len(units()[draws[r] as int % 15]);
    }
    assert(brief(columns[2]) && brief(columns[5]) && brief(columns[6]));
    assert forall|r: int| 0 <= r < rows implies short(#[trigger] columns[3].cells[r]) by {
        assert(short(columns[2].cells[r]));
    }
    assert forall|r: int| 0 <= r < rows implies short(#[trigger] columns[4].cells[r]) by {
        assert(short(columns[2].cells[r]));
    }
    assert(brief(columns[3]) && brief(columns[4]));
    lemma_distinct(columns[2].cells);
    lemma_distinct(columns[3].cells);
    lemma_distinct(columns[4].cells);
    lemma_distinct(columns[5].cells);
    lemma_distinct(columns[6].cells);
    lemma_metrics_fit(rows, draws, columns);
}

/// Builds batches of metric rows. The batches can be unified.
pub fn build_otap_metrics_batches(
    num_batches: usize,
    rows_per_batch: usize,
    num_unique_metrics: usize,
) -> (r: Result<(Arc<Schema>, Vec<Batch>), ArrowError>)
    requires
        metrics_buildable(num_batches as nat, rows_per_batch as nat, num_unique_metrics as nat),
    ensures
        r is Ok,
        r matches Ok((schema, batches)) ==> {
            &&& schema_fields(*schema) == metrics_fields()
            &&& schema_metadata(*schema) == no_metadata()
            &&& batches.len() == num_batches
            &&& forall|b: int|
                0 <= b < batches.len() ==> is_metrics_batch(
                    rows_per_batch as nat,
                    num_unique_metrics as nat,
                    #[trigger] batches[b],
                )
            &&& conforming(schema_fields(*schema), batches@)
            &&& exists|states: Seq<StdRng>| #[trigger]
                metrics_run(rows_per_batch as nat, num_unique_metrics, batches@, states)
        },
{
    let schema = metrics_schema();
    let names = metric_names(num_unique_metrics);
    let descriptions = metric_descriptions(num_unique_metrics);
    let mut rng = Generator::from_seed(BENCH_SEED);
    let ghost mut states: Seq<StdRng> = seq![rng@];
    let mut batches: Vec<Batch> = Vec::new();
    let mut b: usize = 0;
    while b < num_batches
        invariant
            b <= num_batches,
            schema_fields(*schema) == metrics_fields(),
            rows_per_batch > 0 ==> num_unique_metrics > 0,
            num_unique_metrics <= 256 || rows_per_batch <= 256,
            names.len() == num_unique_metrics,
            descriptions.len() == num_unique_metrics,
            forall|i: int|
                0 <= i < names.len() ==> (#[trigger] names[i])@ == metric_name(i as nat),
            forall|i: int|
                0 <= i < descriptions.len() ==> (#[trigger] descriptions[i])@
                    == metric_description(i as nat),
            rng.well_formed(),
            metrics_run(rows_per_batch as nat, num_unique_metrics, batches@, states),
            states.last() == rng@,
            batches.len() == b,
            forall|i: int|
                0 <= i < batches.len() ==> is_metrics_batch(
                    rows_per_batch as nat,
                    num_unique_metrics as nat,
                    #[trigger] batches[i],
                ),
        decreases num_batches - b,
    {
        let ghost earlier = batches@;
        let ghost stood = states;
        match build_metrics_batch(&schema, rows_per_batch, &names, &descriptions, &mut rng) {
            Ok(batch) => {
                batches.push(batch);
                proof {
                    states = states.push(rng@);
                    assert forall|i: int| 0 <= i < batches@.len() implies drawn_metrics_batch(
                        states[i],
                        rows_per_batch as nat,
                        num_unique_metrics,
                        #[trigger] batches@[i],
                        states[i + 1],
                    ) by {
                        if i < earlier.len() {
                            assert(batches@[i] == earlier[i]);
                            assert(states[i] == stood[i] && states[i + 1] == stood[i + 1]);
                        }
                    }
                }
            },
            Err(error) => {
                return Err(error);
            },
        }
        b += 1;
    }
    proof {
        let fields = metrics_fields();
        let rows = rows_per_batch as nat;
        let n = num_unique_metrics as nat;
        assert forall|i: int, c: int| 0 <= i < batches@.len() && 0 <= c < fields.len() implies {
            &&& (#[trigger] batch_columns(batches@[i])[c]).ty == fields[c].ty
            &&& fields[c].ty is Dictionary ==> batch_columns(batches@[i])[c].dictionary.len()
                <= rows
        } by {
            assert(is_metrics_batch(rows, n, batches[i]));
            let draws = choose|draws: Seq<usize>|
                #[trigger] metrics_batch_of(rows, n, draws, batches[i]);
            lemma_metrics_fit(rows, draws, batch_columns(batches[i]));
        }
        assert forall|i: int| 0 <= i < batches@.len() implies batch_columns(
            #[trigger] batches@[i],
        ).len() == fields.len() by {
            assert(is_metrics_batch(rows, n, batches[i]));
        }
        lemma_conforming(fields, batches@, rows);
    }
    Ok((schema, batches))
}

} // verus!
