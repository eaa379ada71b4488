//! Record batches like those of a trace payload: plain identifiers, short dictionaries that all
//! batches share, and a long dictionary of durations.

use std::collections::HashSet;
use std::sync::Arc;

use arrow_schema::{ArrowError, Schema};
use rand::rngs::StdRng;
use vstd::prelude::*;

use crate::arrow::{
    batch_columns, batch_rows, builder_fields, contents_of, finish_schema, fits_schema, new_batch,
    new_schema, no_metadata, schema_fields, schema_metadata, ArrowArray, Batch,
};
use crate::building::{
    binary_array, bytes_cell, distinct, duration_dictionary_u16, int32_cells,
    int32_dictionary_u8, int64_cells, is_dictionary, is_plain, lemma_distinct,
    lemma_distinct_in_pool, moderate, push_dictionary_field, push_plain_field, text_cells,
    text_dictionary_u8, timestamp_array, u32_array,
};
use crate::draws::{
    falls_below, fraction_of, gave_below, gave_between, gave_bytes, gave_word, seeded, Generator,
    BENCH_SEED, EIGHT_TENTHS, NINE_TENTHS,
};
use crate::feasible::{brief, brief_batch, brief_column, modest_field, short};
use crate::model::{ArrayModel, Cell, ElementType, FieldModel, IndexType};
use crate::otap::{
    dictionary_field, lemma_few_texts, lemma_fewer_rows, lemma_url, owned, plain_field, row_time,
    text_cell, time_of_row, two_words, BASE_TIME, ROW_TIME, SCHEMA_URL,
};
use crate::otap_logs::{span_id, trace_id};
use crate::otap_metrics::lemma_numbered_texts;
use crate::text::{decimal, lemma_decimal_len, lemma_utf8_len, push_decimal};
use crate::unification::conforming;
use crate::workload::lemma_conforming;

verus! {

broadcast use vstd::std_specs::hash::group_hash_axioms;

/// The fields of the trace batches.
pub open spec fn traces_fields() -> Seq<FieldModel> {
    seq![
        plain_field("start_time_unix_nano"@, ElementType::TimestampNanos, false),
        plain_field("trace_id"@, ElementType::FixedSizeBinary(16), false),
        plain_field("span_id"@, ElementType::FixedSizeBinary(8), false),
        plain_field("parent_span_id"@, ElementType::FixedSizeBinary(8), true),
        dictionary_field("name"@, IndexType::UInt8, ElementType::Utf8, false),
        dictionary_field("kind"@, IndexType::UInt8, ElementType::Int32, true),
        dictionary_field("schema_url"@, IndexType::UInt8, ElementType::Utf8, true),
        dictionary_field("trace_state"@, IndexType::UInt8, ElementType::Utf8, true),
        dictionary_field(
            "duration_time_unix_nano"@,
            IndexType::UInt16,
            ElementType::DurationNanos,
            false,
        ),
        plain_field("dropped_attributes_count"@, ElementType::UInt32, false),
    ]
}

/// The schema of the trace batches.
pub fn traces_schema() -> (r: Arc<Schema>)
    ensures
        schema_fields(*r) == traces_fields(),
        schema_metadata(*r) == no_metadata(),
{
    let mut f = new_schema();
    push_plain_field(&mut f, "start_time_unix_nano", ElementType::TimestampNanos, false);
    push_plain_field(&mut f, "trace_id", ElementType::FixedSizeBinary(16), false);
    push_plain_field(&mut f, "span_id", ElementType::FixedSizeBinary(8), false);
    push_plain_field(&mut f, "parent_span_id", ElementType::FixedSizeBinary(8), true);
    push_dictionary_field(&mut f, "name", IndexType::UInt8, ElementType::Utf8, false);
    push_dictionary_field(&mut f, "kind", IndexType::UInt8, ElementType::Int32, true);
    push_dictionary_field(&mut f, "schema_url", IndexType::UInt8, ElementType::Utf8, true);
    push_dictionary_field(&mut f, "trace_state", IndexType::UInt8, ElementType::Utf8, true);
    push_dictionary_field(
        &mut f,
        "duration_time_unix_nano",
        IndexType::UInt16,
        ElementType::DurationNanos,
        false,
    );
    push_plain_field(&mut f, "dropped_attributes_count", ElementType::UInt32, false);
    assert(builder_fields(f) =~= traces_fields());
    finish_schema(f)
}

// ---- the values ----------------------------------------------------------------------------

/// What the names of operations begin with.
pub open spec fn services() -> Seq<Seq<char>> {
    seq!["GET"@, "POST"@, "grpc"@, "internal"@]
}

/// What operations work on.
pub open spec fn endpoints() -> Seq<Seq<char>> {
    seq![
        "/api/users"@,
        "/api/orders"@,
        "/api/products"@,
        "/health"@,
        ".UserService/GetUser"@,
        ".OrderService/CreateOrder"@,
        "db.query"@,
        "cache.get"@,
    ]
}

/// The name of an operation.
pub open spec fn span_name(i: nat) -> Seq<char> {
    services()[i as int % 4] + " "@ + endpoints()[i as int % 8] + "/"@ + decimal(i / 8)
}

/// The trace states that all batches share.
pub open spec fn shared_states() -> Seq<Seq<char>> {
    seq![
        "sampled=true"@,
        "sampled=false"@,
        "rate=0.1"@,
        "rate=0.5"@,
        "rate=1.0"@,
        "priority=high"@,
        "priority=low"@,
        "debug=true"@,
    ]
}

/// The trace state of a row that belongs to one batch alone.
pub open spec fn batch_state(b: nat, row: nat) -> Seq<char> {
    "batch="@ + decimal(b) + ",row="@ + decimal(row % 5)
}

/// The names of operations.
pub fn span_names(n: usize) -> (r: Vec<String>)
    ensures
        r.len() == n,
        forall|i: int| 0 <= i < n ==> (#[trigger] r[i])@ == span_name(i as nat),
{
    let mut names: Vec<String> = Vec::new();
    let mut i: usize = 0;
    while i < n
        invariant
            i <= n,
            names.len() == i,
            forall|j: int| 0 <= j < i ==> (#[trigger] names[j])@ == span_name(j as nat),
        decreases n - i,
    {
        let service: &'static str = match i % 4 {
            0 => "GET",
            1 => "POST",
            2 => "grpc",
            _ => "internal",
        };
        let endpoint: &'static str = match i % 8 {
            0 => "/api/users",
            1 => "/api/orders",
            2 => "/api/products",
            3 => "/health",
            4 => ".UserService/GetUser",
            5 => ".OrderService/CreateOrder",
            6 => "db.query",
            _ => "cache.get",
        };
        let mut name: String = String::new();
        name.push_str(service);
        name.push_str(" ");
        name.push_str(endpoint);
        name.push_str("/");
        push_decimal(&mut name, (i / 8) as u64);
        assert(name@ =~= span_name(i as nat));
        names.push(name);
        i += 1;
    }
    names
}

fn shared_state(i: usize) -> (r: &'static str)
    requires
        i < 8,
    ensures
        r@ == shared_states()[i as int],
{
    match i {
        0 => "sampled=true",
        1 => "sampled=false",
        2 => "rate=0.1",
        3 => "rate=0.5",
        4 => "rate=1.0",
        5 => "priority=high",
        6 => "priority=low",
        _ => "debug=true",
    }
}

fn own_state(b: usize, row: usize) -> (r: String)
    ensures
        r@ == batch_state(b as nat, row as nat),
{
    let mut s: String = String::new();
    s.push_str("batch=");
    push_decimal(&mut s, b as u64);
    s.push_str(",row=");
    push_decimal(&mut s, (row % 5) as u64);
    assert(s@ =~= batch_state(b as nat, row as nat));
    s
}

/// What is drawn for one row.
#[derive(Debug)]
pub struct TracesDraw {
    /// The random part of the trace identifier.
    pub tail: Vec<u8>,
    /// Whether there is a parent: eight times in ten.
    pub parent_word: u64,
    /// The parent's identifier, where there is one.
    pub parent: Vec<u8>,
    /// Which operation.
    pub name: usize,
    /// Which kind.
    pub kind: usize,
    /// Whether the trace state is a shared one: nine times in ten.
    pub state_word: u64,
    /// Which shared trace state, where it is one.
    pub state: usize,
    /// The duration in nanoseconds.
    pub duration: i64,
}

/// Whether a draw is one that can come.
pub open spec fn traces_draw_valid(num_unique_span_names: nat, d: TracesDraw) -> bool {
    &&& d.tail.len() == 8
    &&& fraction_of(d.parent_word) < EIGHT_TENTHS ==> d.parent.len() == 8
    &&& d.name < num_unique_span_names
    &&& d.kind < 5
    &&& d.state < 8
    &&& SHORTEST <= d.duration < LONGEST
}

/// The parent of a row.
pub open spec fn parent_cell(d: TracesDraw) -> Cell {
    if fraction_of(d.parent_word) < EIGHT_TENTHS {
        Cell::Bytes(d.parent@)
    } else {
        Cell::Null
    }
}

/// The trace state of a row.
pub open spec fn trace_state(b: nat, row: nat, d: TracesDraw) -> Seq<char> {
    if fraction_of(d.state_word) < NINE_TENTHS {
        shared_states()[d.state as int]
    } else {
        batch_state(b, row)
    }
}

/// Whether columns are those that given draws make.
pub open spec fn traces_columns(
    b: nat,
    rows: nat,
    draws: Seq<TracesDraw>,
    columns: Seq<ArrayModel>,
) -> bool {
    let url = SCHEMA_URL@;
    &&& columns.len() == 10
    &&& is_plain(
        columns[0],
        ElementType::TimestampNanos,
        Seq::new(rows, |r: int| Cell::Int(row_time(b, rows, r as nat))),
    )
    &&& is_plain(
        columns[1],
        ElementType::FixedSizeBinary(16),
        Seq::new(rows, |r: int| Cell::Bytes(trace_id(b, r as nat, draws[r].tail@))),
    )
    &&& is_plain(
        columns[2],
        ElementType::FixedSizeBinary(8),
        Seq::new(rows, |r: int| Cell::Bytes(span_id(b, r as nat))),
    )
    &&& is_plain(
        columns[3],
        ElementType::FixedSizeBinary(8),
        Seq::new(rows, |r: int| parent_cell(draws[r])),
    )
    &&& is_dictionary(
        columns[4],
        IndexType::UInt8,
        ElementType::Utf8,
        Seq::new(rows, |r: int| text_cell(span_name(draws[r].name as nat))),
    )
    &&& is_dictionary(
        columns[5],
        IndexType::UInt8,
        ElementType::Int32,
        Seq::new(rows, |r: int| Cell::Int(draws[r].kind as int)),
    )
    &&& is_dictionary(
        columns[6],
        IndexType::UInt8,
        ElementType::Utf8,
        Seq::new(rows, |r: int| text_cell(url)),
    )
    &&& is_dictionary(
        columns[7],
        IndexType::UInt8,
        ElementType::Utf8,
        Seq::new(rows, |r: int| text_cell(trace_state(b, r as nat, draws[r]))),
    )
    &&& is_dictionary(
        columns[8],
        IndexType::UInt16,
        ElementType::DurationNanos,
        Seq::new(rows, |r: int| Cell::Int(draws[r].duration as int)),
    )
    &&& is_plain(
        columns[9],
        ElementType::UInt32,
        Seq::new(rows, |r: int| Cell::Int(0)),
    )
}

/// Whether a batch is the one that given draws make.
pub open spec fn traces_batch_of(
    b: nat,
    rows: nat,
    num_unique_span_names: nat,
    draws: Seq<TracesDraw>,
    batch: Batch,
) -> bool {
    &&& draws.len() == rows
    &&& forall|r: int|
        0 <= r < draws.len() ==> traces_draw_valid(num_unique_span_names, #[trigger] draws[r])
    &&& batch_rows(batch) == rows
    &&& traces_columns(b, rows, draws, batch_columns(batch))
}

/// Whether a batch is one that can be drawn.
pub open spec fn is_traces_batch(
    b: nat,
    rows: nat,
    num_unique_span_names: nat,
    batch: Batch,
) -> bool {
    exists|draws: Seq<TracesDraw>|
        #[trigger] traces_batch_of(b, rows, num_unique_span_names, draws, batch)
}

/// The duration of one row of a batch.
pub open spec fn duration_at(batch: Batch, row: int) -> i64 {
    batch_columns(batch)[8].cells[row]->Int_0 as i64
}

/// Whether no two rows of the batches have one duration.
pub open spec fn durations_unique(batches: Seq<Batch>, rows: nat) -> bool {
    &&& forall|b: int, i: int, j: int|
        0 <= b < batches.len() && 0 <= i < j < rows ==> #[trigger] duration_at(batches[b], i)
            != #[trigger] duration_at(batches[b], j)
    &&& forall|a: int, b: int, i: int, j: int|
        0 <= a < b < batches.len() && 0 <= i < rows && 0 <= j < rows
            ==> #[trigger] duration_at(batches[a], i) != #[trigger] duration_at(batches[b], j)
}

/// What can be built: there is an operation for each row, the names fit in 8-bit keys and the
/// durations in 16-bit keys whatever is drawn, the times fit in 64 bits, and all rows of all
/// columns can be counted.
pub open spec fn traces_buildable(
    num_batches: nat,
    rows: nat,
    num_unique_span_names: nat,
) -> bool {
    &&& rows > 0 ==> num_unique_span_names > 0
    &&& num_unique_span_names <= 256 || rows <= 256
    &&& rows <= 65536
    &&& BASE_TIME + (num_batches * rows) * ROW_TIME <= i64::MAX
    &&& 10 * (num_batches * rows) <= usize::MAX
}

/// Whether so many rows can be built: see [`traces_buildable`].
pub fn can_build_traces(
    num_batches: usize,
    rows_per_batch: usize,
    num_unique_span_names: usize,
) -> (r: bool)
    ensures
        r == traces_buildable(
            num_batches as nat,
            rows_per_batch as nat,
            num_unique_span_names as nat,
        ),
{
    if rows_per_batch > 0 && num_unique_span_names == 0 {
        return false;
    }
    if num_unique_span_names > 256 && rows_per_batch > 256 {
        return false;
    }
    if rows_per_batch as u64 > 65536 {
        return false;
    }
    match num_batches.checked_mul(rows_per_batch) {
        Some(total) => {
            let last: i128 = BASE_TIME as i128 + total as i128 * ROW_TIME as i128;
            last <= i64::MAX as i128 && total <= usize::MAX / 10
        },
        None => false,
    }
}

// ---- the batches ---------------------------------------------------------------------------

/// Column by column, what has been drawn for the first rows of a batch.
struct TracesRows {
    times: Vec<i64>,
    trace_ids: Vec<Option<Vec<u8>>>,
    span_ids: Vec<Option<Vec<u8>>>,
    parents: Vec<Option<Vec<u8>>>,
    names: Vec<String>,
    kinds: Vec<i32>,
    urls: Vec<String>,
    states: Vec<String>,
    durations: Vec<i64>,
    zeros: Vec<u32>,
}

/// Whether what has been drawn is what given draws make.
spec fn traces_rows_of(
    b: nat,
    rows: nat,
    draws: Seq<TracesDraw>,
    n: nat,
    v: TracesRows,
) -> bool {
    let url = SCHEMA_URL@;
    &&& v.times.len() == n
    &&& v.trace_ids.len() == n
    &&& v.span_ids.len() == n
    &&& v.parents.len() == n
    &&& v.names.len() == n
    &&& v.kinds.len() == n
    &&& v.urls.len() == n
    &&& v.states.len() == n
    &&& v.durations.len() == n
    &&& v.zeros.len() == n
    &&& forall|r: int| 0 <= r < n ==> #[trigger] v.times[r] == row_time(b, rows, r as nat)
    &&& forall|r: int|
        0 <= r < n ==> bytes_cell(#[trigger] v.trace_ids[r]) == Cell::Bytes(
            trace_id(b, r as nat, draws[r].tail@),
        )
    &&& forall|r: int|
        0 <= r < n ==> bytes_cell(#[trigger] v.span_ids[r]) == Cell::Bytes(span_id(b, r as nat))
    &&& forall|r: int|
        0 <= r < n ==> bytes_cell(#[trigger] v.parents[r]) == parent_cell(draws[r])
    &&& forall|r: int| 0 <= r < n ==> (#[trigger] v.names[r])@ == span_name(draws[r].name as nat)
    &&& forall|r: int| 0 <= r < n ==> #[trigger] v.kinds[r] == draws[r].kind
    &&& forall|r: int| 0 <= r < n ==> (#[trigger] v.urls[r])@ == url
    &&& forall|r: int|
        0 <= r < n ==> (#[trigger] v.states[r])@ == trace_state(b, r as nat, draws[r])
    &&& forall|r: int| 0 <= r < n ==> #[trigger] v.durations[r] == draws[r].duration
    &&& forall|r: int| 0 <= r < n ==> #[trigger] v.zeros[r] == 0
}

proof fn lemma_literals()
    ensures
        forall|i: int| 0 <= i < 4 ==> (#[trigger] services()[i]).len() <= 100,
        forall|i: int| 0 <= i < 8 ==> (#[trigger] endpoints()[i]).len() <= 100,
        forall|i: int| 0 <= i < 8 ==> (#[trigger] shared_states()[i]).len() <= 100,
{
    reveal_strlit("GET");
    reveal_strlit("POST");
    reveal_strlit("grpc");
    reveal_strlit("internal");
    reveal_strlit("/api/users");
    reveal_strlit("/api/orders");
    reveal_strlit("/api/products");
    reveal_strlit("/health");
    reveal_strlit(".UserService/GetUser");
    reveal_strlit(".OrderService/CreateOrder");
    reveal_strlit("db.query");
    reveal_strlit("cache.get");
    reveal_strlit("sampled=true");
    reveal_strlit("sampled=false");
    reveal_strlit("rate=0.1");
    reveal_strlit("rate=0.5");
    reveal_strlit("rate=1.0");
    reveal_strlit("priority=high");
    reveal_strlit("priority=low");
    reveal_strlit("debug=true");
}

proof fn lemma_span_name_len(i: nat)
    requires
        i <= u64::MAX,
    ensures
        span_name(i).len() <= 250,
{
    lemma_literals();
    reveal_strlit(" ");
    reveal_strlit("/");
    lemma_decimal_len((i / 8) as u64);
    assert(services()[i as int % 4].len() <= 100);
    assert(endpoints()[i as int % 8].len() <= 100);
}

proof fn lemma_batch_state_len(b: nat, row: nat)
    requires
        b <= u64::MAX,
    ensures
        batch_state(b, row).len() <= 250,
{
    reveal_strlit("batch=");
    reveal_strlit(",row=");
    lemma_decimal_len(b as u64);
    lemma_decimal_len((row % 5) as u64);
}

proof fn lemma_traces_states(b: nat, rows: nat, draws: Seq<TracesDraw>, states: Seq<String>)
    requires
        b <= u64::MAX,
        states.len() == rows,
        draws.len() == rows,
        forall|r: int|
            0 <= r < rows ==> (#[trigger] states[r])@ == trace_state(b, r as nat, draws[r]),
        forall|r: int| 0 <= r < draws.len() ==> (#[trigger] draws[r]).state < 8,
    ensures
        moderate(states),
        distinct(text_cells(states)).len() <= 256,
{
    lemma_literals();
    let own = Seq::new(5, |i: int| batch_state(b, i as nat));
    let pool = shared_states() + own;
    assert forall|i: int| 0 <= i < pool.len() implies (#[trigger] pool[i]).len() <= 8191 by {
        if i < 8 {
            assert(pool[i] == shared_states()[i]);
        } else {
            assert(pool[i] == own[i - 8]);
            lemma_batch_state_len(b, (i - 8) as nat);
        }
    }
    assert forall|r: int| 0 <= r < states.len() implies pool.contains((#[trigger] states[r])@) by {
        assert(states[r]@ == trace_state(b, r as nat, draws[r]));
        assert(draws[r].state < 8);
        if fraction_of(draws[r].state_word) < NINE_TENTHS {
            assert(pool[draws[r].state as int] == states[r]@);
        } else {
            let k = r % 5;
            assert((k as nat) % 5 == (r as nat) % 5);
            assert(batch_state(b, k as nat) == batch_state(b, r as nat));
            assert(pool[8 + k] == own[k]);
            assert(pool[8 + k] == states[r]@);
        }
    }
    lemma_few_texts(states, pool);
}

proof fn lemma_traces_texts(
    b: nat,
    rows: nat,
    num_unique_span_names: nat,
    draws: Seq<TracesDraw>,
    v: TracesRows,
)
    requires
        b <= u64::MAX,
        traces_rows_of(b, rows, draws, rows, v),
        draws.len() == rows,
        rows <= 65536,
        num_unique_span_names <= 256 || rows <= 256,
        num_unique_span_names <= u64::MAX,
        forall|r: int|
            0 <= r < draws.len() ==> traces_draw_valid(
                num_unique_span_names,
                #[trigger] draws[r],
            ),
    ensures
        moderate(v.names@),
        distinct(text_cells(v.names@)).len() <= 256,
        moderate(v.urls@),
        distinct(text_cells(v.urls@)).len() <= 256,
        moderate(v.states@),
        distinct(text_cells(v.states@)).len() <= 256,
        distinct(int32_cells(v.kinds@)).len() <= 256,
        distinct(int64_cells(v.durations@)).len() <= 65536,
{
    lemma_url();
    let name_draws = Seq::new(rows, |r: int| draws[r].name as nat);
    assert forall|r: int| 0 <= r < name_draws.len() implies #[trigger] name_draws[r]
        < num_unique_span_names by {
        assert(traces_draw_valid(num_unique_span_names, draws[r]));
    }
    assert forall|r: int| 0 <= r < v.names@.len() implies (#[trigger] v.names@[r])@.len() <= 8191
        && v.names@[r]@ == span_name(name_draws[r]) by {
        assert(v.names[r]@ == span_name(draws[r].name as nat));
        assert(traces_draw_valid(num_unique_span_names, draws[r]));
        lemma_span_name_len(draws[r].name as nat);
    }
    let name_of = |i: nat| span_name(i);
    lemma_numbered_texts(v.names@, name_draws, num_unique_span_names, name_of);
    let urls = seq![SCHEMA_URL@];
    assert forall|i: int| 0 <= i < v.urls@.len() implies urls.contains((#[trigger] v.urls@[i])@) by {
        assert(urls[0] == v.urls[i]@);
    }
    lemma_few_texts(v.urls@, urls);
    assert forall|r: int| 0 <= r < draws.len() implies (#[trigger] draws[r]).state < 8 by {
        assert(traces_draw_valid(num_unique_span_names, draws[r]));
    }
    lemma_traces_states(b, rows, draws, v.states@);
    let cells = int32_cells(v.kinds@);
    let pool = Seq::new(5, |i: int| Cell::Int(i));
    assert forall|i: int| 0 <= i < cells.len() implies pool.contains(#[trigger] cells[i]) by {
        assert(v.kinds[i] == draws[i].kind);
        assert(traces_draw_valid(num_unique_span_names, draws[i]));
        assert(pool[draws[i].kind as int] == cells[i]);
    }
    lemma_distinct_in_pool(cells, pool);
    lemma_distinct(int64_cells(v.durations@));
}

/// The shortest duration of a span, in nanoseconds.
pub const SHORTEST: i64 = 100_000;

/// What the durations of spans stay below, in nanoseconds.
pub const LONGEST: i64 = 500_000_000;

/// How many durations there are.
pub const DURATIONS: usize = 499_900_000;

/// Whether durations that are taken are among those there are.
spec fn durations_taken(taken: Set<i64>) -> bool {
    &&& taken.finite()
    &&& forall|d: i64| #[trigger] taken.contains(d) ==> SHORTEST <= d < LONGEST
}

/// Where all durations are taken, so many are.
proof fn lemma_all_taken(taken: Set<i64>)
    requires
        taken.finite(),
        forall|d: i64| SHORTEST <= d < LONGEST ==> #[trigger] taken.contains(d),
    ensures
        taken.len() >= DURATIONS,
{
    let all = vstd::set_lib::set_int_range(SHORTEST as int, LONGEST as int);
    vstd::set_lib::lemma_int_range(SHORTEST as int, LONGEST as int);
    let numbers = taken.map(|d: i64| d as int);
    vstd::set_lib::lemma_map_size_bound(taken, numbers, |d: i64| d as int);
    assert forall|n: int| all.contains(n) implies numbers.contains(n) by {
        assert(taken.contains(n as i64));
    }
    vstd::set_lib::lemma_len_subset(all, numbers);
}

/// Whether a duration is the one that a row gets for which another is drawn: the drawn one where that
/// is not taken, or else the next one after it that is not, with the shortest after the longest;
/// where all are taken, the drawn one.
pub open spec fn settles(drawn: i64, taken: Set<i64>, duration: i64) -> bool {
    if taken.len() < DURATIONS {
        &&& SHORTEST <= duration < LONGEST
        &&& !taken.contains(duration)
        &&& if duration >= drawn {
            forall|x: i64| drawn <= x < duration ==> #[trigger] taken.contains(x)
        } else {
            &&& forall|x: i64| drawn <= x < LONGEST ==> #[trigger] taken.contains(x)
            &&& forall|x: i64| SHORTEST <= x < duration ==> #[trigger] taken.contains(x)
        }
    } else {
        duration == drawn
    }
}

/// Whether what is drawn for one row is what a generator gives, where it stands at these places: the
/// random part of the trace identifier; whether there is a parent, and its identifier where there
/// is one; the operation and the kind; whether the trace state is a shared one, and which it is,
/// where it is one; and the duration, for which the next one is taken that is not.
pub open spec fn traces_row_drawn(
    states: Seq<StdRng>,
    num_unique_span_names: usize,
    taken: Set<i64>,
    d: TracesDraw,
    drawn: i64,
) -> bool {
    &&& states.len() == 9
    &&& gave_bytes(states[0], 8, d.tail, states[1])
    &&& gave_word(states[1], d.parent_word, states[2])
    &&& if fraction_of(d.parent_word) < EIGHT_TENTHS {
        gave_bytes(states[2], 8, d.parent, states[3])
    } else {
        states[3] == states[2]
    }
    &&& gave_below(states[3], num_unique_span_names, d.name, states[4])
    &&& gave_below(states[4], 5, d.kind, states[5])
    &&& gave_word(states[5], d.state_word, states[6])
    &&& if fraction_of(d.state_word) < NINE_TENTHS {
        gave_below(states[6], 8, d.state, states[7])
    } else {
        states[7] == states[6]
    }
    &&& gave_between(states[7], SHORTEST, LONGEST, drawn, states[8])
    &&& settles(drawn, taken, d.duration)
}

/// Whether what is drawn for one row is what a generator gives.
pub open spec fn traces_row_run(
    before: StdRng,
    num_unique_span_names: usize,
    taken: Set<i64>,
    d: TracesDraw,
    after: StdRng,
) -> bool {
    exists|states: Seq<StdRng>, drawn: i64| #[trigger]
        traces_row_drawn(states, num_unique_span_names, taken, d, drawn) && states[0] == before
            && states[8] == after
}

/// Whether what is drawn for rows is what a generator gives one after the other, where it stands at
/// these places and these durations are taken.
pub open spec fn traces_rows_drawn(
    states: Seq<StdRng>,
    takens: Seq<Set<i64>>,
    num_unique_span_names: usize,
    draws: Seq<TracesDraw>,
) -> bool {
    &&& states.len() == draws.len() + 1
    &&& takens.len() == draws.len() + 1
    &&& forall|i: int|
        0 <= i < draws.len() ==> {
            &&& traces_row_run(
                states[i],
                num_unique_span_names,
                takens[i],
                #[trigger] draws[i],
                states[i + 1],
            )
            &&& takens[i + 1] == takens[i].insert(draws[i].duration)
        }
}

/// Whether what is drawn for a batch is what a generator gives.
pub open spec fn traces_draws_run(
    before: StdRng,
    taken_before: Set<i64>,
    num_unique_span_names: usize,
    draws: Seq<TracesDraw>,
    after: StdRng,
    taken_after: Set<i64>,
) -> bool {
    exists|states: Seq<StdRng>, takens: Seq<Set<i64>>|
        {
            &&& #[trigger] traces_rows_drawn(states, takens, num_unique_span_names, draws)
            &&& states.first() == before && states.last() == after
            &&& takens.first() == taken_before && takens.last() == taken_after
        }
}

/// Whether a batch is the one that what a generator gives for it makes.
pub open spec fn drawn_traces_batch(
    before: StdRng,
    taken_before: Set<i64>,
    b: nat,
    rows: nat,
    num_unique_span_names: usize,
    batch: Batch,
    after: StdRng,
    taken_after: Set<i64>,
) -> bool {
    exists|draws: Seq<TracesDraw>|
        {
            &&& #[trigger] traces_draws_run(
                before,
                taken_before,
                num_unique_span_names,
                draws,
                after,
                taken_after,
            )
            &&& traces_batch_of(b, rows, num_unique_span_names as nat, draws, batch)
        }
}

/// Whether batches are those that the generator of the seed makes, one after the other, where no
/// duration is taken in the beginning.
pub open spec fn traces_run(
    rows: nat,
    num_unique_span_names: usize,
    batches: Seq<Batch>,
    states: Seq<StdRng>,
    takens: Seq<Set<i64>>,
) -> bool {
    &&& states.len() == batches.len() + 1
    &&& takens.len() == batches.len() + 1
    &&& seeded(BENCH_SEED, states[0])
    &&& takens[0] == Set::<i64>::empty()
    &&& forall|b: int|
        0 <= b < batches.len() ==> drawn_traces_batch(
            states[b],
            takens[b],
            b as nat,
            rows,
            num_unique_span_names,
            #[trigger] batches[b],
            states[b + 1],
            takens[b + 1],
        )
}

/// A duration that is not taken: the given one, or else the next one after it, with the shortest
/// after the longest.
fn free_duration(drawn: i64, taken: &HashSet<i64>) -> (r: i64)
    requires
        SHORTEST <= drawn < LONGEST,
        durations_taken(taken@),
        taken@.len() < DURATIONS,
    ensures
        SHORTEST <= r < LONGEST,
        !taken@.contains(r),
        !taken@.contains(drawn) ==> r == drawn,
        settles(drawn, taken@, r),
{
    let mut d: i64 = drawn;
    while d < LONGEST
        invariant
            SHORTEST <= drawn <= d <= LONGEST,
            taken@.len() < DURATIONS,
            forall|x: i64| drawn <= x < d ==> #[trigger] taken@.contains(x),
        decreases LONGEST - d,
    {
        if !taken.contains(&d) {
            return d;
        }
        d += 1;
    }
    d = SHORTEST;
    while d < drawn
        invariant
            SHORTEST <= d <= drawn < LONGEST,
            taken@.len() < DURATIONS,
            taken@.contains(drawn),
            forall|x: i64| drawn <= x < LONGEST ==> #[trigger] taken@.contains(x),
            forall|x: i64| SHORTEST <= x < d ==> #[trigger] taken@.contains(x),
        decreases drawn - d,
    {
        if !taken.contains(&d) {
            return d;
        }
        d += 1;
    }
    proof {
        lemma_all_taken(taken@);
    }
    drawn
}

/// Whether no two rows have one duration.
pub open spec fn durations_differ(draws: Seq<TracesDraw>) -> bool {
    forall|i: int, j: int|
        0 <= i < j < draws.len() ==> (#[trigger] draws[i]).duration != (
        #[trigger] draws[j]).duration
}

/// One more row goes on where the rows before it end.
proof fn lemma_rows_extended(
    states: Seq<StdRng>,
    takens: Seq<Set<i64>>,
    num_unique_span_names: usize,
    draws: Seq<TracesDraw>,
    d: TracesDraw,
    after: StdRng,
    taken: Set<i64>,
)
    requires
        traces_rows_drawn(states, takens, num_unique_span_names, draws),
        traces_row_run(states.last(), num_unique_span_names, takens.last(), d, after),
        taken == takens.last().insert(d.duration),
    ensures
        traces_rows_drawn(
            states.push(after),
            takens.push(taken),
            num_unique_span_names,
            draws.push(d),
        ),
{
    let (s, t, all) = (states.push(after), takens.push(taken), draws.push(d));
    assert forall|i: int| 0 <= i < all.len() implies {
        &&& traces_row_run(s[i], num_unique_span_names, t[i], #[trigger] all[i], s[i + 1])
        &&& t[i + 1] == t[i].insert(all[i].duration)
    } by {
        if i < draws.len() {
            assert(all[i] == draws[i]);
            assert(traces_row_run(
                states[i],
                num_unique_span_names,
                takens[i],
                draws[i],
                states[i + 1],
            ));
        }
    }
}

/// Draws what the rows of one batch are made of. As long as there are durations that are not
/// taken, each row takes one of those.
fn draw_traces(
    rows_per_batch: usize,
    num_unique_span_names: usize,
    taken: &mut HashSet<i64>,
    rng: &mut Generator,
) -> (r: Vec<TracesDraw>)
    requires
        old(rng).well_formed(),
        rows_per_batch > 0 ==> num_unique_span_names > 0,
        durations_taken(old(taken)@),
    ensures
        final(rng).well_formed(),
        traces_draws_run(
            old(rng)@,
            old(taken)@,
            num_unique_span_names,
            r@,
            final(rng)@,
            final(taken)@,
        ),
        r.len() == rows_per_batch,
        forall|i: int|
            0 <= i < r.len() ==> traces_draw_valid(num_unique_span_names as nat, #[trigger] r[i]),
        durations_taken(final(taken)@),
        final(taken)@.len() <= old(taken)@.len() + rows_per_batch,
        forall|d: i64| old(taken)@.contains(d) ==> #[trigger] final(taken)@.contains(d),
        forall|i: int|
            0 <= i < r.len() ==> final(taken)@.contains((#[trigger] r[i]).duration),
        old(taken)@.len() + rows_per_batch <= DURATIONS ==> {
            &&& durations_differ(r@)
            &&& forall|i: int|
                0 <= i < r.len() ==> !old(taken)@.contains((#[trigger] r[i]).duration)
        },
{
    let mut draws: Vec<TracesDraw> = Vec::new();
    let mut row: usize = 0;
    let ghost before = taken@;
    let ghost mut states: Seq<StdRng> = seq![rng@];
    let ghost mut takens: Seq<Set<i64>> = seq![taken@];
    while row < rows_per_batch
        invariant
            row <= rows_per_batch,
            rng.well_formed(),
            traces_rows_drawn(states, takens, num_unique_span_names, draws@),
            states.first() == old(rng)@,
            states.last() == rng@,
            takens.first() == before,
            takens.last() == taken@,
            rows_per_batch > 0 ==> num_unique_span_names > 0,
            draws.len() == row,
            forall|i: int|
                0 <= i < draws.len() ==> traces_draw_valid(
                    num_unique_span_names as nat,
                    #[trigger] draws[i],
                ),
            durations_taken(taken@),
            taken@.len() <= before.len() + row,
            forall|d: i64| before.contains(d) ==> #[trigger] taken@.contains(d),
            forall|i: int|
                0 <= i < draws.len() ==> taken@.contains((#[trigger] draws[i]).duration),
            before.len() + rows_per_batch <= DURATIONS ==> {
                &&& durations_differ(draws@)
                &&& forall|i: int|
                    0 <= i < draws.len() ==> !before.contains((#[trigger] draws[i]).duration)
            },
        decreases rows_per_batch - row,
    {
        let ghost earlier = draws@;
        let ghost stood = states;
        let ghost took = takens;
        let ghost s0 = rng@;
        let tail = rng.bytes(8);
        let ghost s1 = rng@;
        let parent_word: u64 = rng.word();
        let ghost s2 = rng@;
        let parent: Vec<u8> = if falls_below(parent_word, EIGHT_TENTHS) {
            rng.bytes(8)
        } else {
            Vec::new()
        };
        let ghost s3 = rng@;
        let name: usize = rng.below(num_unique_span_names);
        let ghost s4 = rng@;
        let kind: usize = rng.below(5);
        let ghost s5 = rng@;
        let state_word: u64 = rng.word();
        let ghost s6 = rng@;
        let state: usize = if falls_below(state_word, NINE_TENTHS) {
            rng.below(8)
        } else {
            0
        };
        let ghost s7 = rng@;
        let drawn: i64 = rng.between(SHORTEST, LONGEST);
        let duration: i64 = if taken.len() < DURATIONS {
            free_duration(drawn, taken)
        } else {
            drawn
        };
        taken.insert(duration);
        draws.push(
            TracesDraw { tail, parent_word, parent, name, kind, state_word, state, duration },
        );
        proof {
            let d = draws@[row as int];
            let s = seq![s0, s1, s2, s3, s4, s5, s6, s7, rng@];
            assert(traces_row_drawn(s, num_unique_span_names, took.last(), d, drawn));
            states = states.push(rng@);
            takens = takens.push(taken@);
            lemma_rows_extended(
                stood,
                took,
                num_unique_span_names,
                earlier,
                d,
                rng@,
                taken@,
            );
            assert(draws@ =~= earlier.push(d));
        }
        row += 1;
    }
    draws
}

/// Makes one batch of trace rows of what was drawn.
pub fn traces_batch(
    schema: &Arc<Schema>,
    batch_idx: usize,
    names: &Vec<String>,
    draws: &Vec<TracesDraw>,
) -> (r: Result<Batch, ArrowError>)
    requires
        schema_fields(**schema) == traces_fields(),
        traces_buildable((batch_idx + 1) as nat, draws.len() as nat, names.len() as nat),
        forall|i: int| 0 <= i < names.len() ==> (#[trigger] names[i])@ == span_name(i as nat),
        forall|i: int|
            0 <= i < draws.len() ==> traces_draw_valid(names.len() as nat, #[trigger] draws[i]),
    ensures
        r is Ok,
        r matches Ok(batch) ==> traces_batch_of(
            batch_idx as nat,
            draws.len() as nat,
            names.len() as nat,
            draws@,
            batch,
        ),
{
    let rows_per_batch: usize = draws.len();
    let ghost b = batch_idx as nat;
    let ghost rows = rows_per_batch as nat;
    let ghost n = names.len() as nat;
    let ghost num_batches = b + 1;
    let mut v = TracesRows {
        times: Vec::new(),
        trace_ids: Vec::new(),
        span_ids: Vec::new(),
        parents: Vec::new(),
        names: Vec::new(),
        kinds: Vec::new(),
        urls: Vec::new(),
        states: Vec::new(),
        durations: Vec::new(),
        zeros: Vec::new(),
    };
    let mut row: usize = 0;
    while row < rows_per_batch
        invariant
            row <= rows_per_batch,
            b == batch_idx,
            rows == rows_per_batch,
            rows == draws.len(),
            n == names.len(),
            num_batches == b + 1,
            traces_buildable(num_batches, rows, n),
            forall|i: int| 0 <= i < names.len() ==> (#[trigger] names[i])@ == span_name(i as nat),
            forall|i: int| 0 <= i < draws.len() ==> traces_draw_valid(n, #[trigger] draws[i]),
            traces_rows_of(b, rows, draws@, row as nat, v),
        decreases rows_per_batch - row,
    {
        assert(traces_draw_valid(n, draws[row as int]));
        v.times.push(time_of_row(batch_idx, rows_per_batch, row, Ghost(num_batches)));
        let mut id = two_words(batch_idx, row);
        id.extend_from_slice(draws[row].tail.as_slice());
        assert(id@ =~= trace_id(b, row as nat, draws[row as int].tail@));
        v.trace_ids.push(Some(id));
        v.span_ids.push(Some(two_words(batch_idx, row)));
        if falls_below(draws[row].parent_word, EIGHT_TENTHS) {
            let mut parent: Vec<u8> = Vec::new();
            parent.extend_from_slice(draws[row].parent.as_slice());
            assert(parent@ =~= draws[row as int].parent@);
            v.parents.push(Some(parent));
        } else {
            v.parents.push(None);
        }
        v.names.push(owned(names[draws[row].name].as_str()));
        v.kinds.push(draws[row].kind as i32);
        v.urls.push(owned(SCHEMA_URL));
        if falls_below(draws[row].state_word, NINE_TENTHS) {
            v.states.push(owned(shared_state(draws[row].state)));
        } else {
            v.states.push(own_state(batch_idx, row));
        }
        v.durations.push(draws[row].duration);
        v.zeros.push(0);
        row += 1;
    }
    proof {
        lemma_traces_texts(b, rows, n, draws@, v);
        lemma_traces_sizes(b, rows, n, draws@, v);
    }
    let TracesRows {
        times,
        trace_ids,
        span_ids,
        parents,
        names,
        kinds,
        urls,
        states,
        durations,
        zeros,
    } = v;
    let c0 = timestamp_array(times);
    let c1 = binary_array(trace_ids, 16);
    let c2 = binary_array(span_ids, 8);
    let c3 = binary_array(parents, 8);
    let c4 = text_dictionary_u8(&names);
    let c5 = int32_dictionary_u8(kinds);
    let c6 = text_dictionary_u8(&urls);
    let c7 = text_dictionary_u8(&states);
    let c8 = duration_dictionary_u16(durations);
    let c9 = u32_array(zeros);
    let mut columns: Vec<ArrowArray> = Vec::new();
    columns.push(c0);
    columns.push(c1);
    columns.push(c2);
    columns.push(c3);
    columns.push(c4);
    columns.push(c5);
    columns.push(c6);
    columns.push(c7);
    columns.push(c8);
    columns.push(c9);
    let ghost contents = contents_of(columns@);
    proof {
        let url = SCHEMA_URL@;
        assert(c0@.cells =~= Seq::new(rows, |r: int| Cell::Int(row_time(b, rows, r as nat))));
        assert(c1@.cells =~= Seq::new(
            rows,
            |r: int| Cell::Bytes(trace_id(b, r as nat, draws[r].tail@)),
        ));
        assert(c2@.cells =~= Seq::new(rows, |r: int| Cell::Bytes(span_id(b, r as nat))));
        assert(c3@.cells =~= Seq::new(rows, |r: int| parent_cell(draws[r])));
        assert(c4@.cells =~= Seq::new(rows, |r: int| text_cell(span_name(draws[r].name as nat))));
        assert(c5@.cells =~= Seq::new(rows, |r: int| Cell::Int(draws[r].kind as int)));
        assert(c6@.cells =~= Seq::new(rows, |r: int| text_cell(url)));
        assert(c7@.cells =~= Seq::new(
            rows,
            |r: int| text_cell(trace_state(b, r as nat, draws[r])),
        ));
        assert(c8@.cells =~= Seq::new(rows, |r: int| Cell::Int(draws[r].duration as int)));
        assert(c9@.cells =~= Seq::new(rows, |r: int| Cell::Int(0)));
        assert(traces_columns(b, rows, draws@, contents));
        lemma_traces_fit(b, rows, draws@, contents);
    }
    match new_batch(schema, columns) {
        Ok(batch) => {
            assert(traces_batch_of(b, rows, n, draws@, batch));
            Ok(batch)
        },
        Err(error) => Err(error),
    }
}

/// Draws one batch of trace rows.
fn build_traces_batch(
    schema: &Arc<Schema>,
    batch_idx: usize,
    rows_per_batch: usize,
    names: &Vec<String>,
    taken: &mut HashSet<i64>,
    rng: &mut Generator,
    Ghost(num_batches): Ghost<nat>,
) -> (r: Result<Batch, ArrowError>)
    requires
        old(rng).well_formed(),
        schema_fields(**schema) == traces_fields(),
        traces_buildable(num_batches, rows_per_batch as nat, names.len() as nat),
        batch_idx < num_batches,
        forall|i: int| 0 <= i < names.len() ==> (#[trigger] names[i])@ == span_name(i as nat),
        durations_taken(old(taken)@),
    ensures
        final(rng).well_formed(),
        r is Ok,
        durations_taken(final(taken)@),
        final(taken)@.len() <= old(taken)@.len() + rows_per_batch,
        forall|d: i64| old(taken)@.contains(d) ==> #[trigger] final(taken)@.contains(d),
        r matches Ok(batch) ==> {
            &&& drawn_traces_batch(
                old(rng)@,
                old(taken)@,
                batch_idx as nat,
                rows_per_batch as nat,
                names.len(),
                batch,
                final(rng)@,
                final(taken)@,
            )
            &&& is_traces_batch(
                batch_idx as nat,
                rows_per_batch as nat,
                names.len() as nat,
                batch,
            )
            &&& forall|i: int|
                0 <= i < rows_per_batch ==> final(taken)@.contains(#[trigger] duration_at(batch, i))
            &&& old(taken)@.len() + rows_per_batch <= DURATIONS ==> {
                &&& forall|i: int, j: int|
                    0 <= i < j < rows_per_batch ==> #[trigger] duration_at(batch, i)
                        != #[trigger] duration_at(batch, j)
                &&& forall|i: int|
                    0 <= i < rows_per_batch ==> !old(taken)@.contains(
                        #[trigger] duration_at(batch, i),
                    )
            }
        },
{
    let draws = draw_traces(rows_per_batch, names.len(), taken, rng);
    proof {
        lemma_fewer_rows((batch_idx + 1) as nat, num_batches, rows_per_batch as nat);
    }
    match traces_batch(schema, batch_idx, names, &draws) {
        Ok(batch) => {
            assert(traces_batch_of(
                batch_idx as nat,
                rows_per_batch as nat,
                names.len() as nat,
                draws@,
                batch,
            ));
            assert forall|i: int| 0 <= i < rows_per_batch implies #[trigger] duration_at(batch, i)
                == draws[i].duration by {
                assert(batch_columns(batch)[8].cells[i] == Cell::Int(draws[i].duration as int));
            }
            Ok(batch)
        },
        Err(error) => Err(error),
    }
}

/// The identifiers have their sizes.
proof fn lemma_traces_sizes(
    b: nat,
    rows: nat,
    num_unique_span_names: nat,
    draws: Seq<TracesDraw>,
    v: TracesRows,
)
    requires
        traces_rows_of(b, rows, draws, rows, v),
        draws.len() == rows,
        forall|r: int|
            0 <= r < draws.len() ==> traces_draw_valid(
                num_unique_span_names,
                #[trigger] draws[r],
            ),
    ensures
        forall|i: int|
            0 <= i < v.trace_ids.len() ==> (#[trigger] v.trace_ids[i] matches Some(x) ==> x.len()
                == 16),
        forall|i: int|
            0 <= i < v.span_ids.len() ==> (#[trigger] v.span_ids[i] matches Some(x) ==> x.len()
                == 8),
        forall|i: int|
            0 <= i < v.parents.len() ==> (#[trigger] v.parents[i] matches Some(x) ==> x.len()
                == 8),
{
    assert forall|i: int| 0 <= i < v.trace_ids.len() implies (
    #[trigger] v.trace_ids[i] matches Some(x) ==> x.len() == 16) by {
        assert(traces_draw_valid(num_unique_span_names, draws[i]));
        assert(bytes_cell(v.trace_ids[i]) == Cell::Bytes(trace_id(b, i as nat, draws[i].tail@)));
    }
    assert forall|i: int| 0 <= i < v.span_ids.len() implies (
    #[trigger] v.span_ids[i] matches Some(x) ==> x.len() == 8) by {
        assert(bytes_cell(v.span_ids[i]) == Cell::Bytes(span_id(b, i as nat)));
    }
    assert forall|i: int| 0 <= i < v.parents.len() implies (
    #[trigger] v.parents[i] matches Some(x) ==> x.len() == 8) by {
        assert(traces_draw_valid(num_unique_span_names, draws[i]));
        assert(bytes_cell(v.parents[i]) == parent_cell(draws[i]));
    }
}

/// The columns of a trace batch fit the schema.
proof fn lemma_traces_fit(
    b: nat,
    rows: nat,
    draws: Seq<TracesDraw>,
    columns: Seq<ArrayModel>,
)
    requires
        traces_columns(b, rows, draws, columns),
    ensures
        fits_schema(traces_fields(), columns),
        forall|c: int|
            0 <= c < 10 && traces_fields()[c].ty is Dictionary ==> (
            #[trigger] columns[c]).dictionary.len() <= rows,
{
    assert forall|c: int| 0 <= c < columns.len() implies {
        &&& (#[trigger] columns[c]).cells.len() == columns[0].cells.len()
        &&& columns[c].ty == traces_fields()[c].ty
        &&& traces_fields()[c].nullable || !columns[c].marks_null()
    } by {
        assert(c == 0 || c == 1 || c == 2 || c == 3 || c == 4 || c == 5 || c == 6 || c == 7 || c
            == 8 || c == 9);
    }
    lemma_distinct(columns[4].cells);
    lemma_distinct(columns[5].cells);
    lemma_distinct(columns[6].cells);
    lemma_distinct(columns[7].cells);
    lemma_distinct(columns[8].cells);
}

/// The fields of the trace batches have short names, and types that a reader takes.
pub proof fn lemma_traces_modest()
    ensures
        forall|c: int|
            0 <= c < traces_fields().len() ==> modest_field(#[trigger] traces_fields()[c]),
{
    reveal_strlit("start_time_unix_nano");
    reveal_strlit("trace_id");
    reveal_strlit("span_id");
    reveal_strlit("parent_span_id");
    reveal_strlit("name");
    reveal_strlit("kind");
    reveal_strlit("schema_url");
    reveal_strlit("trace_state");
    reveal_strlit("duration_time_unix_nano");
    reveal_strlit("dropped_attributes_count");
    let fields = traces_fields();
    assert forall|c: int| 0 <= c < fields.len() implies modest_field(#[trigger] fields[c]) by {
        assert(c == 0 || c == 1 || c == 2 || c == 3 || c == 4 || c == 5 || c == 6 || c == 7 || c == 8 || c == 9);
    }
}

/// Span names are short.
proof fn lemma_span_name_short(i: nat)
    requires
        i <= u64::MAX,
    ensures
        short(text_cell(span_name(i))),
{
    lemma_span_name_len(i);
    lemma_utf8_len(span_name(i));
}

/// Trace states are short.
proof fn lemma_trace_state_short(b: nat, row: nat, d: TracesDraw)
    requires
        b <= u64::MAX,
        d.state < 8,
    ensures
        short(text_cell(trace_state(b, row, d))),
{
    lemma_literals();
    lemma_batch_state_len(b, row);
    assert(shared_states()[d.state as int].len() <= 100);
    lemma_utf8_len(trace_state(b, row, d));
}

/// The names and the states of a trace batch are short.
proof fn lemma_traces_texts_brief(
    b: nat,
    rows: nat,
    num_unique_span_names: nat,
    draws: Seq<TracesDraw>,
    columns: Seq<ArrayModel>,
)
    requires
        traces_columns(b, rows, draws, columns),
        draws.len() == rows,
        forall|r: int|
            0 <= r < draws.len() ==> traces_draw_valid(
                num_unique_span_names,
                #[trigger] draws[r],
            ),
        b <= u64::MAX,
    ensures
        brief(columns[4]),
        brief(columns[7]),
{
    assert forall|r: int| 0 <= r < columns[4].cells.len() implies short(
        #[trigger] columns[4].cells[r],
    ) by {
        lemma_span_name_short(draws[r].name as nat);
    }
    assert forall|r: int| 0 <= r < columns[7].cells.len() implies short(
        #[trigger] columns[7].cells[r],
    ) by {
        assert(traces_draw_valid(num_unique_span_names, draws[r]));
        lemma_trace_state_short(b, r as nat, draws[r]);
    }
}

/// The kinds, the schema's address and the durations of a trace batch are short.
proof fn lemma_traces_others_brief(
    b: nat,
    rows: nat,
    draws: Seq<TracesDraw>,
    columns: Seq<ArrayModel>,
)
    requires
        traces_columns(b, rows, draws, columns),
    ensures
        brief(columns[5]),
        brief(columns[6]),
        brief(columns[8]),
{
    lemma_url();
    lemma_utf8_len(SCHEMA_URL@);
}

/// One column of a trace batch, where its values are short if it is a dictionary.
proof fn lemma_traces_column_brief(
    b: nat,
    rows: nat,
    draws: Seq<TracesDraw>,
    columns: Seq<ArrayModel>,
    c: int,
)
    requires
        traces_columns(b, rows, draws, columns),
        0 <= c < 10,
        traces_fields()[c].ty is Dictionary ==> brief(columns[c]),
    ensures
        brief_column(traces_fields()[c], rows, columns[c]),
{
    lemma_traces_fit(b, rows, draws, columns);
    lemma_distinct(columns[c].cells);
    assert(c == 0 || c == 1 || c == 2 || c == 3 || c == 4 || c == 5 || c == 6 || c == 7 || c == 8
        || c == 9);
    assert(columns[c].cells.len() == rows);
}

/// The dictionary columns of a trace batch hold short values.
pub proof fn lemma_traces_brief(
    b: nat,
    rows: nat,
    num_unique_span_names: nat,
    batch: Batch,
)
    requires
        is_traces_batch(b, rows, num_unique_span_names, batch),
        b <= u64::MAX,
    ensures
        brief_batch(traces_fields(), rows, batch),
{
    let draws = choose|draws: Seq<TracesDraw>|
        #[trigger] traces_batch_of(b, rows, num_unique_span_names, draws, batch);
    let columns = batch_columns(batch);
    lemma_traces_texts_brief(b, rows, num_unique_span_names, draws, columns);
    lemma_traces_others_brief(b, rows, draws, columns);
    assert forall|c: int| 0 <= c < traces_fields().len() implies brief_column(
        traces_fields()[c],
        rows,
        #[trigger] columns[c],
    ) by {
        assert(c == 0 || c == 1 || c == 2 || c == 3 || c == 4 || c == 5 || c == 6 || c == 7 || c
            == 8 || c == 9);
        lemma_traces_column_brief(b, rows, draws, columns, c);
    }
}

/// One more batch goes on where the batches before it end.
proof fn lemma_run_extended(
    rows: nat,
    num_unique_span_names: usize,
    batches: Seq<Batch>,
    states: Seq<StdRng>,
    takens: Seq<Set<i64>>,
    batch: Batch,
    after: StdRng,
    taken: Set<i64>,
)
    requires
        traces_run(rows, num_unique_span_names, batches, states, takens),
        drawn_traces_batch(
            states.last(),
            takens.last(),
            batches.len(),
            rows,
            num_unique_span_names,
            batch,
            after,
            taken,
        ),
    ensures
        traces_run(
            rows,
            num_unique_span_names,
            batches.push(batch),
            states.push(after),
            takens.push(taken),
        ),
{
    let (all, s, t) = (batches.push(batch), states.push(after), takens.push(taken));
    assert forall|b: int| 0 <= b < all.len() implies drawn_traces_batch(
        s[b],
        t[b],
        b as nat,
        rows,
        num_unique_span_names,
        #[trigger] all[b],
        s[b + 1],
        t[b + 1],
    ) by {
        if b < batches.len() {
            assert(all[b] == batches[b]);
            assert(s[b] == states[b] && s[b + 1] == states[b + 1]);
            assert(t[b] == takens[b] && t[b + 1] == takens[b + 1]);
        }
    }
}

proof fn lemma_rows_so_far(b: nat, num_batches: nat, rows: nat)
    by (nonlinear_arith)
    requires
        b < num_batches,
    ensures
        b * rows + rows == (b + 1) * rows,
        b * rows + rows <= num_batches * rows,
{
}

/// Builds batches of trace rows. The batches can be unified. Unless there are more rows than
/// durations, each span has a duration of its own.
pub fn build_otap_traces_batches(
    num_batches: usize,
    rows_per_batch: usize,
    num_unique_span_names: usize,
) -> (r: Result<(Arc<Schema>, Vec<Batch>), ArrowError>)
    requires
        traces_buildable(
            num_batches as nat,
            rows_per_batch as nat,
            num_unique_span_names as nat,
        ),
    ensures
        r is Ok,
        r matches Ok((schema, batches)) ==> {
            &&& schema_fields(*schema) == traces_fields()
            &&& schema_metadata(*schema) == no_metadata()
            &&& batches.len() == num_batches
            &&& forall|b: int|
                0 <= b < batches.len() ==> is_traces_batch(
                    b as nat,
                    rows_per_batch as nat,
                    num_unique_span_names as nat,
                    #[trigger] batches[b],
                )
            &&& conforming(schema_fields(*schema), batches@)
            &&& num_batches * rows_per_batch <= DURATIONS ==> durations_unique(
                batches@,
                rows_per_batch as nat,
            )
            &&& exists|states: Seq<StdRng>, takens: Seq<Set<i64>>| #[trigger]
                traces_run(
                    rows_per_batch as nat,
                    num_unique_span_names,
                    batches@,
                    states,
                    takens,
                )
        },
{
    let schema = traces_schema();
    let names = span_names(num_unique_span_names);
    let mut rng = Generator::from_seed(BENCH_SEED);
    let mut taken: HashSet<i64> = HashSet::new();
    let ghost mut states: Seq<StdRng> = seq![rng@];
    let ghost mut takens: Seq<Set<i64>> = seq![taken@];
    let mut batches: Vec<Batch> = Vec::new();
    let mut batch_idx: usize = 0;
    while batch_idx < num_batches
        invariant
            batch_idx <= num_batches,
            schema_fields(*schema) == traces_fields(),
            traces_buildable(
                num_batches as nat,
                rows_per_batch as nat,
                num_unique_span_names as nat,
            ),
            names.len() == num_unique_span_names,
            forall|i: int| 0 <= i < names.len() ==> (#[trigger] names[i])@ == span_name(i as nat),
            rng.well_formed(),
            traces_run(rows_per_batch as nat, num_unique_span_names, batches@, states, takens),
            states.last() == rng@,
            takens.last() == taken@,
            batches.len() == batch_idx,
            forall|b: int|
                0 <= b < batches.len() ==> is_traces_batch(
                    b as nat,
                    rows_per_batch as nat,
                    num_unique_span_names as nat,
                    #[trigger] batches[b],
                ),
            durations_taken(taken@),
            taken@.len() <= batch_idx * rows_per_batch,
            forall|b: int, i: int|
                0 <= b < batches.len() && 0 <= i < rows_per_batch ==> taken@.contains(
                    #[trigger] duration_at(batches[b], i),
                ),
            num_batches * rows_per_batch <= DURATIONS ==> durations_unique(
                batches@,
                rows_per_batch as nat,
            ),
        decreases num_batches - batch_idx,
    {
        proof {
            lemma_rows_so_far(batch_idx as nat, num_batches as nat, rows_per_batch as nat);
        }
        let ghost earlier = batches@;
        let ghost stood = states;
        let ghost took = takens;
        match build_traces_batch(
            &schema,
            batch_idx,
            rows_per_batch,
            &names,
            &mut taken,
            &mut rng,
            Ghost(num_batches as nat),
        ) {
            Ok(batch) => {
                batches.push(batch);
                proof {
                    states = states.push(rng@);
                    takens = takens.push(taken@);
                    lemma_run_extended(
                        rows_per_batch as nat,
                        num_unique_span_names,
                        earlier,
                        stood,
                        took,
                        batch,
                        rng@,
                        taken@,
                    );
                }
            },
            Err(error) => {
                return Err(error);
            },
        }
        batch_idx += 1;
    }
    proof {
        let fields = traces_fields();
        let rows = rows_per_batch as nat;
        let n = num_unique_span_names as nat;
        assert forall|b: int, c: int| 0 <= b < batches@.len() && 0 <= c < fields.len() implies {
            &&& (#[trigger] batch_columns(batches@[b])[c]).ty == fields[c].ty
            &&& fields[c].ty is Dictionary ==> batch_columns(batches@[b])[c].dictionary.len()
                <= rows
        } by {
            assert(is_traces_batch(b as nat, rows, n, batches[b]));
            let draws = choose|draws: Seq<TracesDraw>|
                #[trigger] traces_batch_of(b as nat, rows, n, draws, batches[b]);
            lemma_traces_fit(b as nat, rows, draws, batch_columns(batches[b]));
        }
        assert forall|b: int| 0 <= b < batches@.len() implies batch_columns(
            #[trigger] batches@[b],
        ).len() == fields.len() by {
            assert(is_traces_batch(b as nat, rows, n, batches[b]));
        }
        lemma_conforming(fields, batches@, rows);
    }
    Ok((schema, batches))
}

} // verus!
