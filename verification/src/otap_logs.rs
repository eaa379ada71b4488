//! Record batches like those of a log payload: plain columns, short dictionaries that all batches
//! share, and identifiers that are different in every row.

use std::sync::Arc;

use arrow_schema::{ArrowError, Schema};
use rand::rngs::StdRng;
use vstd::prelude::*;

use crate::arrow::{
    batch_columns, batch_rows, builder_fields, contents_of, finish_schema, fits_schema, new_batch,
    new_schema, no_metadata, schema_fields, schema_metadata, ArrowArray, Batch,
};
use crate::building::{
    binary_cells, binary_dictionary_u16, distinct, int32_cells, int32_dictionary_u8,
    is_dictionary, is_plain, lemma_distinct, lemma_distinct_in_pool, moderate,
    push_dictionary_field, push_plain_field, text_cells, text_dictionary_u8, timestamp_array,
    u32_array,
};
use crate::draws::{
    all_alphanumeric, append_alphanumeric, chars_run, falls_below, fraction_of, gave_below,
    gave_bytes, gave_word, seeded, Generator, BENCH_SEED, NINE_TENTHS,
};
use crate::feasible::{brief, brief_batch, brief_column, modest_field, short};
use crate::model::{ArrayModel, Cell, ElementType, FieldModel, IndexType};
use crate::otap::{
    dictionary_field, lemma_few_texts, lemma_fewer_rows, lemma_url, owned, plain_field, row_time,
    text_cell, time_of_row, two_words, BASE_TIME, OBSERVATION_LAG, ROW_TIME, SCHEMA_URL,
};
use crate::text::{decimal, le_bytes, lemma_decimal_len, lemma_utf8_len, push_decimal};
use crate::unification::conforming;
use crate::workload::lemma_conforming;

verus! {

/// The fields of the log batches.
pub open spec fn logs_fields() -> Seq<FieldModel> {
    seq![
        plain_field("time_unix_nano"@, ElementType::TimestampNanos, false),
        plain_field("observed_time_unix_nano"@, ElementType::TimestampNanos, false),
        dictionary_field("severity_number"@, IndexType::UInt8, ElementType::Int32, true),
        dictionary_field("severity_text"@, IndexType::UInt8, ElementType::Utf8, true),
        dictionary_field("trace_id"@, IndexType::UInt16, ElementType::FixedSizeBinary(16), true),
        dictionary_field("span_id"@, IndexType::UInt16, ElementType::FixedSizeBinary(8), true),
        dictionary_field("schema_url"@, IndexType::UInt8, ElementType::Utf8, true),
        dictionary_field("event_name"@, IndexType::UInt8, ElementType::Utf8, true),
        plain_field("dropped_attributes_count"@, ElementType::UInt32, false),
        plain_field("flags"@, ElementType::UInt32, false),
    ]
}

/// The schema of the log batches.
pub fn logs_schema() -> (r: Arc<Schema>)
    ensures
        schema_fields(*r) == logs_fields(),
        schema_metadata(*r) == no_metadata(),
{
    let mut f = new_schema();
    push_plain_field(&mut f, "time_unix_nano", ElementType::TimestampNanos, false);
    push_plain_field(&mut f, "observed_time_unix_nano", ElementType::TimestampNanos, false);
    push_dictionary_field(&mut f, "severity_number", IndexType::UInt8, ElementType::Int32, true);
    push_dictionary_field(&mut f, "severity_text", IndexType::UInt8, ElementType::Utf8, true);
    push_dictionary_field(
        &mut f,
        "trace_id",
        IndexType::UInt16,
        ElementType::FixedSizeBinary(16),
        true,
    );
    push_dictionary_field(
        &mut f,
        "span_id",
        IndexType::UInt16,
        ElementType::FixedSizeBinary(8),
        true,
    );
    push_dictionary_field(&mut f, "schema_url", IndexType::UInt8, ElementType::Utf8, true);
    push_dictionary_field(&mut f, "event_name", IndexType::UInt8, ElementType::Utf8, true);
    push_plain_field(&mut f, "dropped_attributes_count", ElementType::UInt32, false);
    push_plain_field(&mut f, "flags", ElementType::UInt32, false);
    assert(builder_fields(f) =~= logs_fields());
    finish_schema(f)
}

// ---- the values ----------------------------------------------------------------------------

/// The severity numbers, from trace to fatal.
pub open spec fn severity_numbers() -> Seq<i32> {
    seq![1i32, 5, 9, 13, 17, 21]
}

/// The severity texts.
pub open spec fn severity_texts() -> Seq<Seq<char>> {
    seq!["DEBUG"@, "INFO"@, "WARN"@, "ERROR"@]
}

/// The event names that all batches share.
pub open spec fn shared_events() -> Seq<Seq<char>> {
    seq![
        "http.request"@,
        "http.response"@,
        "db.query"@,
        "rpc.call"@,
        "exception"@,
        "log"@,
        "cache.hit"@,
        "cache.miss"@,
        "queue.enqueue"@,
    ]
}

fn severity_number(i: usize) -> (r: i32)
    requires
        i < 6,
    ensures
        r == severity_numbers()[i as int],
{
    let numbers: [i32; 6] = [1, 5, 9, 13, 17, 21];
    numbers[i]
}

fn severity_text(i: usize) -> (r: &'static str)
    requires
        i < 4,
    ensures
        r@ == severity_texts()[i as int],
{
    match i {
        0 => "DEBUG",
        1 => "INFO",
        2 => "WARN",
        _ => "ERROR",
    }
}

fn shared_event(i: usize) -> (r: &'static str)
    requires
        i < 9,
    ensures
        r@ == shared_events()[i as int],
{
    match i {
        0 => "http.request",
        1 => "http.response",
        2 => "db.query",
        3 => "rpc.call",
        4 => "exception",
        5 => "log",
        6 => "cache.hit",
        7 => "cache.miss",
        _ => "queue.enqueue",
    }
}

/// The event name of one batch alone.
pub open spec fn batch_event(b: nat, suffix: Seq<char>) -> Seq<char> {
    "custom.event.batch"@ + decimal(b) + "."@ + suffix
}

/// The trace identifier of a row: the batch, the row, and eight random bytes.
pub open spec fn trace_id(b: nat, row: nat, tail: Seq<u8>) -> Seq<u8> {
    le_bytes(b) + le_bytes(row) + tail
}

/// The span identifier of a row: the batch and the row.
pub open spec fn span_id(b: nat, row: nat) -> Seq<u8> {
    le_bytes(b) + le_bytes(row)
}

/// What is drawn for one row.
#[derive(Debug)]
pub struct LogsDraw {
    /// Which severity.
    pub severity: usize,
    /// The random part of the trace identifier.
    pub tail: Vec<u8>,
    /// Whether the event is a shared one: nine times in ten.
    pub word: u64,
    /// Which shared event, where it is one.
    pub event: usize,
}

/// Whether a draw is one that can come.
pub open spec fn logs_draw_valid(d: LogsDraw) -> bool {
    &&& d.severity < 6
    &&& d.tail.len() == 8
    &&& d.event < 9
}

/// The event name of a row.
pub open spec fn event_name(own: Seq<char>, d: LogsDraw) -> Seq<char> {
    if fraction_of(d.word) < NINE_TENTHS {
        shared_events()[d.event as int]
    } else {
        own
    }
}

/// Whether columns are those that given draws make.
pub open spec fn logs_columns(
    b: nat,
    rows: nat,
    own: Seq<char>,
    draws: Seq<LogsDraw>,
    columns: Seq<ArrayModel>,
) -> bool {
    let url = SCHEMA_URL@;
    &&& columns.len() == 10
    &&& is_plain(
        columns[0],
        ElementType::TimestampNanos,
        Seq::new(rows, |r: int| Cell::Int(row_time(b, rows, r as nat))),
    )
    &&& is_plain(
        columns[1],
        ElementType::TimestampNanos,
        Seq::new(rows, |r: int| Cell::Int(row_time(b, rows, r as nat) + OBSERVATION_LAG)),
    )
    &&& is_dictionary(
        columns[2],
        IndexType::UInt8,
        ElementType::Int32,
        Seq::new(rows, |r: int| Cell::Int(severity_numbers()[draws[r].severity as int] as int)),
    )
    &&& is_dictionary(
        columns[3],
        IndexType::UInt8,
        ElementType::Utf8,
        Seq::new(rows, |r: int| text_cell(severity_texts()[draws[r].severity as int % 4])),
    )
    &&& is_dictionary(
        columns[4],
        IndexType::UInt16,
        ElementType::FixedSizeBinary(16),
        Seq::new(rows, |r: int| Cell::Bytes(trace_id(b, r as nat, draws[r].tail@))),
    )
    &&& is_dictionary(
        columns[5],
        IndexType::UInt16,
        ElementType::FixedSizeBinary(8),
        Seq::new(rows, |r: int| Cell::Bytes(span_id(b, r as nat))),
    )
    &&& is_dictionary(
        columns[6],
        IndexType::UInt8,
        ElementType::Utf8,
        Seq::new(rows, |r: int| text_cell(url)),
    )
    &&& is_dictionary(
        columns[7],
        IndexType::UInt8,
        ElementType::Utf8,
        Seq::new(rows, |r: int| text_cell(event_name(own, draws[r]))),
    )
    &&& is_plain(
        columns[8],
        ElementType::UInt32,
        Seq::new(rows, |r: int| Cell::Int(0)),
    )
    &&& is_plain(
        columns[9],
        ElementType::UInt32,
        Seq::new(rows, |r: int| Cell::Int(0)),
    )
}

/// Whether a batch is the one that a random suffix and draws make.
pub open spec fn logs_batch_of(
    b: nat,
    rows: nat,
    suffix: Seq<char>,
    draws: Seq<LogsDraw>,
    batch: Batch,
) -> bool {
    &&& suffix.len() == 6
    &&& all_alphanumeric(suffix)
    &&& draws.len() == rows
    &&& forall|r: int| 0 <= r < draws.len() ==> logs_draw_valid(#[trigger] draws[r])
    &&& batch_rows(batch) == rows
    &&& logs_columns(b, rows, batch_event(b, suffix), draws, batch_columns(batch))
}

/// Whether a batch is one that can be drawn.
pub open spec fn is_logs_batch(b: nat, rows: nat, batch: Batch) -> bool {
    exists|suffix: Seq<char>, draws: Seq<LogsDraw>|
        #[trigger] logs_batch_of(b, rows, suffix, draws, batch)
}

/// What can be built: the identifiers of a batch fit in 16-bit keys, the times fit in 64 bits, and
/// all rows of all columns can be counted.
pub open spec fn logs_buildable(num_batches: nat, rows: nat) -> bool {
    &&& rows <= 65536
    &&& BASE_TIME + (num_batches * rows) * ROW_TIME + OBSERVATION_LAG <= i64::MAX
    &&& 10 * (num_batches * rows) <= usize::MAX
}

/// Whether so many rows can be built: see [`logs_buildable`].
pub fn can_build_logs(num_batches: usize, rows_per_batch: usize) -> (r: bool)
    ensures
        r == logs_buildable(num_batches as nat, rows_per_batch as nat),
{
    if rows_per_batch as u64 > 65536 {
        return false;
    }
    match num_batches.checked_mul(rows_per_batch) {
        Some(total) => {
            let last: i128 = BASE_TIME as i128 + total as i128 * ROW_TIME as i128
                + OBSERVATION_LAG as i128;
            last <= i64::MAX as i128 && total <= usize::MAX / 10
        },
        None => false,
    }
}

// ---- the batches ---------------------------------------------------------------------------

/// Column by column, what has been drawn for the first rows of a batch.
struct LogsRows {
    times: Vec<i64>,
    observed: Vec<i64>,
    numbers: Vec<i32>,
    texts: Vec<String>,
    urls: Vec<String>,
    events: Vec<String>,
    zeros: Vec<u32>,
    more_zeros: Vec<u32>,
}

/// Whether what has been drawn is what given draws make.
spec fn logs_rows_of(
    b: nat,
    rows: nat,
    own: Seq<char>,
    draws: Seq<LogsDraw>,
    n: nat,
    v: LogsRows,
) -> bool {
    let url = SCHEMA_URL@;
    &&& v.times.len() == n
    &&& v.observed.len() == n
    &&& v.numbers.len() == n
    &&& v.texts.len() == n
    &&& v.urls.len() == n
    &&& v.events.len() == n
    &&& v.zeros.len() == n
    &&& v.more_zeros.len() == n
    &&& forall|r: int| 0 <= r < n ==> #[trigger] v.times[r] == row_time(b, rows, r as nat)
    &&& forall|r: int|
        0 <= r < n ==> #[trigger] v.observed[r] == row_time(b, rows, r as nat) + OBSERVATION_LAG
    &&& forall|r: int|
        0 <= r < n ==> #[trigger] v.numbers[r] == severity_numbers()[draws[r].severity as int]
    &&& forall|r: int|
        0 <= r < n ==> (#[trigger] v.texts[r])@ == severity_texts()[draws[r].severity as int % 4]
    &&& forall|r: int| 0 <= r < n ==> (#[trigger] v.urls[r])@ == url
    &&& forall|r: int| 0 <= r < n ==> (#[trigger] v.events[r])@ == event_name(own, draws[r])
    &&& forall|r: int| 0 <= r < n ==> #[trigger] v.zeros[r] == 0
    &&& forall|r: int| 0 <= r < n ==> #[trigger] v.more_zeros[r] == 0
}

proof fn lemma_literals()
    ensures
        forall|i: int| 0 <= i < 4 ==> (#[trigger] severity_texts()[i]).len() <= 250,
        forall|i: int| 0 <= i < 9 ==> (#[trigger] shared_events()[i]).len() <= 250,
{
    reveal_strlit("DEBUG");
    reveal_strlit("INFO");
    reveal_strlit("WARN");
    reveal_strlit("ERROR");
    reveal_strlit("http.request");
    reveal_strlit("http.response");
    reveal_strlit("db.query");
    reveal_strlit("rpc.call");
    reveal_strlit("exception");
    reveal_strlit("log");
    reveal_strlit("cache.hit");
    reveal_strlit("cache.miss");
    reveal_strlit("queue.enqueue");
}

proof fn lemma_logs_texts(
    b: nat,
    rows: nat,
    own: Seq<char>,
    draws: Seq<LogsDraw>,
    v: LogsRows,
)
    requires
        logs_rows_of(b, rows, own, draws, rows, v),
        draws.len() == rows,
        forall|r: int| 0 <= r < draws.len() ==> logs_draw_valid(#[trigger] draws[r]),
        own.len() <= 8191,
    ensures
        moderate(v.texts@),
        distinct(text_cells(v.texts@)).len() <= 256,
        moderate(v.urls@),
        distinct(text_cells(v.urls@)).len() <= 256,
        moderate(v.events@),
        distinct(text_cells(v.events@)).len() <= 256,
        distinct(int32_cells(v.numbers@)).len() <= 256,
{
    lemma_literals();
    lemma_url();
    assert forall|i: int| 0 <= i < v.texts@.len() implies severity_texts().contains(
        (#[trigger] v.texts@[i])@,
    ) by {
        assert(v.texts[i]@ == severity_texts()[draws[i].severity as int % 4]);
    }
    lemma_few_texts(v.texts@, severity_texts());
    let urls = seq![SCHEMA_URL@];
    assert forall|i: int| 0 <= i < v.urls@.len() implies urls.contains((#[trigger] v.urls@[i])@) by {
        assert(urls[0] == v.urls[i]@);
    }
    lemma_few_texts(v.urls@, urls);
    let events = shared_events().push(own);
    assert forall|i: int| 0 <= i < events.len() implies (#[trigger] events[i]).len() <= 8191 by {
        if i < 9 {
            assert(events[i] == shared_events()[i]);
        }
    }
    assert forall|i: int| 0 <= i < v.events@.len() implies events.contains(
        (#[trigger] v.events@[i])@,
    ) by {
        assert(v.events[i]@ == event_name(own, draws[i]));
        assert(logs_draw_valid(draws[i]));
        if fraction_of(draws[i].word) < NINE_TENTHS {
            assert(events[draws[i].event as int] == v.events[i]@);
        } else {
            assert(events[9] == v.events[i]@);
        }
    }
    lemma_few_texts(v.events@, events);
    let numbers = Seq::new(6, |i: int| Cell::Int(severity_numbers()[i] as int));
    let cells = int32_cells(v.numbers@);
    assert forall|i: int| 0 <= i < cells.len() implies numbers.contains(#[trigger] cells[i]) by {
        assert(logs_draw_valid(draws[i]));
        assert(v.numbers[i] == severity_numbers()[draws[i].severity as int]);
        assert(numbers[draws[i].severity as int] == cells[i]);
    }
    lemma_distinct_in_pool(cells, numbers);
}

/// Whether the random parts of the trace identifiers are those that a generator gives one after the
/// other, where it stands at these places.
pub open spec fn tails_drawn(states: Seq<StdRng>, draws: Seq<LogsDraw>) -> bool {
    &&& states.len() == draws.len() + 1
    &&& forall|i: int|
        0 <= i < draws.len() ==> gave_bytes(
            states[i],
            8,
            (#[trigger] draws[i]).tail,
            states[i + 1],
        )
}

/// Whether the rest of what is drawn for one row is what a generator gives, where it stands at these
/// places: the severity, whether the event is a shared one, and which it is, where it is one.
pub open spec fn logs_row_drawn(states: Seq<StdRng>, d: LogsDraw) -> bool {
    &&& states.len() == 4
    &&& gave_below(states[0], 6, d.severity, states[1])
    &&& gave_word(states[1], d.word, states[2])
    &&& if fraction_of(d.word) < NINE_TENTHS {
        gave_below(states[2], 9, d.event, states[3])
    } else {
        states[3] == states[2]
    }
}

/// Whether the rest of what is drawn for one row is what a generator gives.
pub open spec fn logs_row_run(before: StdRng, d: LogsDraw, after: StdRng) -> bool {
    exists|states: Seq<StdRng>| #[trigger]
        logs_row_drawn(states, d) && states[0] == before && states[3] == after
}

/// Whether the rest of what is drawn for rows is what a generator gives one after the other, where
/// it stands at these places.
pub open spec fn logs_rows_drawn(states: Seq<StdRng>, draws: Seq<LogsDraw>) -> bool {
    &&& states.len() == draws.len() + 1
    &&& forall|i: int|
        0 <= i < draws.len() ==> logs_row_run(states[i], #[trigger] draws[i], states[i + 1])
}

/// Whether what is drawn for a batch is what a generator gives: the characters, then the random
/// parts of all trace identifiers, and then the rest row by row.
pub open spec fn logs_draws_run(
    before: StdRng,
    suffix: Seq<char>,
    draws: Seq<LogsDraw>,
    after: StdRng,
) -> bool {
    exists|tails: Seq<StdRng>, rows: Seq<StdRng>|
        {
            &&& chars_run(before, suffix, tails.first())
            &&& #[trigger] tails_drawn(tails, draws)
            &&& tails.last() == rows.first()
            &&& #[trigger] logs_rows_drawn(rows, draws)
            &&& rows.last() == after
        }
}

/// Whether a batch is the one that what a generator gives for it makes.
pub open spec fn drawn_logs_batch(
    before: StdRng,
    b: nat,
    rows: nat,
    batch: Batch,
    after: StdRng,
) -> bool {
    exists|suffix: Seq<char>, draws: Seq<LogsDraw>|
        {
            &&& #[trigger] logs_draws_run(before, suffix, draws, after)
            &&& logs_batch_of(b, rows, suffix, draws, batch)
        }
}

/// Whether batches are those that the generator of the seed makes, one after the other.
pub open spec fn logs_run(rows: nat, batches: Seq<Batch>, states: Seq<StdRng>) -> bool {
    &&& states.len() == batches.len() + 1
    &&& seeded(BENCH_SEED, states[0])
    &&& forall|b: int|
        0 <= b < batches.len() ==> drawn_logs_batch(
            states[b],
            b as nat,
            rows,
            #[trigger] batches[b],
            states[b + 1],
        )
}

/// Draws what the event name of one batch ends in, and what its rows are made of.
fn draw_logs(rows_per_batch: usize, rng: &mut Generator) -> (r: (String, Vec<LogsDraw>))
    requires
        old(rng).well_formed(),
    ensures
        final(rng).well_formed(),
        r.0@.len() == 6,
        all_alphanumeric(r.0@),
        r.1.len() == rows_per_batch,
        forall|i: int| 0 <= i < r.1.len() ==> logs_draw_valid(#[trigger] r.1[i]),
        logs_draws_run(old(rng)@, r.0@, r.1@, final(rng)@),
{
    let mut suffix: String = String::new();
    append_alphanumeric(&mut suffix, rng, 6);
    assert(suffix@.skip(0) =~= suffix@);
    let mut draws: Vec<LogsDraw> = Vec::new();
    let ghost mut tails: Seq<StdRng> = seq![rng@];
    let mut i: usize = 0;
    while i < rows_per_batch
        invariant
            i <= rows_per_batch,
            rng.well_formed(),
            draws.len() == i,
            forall|r: int| 0 <= r < draws.len() ==> logs_draw_valid(#[trigger] draws[r]),
            tails_drawn(tails, draws@),
            chars_run(old(rng)@, suffix@, tails.first()),
            tails.last() == rng@,
        decreases rows_per_batch - i,
    {
        let ghost earlier = draws@;
        let ghost stood = tails;
        let tail = rng.bytes(8);
        draws.push(LogsDraw { severity: 0, tail, word: 0, event: 0 });
        proof {
            tails = tails.push(rng@);
            assert forall|r: int| 0 <= r < draws@.len() implies gave_bytes(
                tails[r],
                8,
                (#[trigger] draws@[r]).tail,
                tails[r + 1],
            ) by {
                if r < earlier.len() {
                    assert(draws@[r] == earlier[r]);
                    assert(gave_bytes(stood[r], 8, earlier[r].tail, stood[r + 1]));
                }
            }
        }
        i += 1;
    }
    let ghost mut rows: Seq<StdRng> = seq![rng@];
    let mut row: usize = 0;
    assert(draws@.take(0) =~= Seq::<LogsDraw>::empty());
    while row < rows_per_batch
        invariant
            row <= rows_per_batch,
            rng.well_formed(),
            draws.len() == rows_per_batch,
            forall|r: int| 0 <= r < draws.len() ==> logs_draw_valid(#[trigger] draws[r]),
            tails_drawn(tails, draws@),
            chars_run(old(rng)@, suffix@, tails.first()),
            tails.last() == rows.first(),
            logs_rows_drawn(rows, draws@.take(row as int)),
            rows.last() == rng@,
        decreases rows_per_batch - row,
    {
        let ghost earlier = draws@;
        let ghost stood = rows;
        let ghost s0 = rng@;
        let severity: usize = rng.below(6);
        let ghost s1 = rng@;
        let word: u64 = rng.word();
        let ghost s2 = rng@;
        let event: usize = if falls_below(word, NINE_TENTHS) {
            rng.below(9)
        } else {
            0
        };
        draws[row].severity = severity;
        draws[row].word = word;
        draws[row].event = event;
        proof {
            let d = draws@[row as int];
            assert(d.tail == earlier[row as int].tail);
            assert(logs_row_drawn(seq![s0, s1, s2, rng@], d));
            rows = rows.push(rng@);
            assert forall|r: int| 0 <= r < draws@.len() implies gave_bytes(
                tails[r],
                8,
                (#[trigger] draws@[r]).tail,
                tails[r + 1],
            ) by {
                assert(gave_bytes(tails[r], 8, earlier[r].tail, tails[r + 1]));
                assert(draws@[r].tail == earlier[r].tail);
            }
            let done = draws@.take(row + 1);
            assert forall|r: int| 0 <= r < done.len() implies logs_row_run(
                rows[r],
                #[trigger] done[r],
                rows[r + 1],
            ) by {
                if r < row {
                    assert(done[r] == earlier.take(row as int)[r]);
                    assert(logs_row_run(stood[r], earlier.take(row as int)[r], stood[r + 1]));
                }
            }
        }
        row += 1;
    }
    assert(draws@.take(row as int) =~= draws@);
    (suffix, draws)
}

/// Makes one batch of log rows of what was drawn.
pub fn logs_batch(
    schema: &Arc<Schema>,
    batch_idx: usize,
    suffix: &str,
    draws: &Vec<LogsDraw>,
) -> (r: Result<Batch, ArrowError>)
    requires
        schema_fields(**schema) == logs_fields(),
        logs_buildable((batch_idx + 1) as nat, draws.len() as nat),
        suffix@.len() == 6,
        all_alphanumeric(suffix@),
        forall|i: int| 0 <= i < draws.len() ==> logs_draw_valid(#[trigger] draws[i]),
    ensures
        r is Ok,
        r matches Ok(batch) ==> logs_batch_of(
            batch_idx as nat,
            draws.len() as nat,
            suffix@,
            draws@,
            batch,
        ),
{
    let rows_per_batch: usize = draws.len();
    let ghost b = batch_idx as nat;
    let ghost rows = rows_per_batch as nat;
    let ghost num_batches = b + 1;
    let mut own: String = String::new();
    own.push_str("custom.event.batch");
    push_decimal(&mut own, batch_idx as u64);
    own.push_str(".");
    own.push_str(suffix);
    proof {
        assert(own@ =~= batch_event(b, suffix@));
        reveal_strlit("custom.event.batch");
        reveal_strlit(".");
        lemma_decimal_len(batch_idx as u64);
    }
    let mut trace_ids: Vec<Vec<u8>> = Vec::new();
    let mut span_ids: Vec<Vec<u8>> = Vec::new();
    let mut v = LogsRows {
        times: Vec::new(),
        observed: Vec::new(),
        numbers: Vec::new(),
        texts: Vec::new(),
        urls: Vec::new(),
        events: Vec::new(),
        zeros: Vec::new(),
        more_zeros: Vec::new(),
    };
    let mut row: usize = 0;
    while row < rows_per_batch
        invariant
            row <= rows_per_batch,
            b == batch_idx,
            rows == rows_per_batch,
            rows == draws.len(),
            num_batches == b + 1,
            logs_buildable(num_batches, rows),
            forall|i: int| 0 <= i < draws.len() ==> logs_draw_valid(#[trigger] draws[i]),
            trace_ids.len() == row,
            forall|r: int|
                0 <= r < row ==> (#[trigger] trace_ids[r])@ == trace_id(
                    b,
                    r as nat,
                    draws[r].tail@,
                ),
            span_ids.len() == row,
            forall|r: int| 0 <= r < row ==> (#[trigger] span_ids[r])@ == span_id(b, r as nat),
            logs_rows_of(b, rows, own@, draws@, row as nat, v),
        decreases rows_per_batch - row,
    {
        assert(logs_draw_valid(draws[row as int]));
        let time: i64 = time_of_row(batch_idx, rows_per_batch, row, Ghost(num_batches));
        v.times.push(time);
        v.observed.push(time + OBSERVATION_LAG);
        let severity: usize = draws[row].severity;
        v.numbers.push(severity_number(severity));
        v.texts.push(owned(severity_text(severity % 4)));
        let mut id = two_words(batch_idx, row);
        id.extend_from_slice(draws[row].tail.as_slice());
        assert(id@ =~= trace_id(b, row as nat, draws[row as int].tail@));
        trace_ids.push(id);
        span_ids.push(two_words(batch_idx, row));
        v.urls.push(owned(SCHEMA_URL));
        if falls_below(draws[row].word, NINE_TENTHS) {
            v.events.push(owned(shared_event(draws[row].event)));
        } else {
            v.events.push(owned(own.as_str()));
        }
        v.zeros.push(0);
        v.more_zeros.push(0);
        row += 1;
    }
    let ghost cells4 = binary_cells(trace_ids@);
    let ghost cells5 = binary_cells(span_ids@);
    proof {
        lemma_logs_texts(b, rows, own@, draws@, v);
        lemma_distinct(cells4);
        lemma_distinct(cells5);
    }
    let mut columns: Vec<ArrowArray> = Vec::new();
    let LogsRows { times, observed, numbers, texts, urls, events, zeros, more_zeros } = v;
    let c0 = timestamp_array(times);
    let c1 = timestamp_array(observed);
    let c2 = int32_dictionary_u8(numbers);
    let c3 = text_dictionary_u8(&texts);
    let c4 = binary_dictionary_u16(&trace_ids, 16);
    let c5 = binary_dictionary_u16(&span_ids, 8);
    let c6 = text_dictionary_u8(&urls);
    let c7 = text_dictionary_u8(&events);
    let c8 = u32_array(zeros);
    let c9 = u32_array(more_zeros);
    columns.push(c0);
    columns.push(c1);
    columns.push(c2);
    columns.push(c3);
    columns.push(c4);
    columns.push(c5);
    columns.push(c6);
    columns.push(c7);
    columns.push(c8);
    columns.push(c9);
    let ghost contents = contents_of(columns@);
    proof {
        let url = SCHEMA_URL@;
        assert(c0@.cells =~= Seq::new(rows, |r: int| Cell::Int(row_time(b, rows, r as nat))));
        assert(c1@.cells =~= Seq::new(
            rows,
            |r: int| Cell::Int(row_time(b, rows, r as nat) + OBSERVATION_LAG),
        ));
        assert(c2@.cells =~= Seq::new(
            rows,
            |r: int| Cell::Int(severity_numbers()[draws[r].severity as int] as int),
        ));
        assert(c3@.cells =~= Seq::new(
            rows,
            |r: int| text_cell(severity_texts()[draws[r].severity as int % 4]),
        ));
        assert(c4@.cells =~= Seq::new(
            rows,
            |r: int| Cell::Bytes(trace_id(b, r as nat, draws[r].tail@)),
        ));
        assert(c5@.cells =~= Seq::new(rows, |r: int| Cell::Bytes(span_id(b, r as nat))));
        assert(c6@.cells =~= Seq::new(rows, |r: int| text_cell(url)));
        assert(c7@.cells =~= Seq::new(rows, |r: int| text_cell(event_name(own@, draws[r]))));
        assert(c8@.cells =~= Seq::new(rows, |r: int| Cell::Int(0)));
        assert(c9@.cells =~= Seq::new(rows, |r: int| Cell::Int(0)));
        assert(logs_columns(b, rows, batch_event(b, suffix@), draws@, contents));
        lemma_logs_fit(b, rows, batch_event(b, suffix@), draws@, contents);
    }
    match new_batch(schema, columns) {
        Ok(batch) => {
            assert(logs_batch_of(b, rows, suffix@, draws@, batch));
            Ok(batch)
        },
        Err(error) => Err(error),
    }
}

/// Draws one batch of log rows.
fn build_logs_batch(
    schema: &Arc<Schema>,
    batch_idx: usize,
    rows_per_batch: usize,
    rng: &mut Generator,
    Ghost(num_batches): Ghost<nat>,
) -> (r: Result<Batch, ArrowError>)
    requires
        old(rng).well_formed(),
        schema_fields(**schema) == logs_fields(),
        logs_buildable(num_batches, rows_per_batch as nat),
        batch_idx < num_batches,
    ensures
        final(rng).well_formed(),
        r is Ok,
        r matches Ok(batch) ==> {
            &&& is_logs_batch(batch_idx as nat, rows_per_batch as nat, batch)
            &&& drawn_logs_batch(
                old(rng)@,
                batch_idx as nat,
                rows_per_batch as nat,
                batch,
                final(rng)@,
            )
        },
{
    let (suffix, draws) = draw_logs(rows_per_batch, rng);
    proof {
        lemma_fewer_rows((batch_idx + 1) as nat, num_batches, rows_per_batch as nat);
    }
    match logs_batch(schema, batch_idx, suffix.as_str(), &draws) {
        Ok(batch) => {
            assert(logs_batch_of(
                batch_idx as nat,
                rows_per_batch as nat,
                suffix@,
                draws@,
                batch,
            ));
            Ok(batch)
        },
        Err(error) => Err(error),
    }
}

/// The columns of a log batch fit the schema.
proof fn lemma_logs_fit(
    b: nat,
    rows: nat,
    own: Seq<char>,
    draws: Seq<LogsDraw>,
    columns: Seq<ArrayModel>,
)
    requires
        logs_columns(b, rows, own, draws, columns),
    ensures
        fits_schema(logs_fields(), columns),
        forall|c: int|
            0 <= c < 10 && logs_fields()[c].ty is Dictionary ==> (
            #[trigger] columns[c]).dictionary.len() <= rows,
{
    assert forall|c: int| 0 <= c < columns.len() implies {
        &&& (#[trigger] columns[c]).cells.len() == columns[0].cells.len()
        &&& columns[c].ty == logs_fields()[c].ty
        &&& logs_fields()[c].nullable || !columns[c].marks_null()
    } by {
        assert(c == 0 || c == 1 || c == 2 || c == 3 || c == 4 || c == 5 || c == 6 || c == 7 || c
            == 8 || c == 9);
    }
    lemma_distinct(columns[2].cells);
    lemma_distinct(columns[3].cells);
    lemma_distinct(columns[4].cells);
    lemma_distinct(columns[5].cells);
    lemma_distinct(columns[6].cells);
    lemma_distinct(columns[7].cells);
}

/// The fields of the log batches have short names, and types that a reader takes.
pub proof fn lemma_logs_modest()
    ensures
        forall|c: int|
            0 <= c < logs_fields().len() ==> modest_field(#[trigger] logs_fields()[c]),
{
    reveal_strlit("time_unix_nano");
    reveal_strlit("observed_time_unix_nano");
    reveal_strlit("severity_number");
    reveal_strlit("severity_text");
    reveal_strlit("trace_id");
    reveal_strlit("span_id");
    reveal_strlit("schema_url");
    reveal_strlit("event_name");
    reveal_strlit("dropped_attributes_count");
    reveal_strlit("flags");
    let fields = logs_fields();
    assert forall|c: int| 0 <= c < fields.len() implies modest_field(#[trigger] fields[c]) by {
        assert(c == 0 || c == 1 || c == 2 || c == 3 || c == 4 || c == 5 || c == 6 || c == 7 || c == 8 || c == 9);
    }
}

/// The severity texts and the event names of a log batch are short.
proof fn lemma_logs_texts_brief(
    b: nat,
    rows: nat,
    suffix: Seq<char>,
    draws: Seq<LogsDraw>,
    columns: Seq<ArrayModel>,
)
    requires
        logs_columns(b, rows, batch_event(b, suffix), draws, columns),
        suffix.len() == 6,
        draws.len() == rows,
        forall|r: int| 0 <= r < draws.len() ==> logs_draw_valid(#[trigger] draws[r]),
        b <= u64::MAX,
    ensures
        brief(columns[3]),
        brief(columns[7]),
{
    let own = batch_event(b, suffix);
    lemma_literals();
    reveal_strlit("custom.event.batch");
    reveal_strlit(".");
    lemma_decimal_len(b as u64);
    assert forall|r: int| 0 <= r < columns[3].cells.len() implies short(
        #[trigger] columns[3].cells[r],
    ) by {
        assert(logs_draw_valid(draws[r]));
        lemma_utf8_len(severity_texts()[draws[r].severity as int % 4]);
    }
    assert forall|r: int| 0 <= r < columns[7].cells.len() implies short(
        #[trigger] columns[7].cells[r],
    ) by {
        assert(logs_draw_valid(draws[r]));
        lemma_utf8_len(event_name(own, draws[r]));
    }
}

/// The severity numbers, the identifiers and the schema's address of a log batch are short.
proof fn lemma_logs_others_brief(
    b: nat,
    rows: nat,
    own: Seq<char>,
    draws: Seq<LogsDraw>,
    columns: Seq<ArrayModel>,
)
    requires
        logs_columns(b, rows, own, draws, columns),
        draws.len() == rows,
        forall|r: int| 0 <= r < draws.len() ==> logs_draw_valid(#[trigger] draws[r]),
    ensures
        brief(columns[2]),
        brief(columns[4]),
        brief(columns[5]),
        brief(columns[6]),
{
    lemma_url();
    lemma_utf8_len(SCHEMA_URL@);
    assert forall|r: int| 0 <= r < columns[4].cells.len() implies short(
        #[trigger] columns[4].cells[r],
    ) by {
        assert(logs_draw_valid(draws[r]));
    }
}

/// One column of a log batch, where its values are short if it is a dictionary.
proof fn lemma_logs_column_brief(
    b: nat,
    rows: nat,
    own: Seq<char>,
    draws: Seq<LogsDraw>,
    columns: Seq<ArrayModel>,
    c: int,
)
    requires
        logs_columns(b, rows, own, draws, columns),
        0 <= c < 10,
        logs_fields()[c].ty is Dictionary ==> brief(columns[c]),
    ensures
        brief_column(logs_fields()[c], rows, columns[c]),
{
    lemma_logs_fit(b, rows, own, draws, columns);
    lemma_distinct(columns[c].cells);
    assert(c == 0 || c == 1 || c == 2 || c == 3 || c == 4 || c == 5 || c == 6 || c == 7 || c == 8
        || c == 9);
    assert(columns[c].cells.len() == rows);
}

/// The dictionary columns of a log batch hold short values.
pub proof fn lemma_logs_brief(b: nat, rows: nat, batch: Batch)
    requires
        is_logs_batch(b, rows, batch),
        b <= u64::MAX,
    ensures
        brief_batch(logs_fields(), rows, batch),
{
    let (suffix, draws) = choose|suffix: Seq<char>, draws: Seq<LogsDraw>|
        #[trigger] logs_batch_of(b, rows, suffix, draws, batch);
    let columns = batch_columns(batch);
    let own = batch_event(b, suffix);
    lemma_logs_texts_brief(b, rows, suffix, draws, columns);
    lemma_logs_others_brief(b, rows, own, draws, columns);
    assert forall|c: int| 0 <= c < logs_fields().len() implies brief_column(
        logs_fields()[c],
        rows,
        #[trigger] columns[c],
    ) by {
        assert(c == 0 || c == 1 || c == 2 || c == 3 || c == 4 || c == 5 || c == 6 || c == 7 || c
            == 8 || c == 9);
        lemma_logs_column_brief(b, rows, own, draws, columns, c);
    }
}

/// Builds batches of log rows. The batches can be unified.
pub fn build_otap_logs_batches(num_batches: usize, rows_per_batch: usize) -> (r: Result<
    (Arc<Schema>, Vec<Batch>),
    ArrowError,
>)
    requires
        logs_buildable(num_batches as nat, rows_per_batch as nat),
    ensures
        r is Ok,
        r matches Ok((schema, batches)) ==> {
            &&& schema_fields(*schema) == logs_fields()
            &&& schema_metadata(*schema) == no_metadata()
            &&& batches.len() == num_batches
            &&& forall|b: int|
                0 <= b < batches.len() ==> is_logs_batch(
                    b as nat,
                    rows_per_batch as nat,
                    #[trigger] batches[b],
                )
            &&& conforming(schema_fields(*schema), batches@)
            &&& exists|states: Seq<StdRng>| #[trigger]
                logs_run(rows_per_batch as nat, batches@, states)
        },
{
    let schema = logs_schema();
    let mut rng = Generator::from_seed(BENCH_SEED);
    let ghost mut states: Seq<StdRng> = seq![rng@];
    let mut batches: Vec<Batch> = Vec::new();
    let mut batch_idx: usize = 0;
    while batch_idx < num_batches
        invariant
            batch_idx <= num_batches,
            schema_fields(*schema) == logs_fields(),
            logs_buildable(num_batches as nat, rows_per_batch as nat),
            rng.well_formed(),
            logs_run(rows_per_batch as nat, batches@, states),
            states.last() == rng@,
            batches.len() == batch_idx,
            forall|b: int|
                0 <= b < batches.len() ==> is_logs_batch(
                    b as nat,
                    rows_per_batch as nat,
                    #[trigger] batches[b],
                ),
        decreases num_batches - batch_idx,
    {
        let ghost earlier = batches@;
        let ghost stood = states;
        match build_logs_batch(
            &schema,
            batch_idx,
            rows_per_batch,
            &mut rng,
            Ghost(num_batches as nat),
        ) {
            Ok(batch) => {
                batches.push(batch);
                proof {
                    states = states.push(rng@);
                    assert forall|i: int| 0 <= i < batches@.len() implies drawn_logs_batch(
                        states[i],
                        i as nat,
                        rows_per_batch as nat,
                        #[trigger] batches@[i],
                        states[i + 1],
                    ) by {
                        if i < earlier.len() {
                            assert(batches@[i] == earlier[i]);
                            assert(states[i] == stood[i] && states[i + 1] == stood[i + 1]);
                        }
                    }
                }
            },
            Err(error) => {
                return Err(error);
            },
        }
        batch_idx += 1;
    }
    proof {
        let fields = logs_fields();
        let rows = rows_per_batch as nat;
        assert forall|b: int, c: int| 0 <= b < batches@.len() && 0 <= c < fields.len() implies {
            &&& (#[trigger] batch_columns(batches@[b])[c]).ty == fields[c].ty
            &&& fields[c].ty is Dictionary ==> batch_columns(batches@[b])[c].dictionary.len()
                <= rows
        } by {
            assert(is_logs_batch(b as nat, rows, batches[b]));
            let (suffix, draws) = choose|suffix: Seq<char>, draws: Seq<LogsDraw>|
                #[trigger] logs_batch_of(b as nat, rows, suffix, draws, batches[b]);
            lemma_logs_fit(
                b as nat,
                rows,
                batch_event(b as nat, suffix),
                draws,
                batch_columns(batches[b]),
            );
        }
        assert forall|b: int| 0 <= b < batches@.len() implies batch_columns(
            #[trigger] batches@[b],
        ).len() == fields.len() by {
            assert(is_logs_batch(b as nat, rows, batches[b]));
        }
        lemma_conforming(fields, batches@, rows);
    }
    Ok((schema, batches))
}

} // verus!
