//! Each row of every batch is made of what the generator gives for it.

use rand::rngs::StdRng;
use vstd::prelude::*;
use vstd::utf8::encode_utf8;

use crate::arrow::{batch_columns, batch_rows, Batch};
use crate::draws::{
    belows_drawn, chars_drawn, fraction_of, gave_alphanumeric, gave_below, gave_between,
    gave_bytes, gave_small, gave_word, given_numbers_lie_in_their_ranges, seeded, BENCH_SEED, EIGHT_TENTHS, NINE_TENTHS,
};
use crate::model::{ArrayModel, Cell};
use crate::otap::text_cell;
use crate::otap_logs::{
    batch_event, drawn_logs_batch, logs_batch_of, logs_columns, logs_draw_valid, logs_draws_run,
    logs_row_drawn, logs_row_run, logs_rows_drawn, logs_run, shared_events, span_id, tails_drawn, LogsDraw,
};
use crate::otap_metrics::{drawn_metrics_batch, metric_description, metric_name, metrics_batch_of, metrics_run};
use crate::otap_traces::{
    drawn_traces_batch, settles, shared_states, span_name, traces_batch_of, traces_draws_run,
    traces_row_drawn, traces_row_run, traces_rows_drawn, traces_run, TracesDraw,
};
use crate::text::{decimal, le_bytes};
use crate::workload::{
    case_run, drawn_case_batch, is_drawn, pool_drawn, pool_place, pool_run, pool_text,
    pool_value_run, suffix_run, value_cell, TestCase, ValueType,
};

verus! {

/// A word falls below the bound for eight tenths exactly if the fraction that its first fifty-three
/// binary digits make is smaller than eight tenths, and so for nine tenths.
pub proof fn bounds_are_tenths(word: u64)
    ensures
        fraction_of(word) < EIGHT_TENTHS <==> 10 * (word as int / 2048) < 8 * 0x20_0000_0000_0000,
        fraction_of(word) < NINE_TENTHS <==> 10 * (word as int / 2048) < 9 * 0x20_0000_0000_0000,
{
}

/// Each row of each batch of metrics is of the metric whose number the generator gives for it, asked
/// for one below the number of metrics, row after row and batch after batch.
pub proof fn each_row_has_the_metric_drawn_for_it(
    rows: nat,
    num_unique_metrics: usize,
    batches: Seq<Batch>,
    states: Seq<StdRng>,
    b: int,
)
    requires
        metrics_run(rows, num_unique_metrics, batches, states),
        0 <= b < batches.len(),
    ensures
        seeded(BENCH_SEED, states[0]),
        batch_rows(batches[b]) == rows,
        exists|at: Seq<StdRng>, picks: Seq<usize>|
            {
                let columns = batch_columns(batches[b]);
                &&& #[trigger] at.len() == rows + 1
                &&& #[trigger] picks.len() == rows
                &&& at[0] == states[b]
                &&& at[rows as int] == states[b + 1]
                &&& forall|r: int|
                    0 <= r < rows ==> {
                        &&& gave_below(at[r], num_unique_metrics, #[trigger] picks[r], at[r + 1])
                        &&& picks[r] < num_unique_metrics
                        &&& columns[1].cells[r] == Cell::Int(picks[r] as int % 3 + 1)
                        &&& columns[2].cells[r] == text_cell(metric_name(picks[r] as nat))
                        &&& columns[3].cells[r] == text_cell(
                            metric_description(picks[r] as nat),
                        )
                    }
            },
{
    let n = num_unique_metrics;
    assert(drawn_metrics_batch(states[b], rows, n, batches[b], states[b + 1]));
    let picks = choose|draws: Seq<usize>|
        {
            &&& #[trigger] crate::draws::belows_run(states[b], n, draws, states[b + 1])
            &&& metrics_batch_of(rows, n as nat, draws, batches[b])
        };
    let at = choose|at: Seq<StdRng>| #[trigger]
        belows_drawn(at, n, picks) && at.first() == states[b] && at.last() == states[b + 1];
    assert(at.len() == rows + 1);
    assert(picks.len() == rows);
}

/// Where the generator stands for one row of a batch of traces, and which duration it gives.
spec fn traces_row_at(
    states: Seq<StdRng>,
    takens: Seq<Set<i64>>,
    n: usize,
    draws: Seq<TracesDraw>,
    r: int,
) -> (Seq<StdRng>, i64) {
    choose|s: Seq<StdRng>, drawn: i64| #[trigger]
        traces_row_drawn(s, n, takens[r], draws[r], drawn) && s[0] == states[r] && s[8] == states[r
            + 1]
}

/// What a row of a batch of traces is made of: the operation whose number the generator gives where
/// it is asked for one below the number of operations; the kind; a parent eight times in ten; a
/// shared trace state nine times in ten; and a duration, which is the one given where no earlier
/// row has it.
pub open spec fn traces_row_made(
    columns: Seq<ArrayModel>,
    b: nat,
    r: int,
    n: usize,
    s: Seq<StdRng>,
    taken: Set<i64>,
    d: TracesDraw,
    drawn: i64,
) -> bool {
    &&& s.len() == 9
    &&& gave_bytes(s[0], 8, d.tail, s[1])
    &&& columns[1].cells[r] == Cell::Bytes(span_id(b, r as nat) + d.tail@)
    &&& gave_word(s[1], d.parent_word, s[2])
    &&& 10 * (d.parent_word as int / 2048) < 8 * 0x20_0000_0000_0000 ==> {
        &&& gave_bytes(s[2], 8, d.parent, s[3])
        &&& columns[3].cells[r] == Cell::Bytes(d.parent@)
    }
    &&& 10 * (d.parent_word as int / 2048) >= 8 * 0x20_0000_0000_0000 ==> {
        &&& s[3] == s[2]
        &&& columns[3].cells[r] == Cell::Null
    }
    &&& gave_below(s[3], n, d.name, s[4])
    &&& d.name < n
    &&& columns[4].cells[r] == text_cell(span_name(d.name as nat))
    &&& gave_below(s[4], 5, d.kind, s[5])
    &&& columns[5].cells[r] == Cell::Int(d.kind as int)
    &&& gave_word(s[5], d.state_word, s[6])
    &&& 10 * (d.state_word as int / 2048) < 9 * 0x20_0000_0000_0000 ==> {
        &&& gave_below(s[6], 8, d.state, s[7])
        &&& columns[7].cells[r] == text_cell(shared_states()[d.state as int])
    }
    &&& 10 * (d.state_word as int / 2048) >= 9 * 0x20_0000_0000_0000 ==> {
        &&& s[7] == s[6]
        &&& columns[7].cells[r] == text_cell(
            "batch="@ + decimal(b) + ",row="@ + decimal(r as nat % 5),
        )
    }
    &&& gave_between(s[7], 100_000, 500_000_000, drawn, s[8])
    &&& !taken.contains(drawn) ==> columns[8].cells[r] == Cell::Int(drawn as int)
    &&& columns[8].cells[r] == Cell::Int(d.duration as int)
}

/// Whether the rows of a batch of traces are made of what a generator gives, row after row, where each
/// takes its duration.
pub open spec fn traces_batch_made(
    before: StdRng,
    taken_before: Set<i64>,
    b: nat,
    rows: nat,
    n: usize,
    batch: Batch,
    at: Seq<StdRng>,
    taken: Seq<Set<i64>>,
    within: Seq<Seq<StdRng>>,
    draws: Seq<TracesDraw>,
    drawn: Seq<i64>,
    after: StdRng,
    taken_after: Set<i64>,
) -> bool {
    &&& at.len() == rows + 1
    &&& taken.len() == rows + 1
    &&& within.len() == rows
    &&& draws.len() == rows
    &&& drawn.len() == rows
    &&& at[0] == before
    &&& at[rows as int] == after
    &&& taken[0] == taken_before
    &&& taken[rows as int] == taken_after
    &&& forall|r: int|
        0 <= r < rows ==> {
            &&& traces_row_made(
                batch_columns(batch),
                b,
                r,
                n,
                #[trigger] within[r],
                taken[r],
                draws[r],
                drawn[r],
            )
            &&& within[r][0] == at[r]
            &&& within[r][8] == at[r + 1]
            &&& taken[r + 1] == taken[r].insert(draws[r].duration)
        }
}

/// Each row of each batch of traces is made of what the generator gives for it, row after row and
/// batch after batch.
pub proof fn each_span_is_drawn(
    rows: nat,
    num_unique_span_names: usize,
    batches: Seq<Batch>,
    states: Seq<StdRng>,
    takens: Seq<Set<i64>>,
    b: int,
)
    requires
        traces_run(rows, num_unique_span_names, batches, states, takens),
        0 <= b < batches.len(),
    ensures
        seeded(BENCH_SEED, states[0]),
        takens[0] == Set::<i64>::empty(),
        batch_rows(batches[b]) == rows,
        exists|
            at: Seq<StdRng>,
            taken: Seq<Set<i64>>,
            within: Seq<Seq<StdRng>>,
            draws: Seq<TracesDraw>,
            drawn: Seq<i64>,
        | #[trigger]
            traces_batch_made(
                states[b],
                takens[b],
                b as nat,
                rows,
                num_unique_span_names,
                batches[b],
                at,
                taken,
                within,
                draws,
                drawn,
                states[b + 1],
                takens[b + 1],
            ),
{
    let n = num_unique_span_names;
    let columns = batch_columns(batches[b]);
    assert(drawn_traces_batch(
        states[b],
        takens[b],
        b as nat,
        rows,
        n,
        batches[b],
        states[b + 1],
        takens[b + 1],
    ));
    let draws = choose|draws: Seq<TracesDraw>|
        {
            &&& #[trigger] traces_draws_run(
                states[b],
                takens[b],
                n,
                draws,
                states[b + 1],
                takens[b + 1],
            )
            &&& traces_batch_of(b as nat, rows, n as nat, draws, batches[b])
        };
    let (at, taken) = choose|at: Seq<StdRng>, taken: Seq<Set<i64>>|
        {
            &&& #[trigger] traces_rows_drawn(at, taken, n, draws)
            &&& at.first() == states[b] && at.last() == states[b + 1]
            &&& taken.first() == takens[b] && taken.last() == takens[b + 1]
        };
    let within = Seq::new(rows, |r: int| traces_row_at(at, taken, n, draws, r).0);
    let drawn = Seq::new(rows, |r: int| traces_row_at(at, taken, n, draws, r).1);
    assert(at.len() == rows + 1 && taken.len() == rows + 1);
    assert(within.len() == rows && draws.len() == rows && drawn.len() == rows);
    assert forall|r: int| 0 <= r < rows implies {
        &&& traces_row_made(
            columns,
            b as nat,
            r,
            n,
            #[trigger] within[r],
            taken[r],
            draws[r],
            drawn[r],
        )
        &&& within[r][0] == at[r]
        &&& within[r][8] == at[r + 1]
        &&& taken[r + 1] == taken[r].insert(draws[r].duration)
    } by {
        let d = draws[r];
        assert(traces_row_run(at[r], n, taken[r], d, at[r + 1]));
        assert(traces_row_drawn(within[r], n, taken[r], d, drawn[r]));
        bounds_are_tenths(d.parent_word);
        bounds_are_tenths(d.state_word);
        lemma_span_row(columns, b as nat, rows, draws, r);
        assert(settles(drawn[r], taken[r], d.duration));
        given_numbers_lie_in_their_ranges(within[r][7], within[r][8]);
        lemma_free_settles(drawn[r], taken[r], d.duration);
    }
    assert(traces_batch_made(
        states[b],
        takens[b],
        b as nat,
        rows,
        n,
        batches[b],
        at,
        taken,
        within,
        draws,
        drawn,
        states[b + 1],
        takens[b + 1],
    ));
}

/// A duration that is not taken stays.
proof fn lemma_free_settles(drawn: i64, taken: Set<i64>, duration: i64)
    requires
        settles(drawn, taken, duration),
        100_000 <= drawn < 500_000_000,
    ensures
        !taken.contains(drawn) ==> duration == drawn,
{
}

/// The values of a row of a batch of traces.
proof fn lemma_span_row(
    columns: Seq<ArrayModel>,
    b: nat,
    rows: nat,
    draws: Seq<TracesDraw>,
    r: int,
)
    requires
        crate::otap_traces::traces_columns(b, rows, draws, columns),
        0 <= r < rows,
    ensures
        columns[1].cells[r] == Cell::Bytes(span_id(b, r as nat) + draws[r].tail@),
        fraction_of(draws[r].parent_word) < EIGHT_TENTHS ==> columns[3].cells[r] == Cell::Bytes(
            draws[r].parent@,
        ),
        fraction_of(draws[r].parent_word) >= EIGHT_TENTHS ==> columns[3].cells[r] == Cell::Null,
        columns[4].cells[r] == text_cell(span_name(draws[r].name as nat)),
        columns[5].cells[r] == Cell::Int(draws[r].kind as int),
        fraction_of(draws[r].state_word) < NINE_TENTHS ==> columns[7].cells[r] == text_cell(
            shared_states()[draws[r].state as int],
        ),
        fraction_of(draws[r].state_word) >= NINE_TENTHS ==> columns[7].cells[r] == text_cell(
            "batch="@ + decimal(b) + ",row="@ + decimal(r as nat % 5),
        ),
        columns[8].cells[r] == Cell::Int(draws[r].duration as int),
{
    assert(crate::otap_logs::trace_id(b, r as nat, draws[r].tail@) =~= span_id(b, r as nat)
        + draws[r].tail@);
}

/// What a row of a batch of logs is made of: the random part of the trace identifier, the severity
/// whose number the generator gives where it is asked for one below six, and nine times in ten a
/// shared event, where it is asked for one below nine, and else that of the batch.
pub open spec fn logs_row_made(
    columns: Seq<ArrayModel>,
    b: nat,
    r: int,
    suffix: Seq<char>,
    s: Seq<StdRng>,
    d: LogsDraw,
) -> bool {
    &&& s.len() == 4
    &&& columns[4].cells[r] == Cell::Bytes(span_id(b, r as nat) + d.tail@)
    &&& gave_below(s[0], 6, d.severity, s[1])
    &&& d.severity < 6
    &&& columns[2].cells[r] == Cell::Int(4 * d.severity + 1)
    &&& gave_word(s[1], d.word, s[2])
    &&& 10 * (d.word as int / 2048) < 9 * 0x20_0000_0000_0000 ==> {
        &&& gave_below(s[2], 9, d.event, s[3])
        &&& columns[7].cells[r] == text_cell(shared_events()[d.event as int])
    }
    &&& 10 * (d.word as int / 2048) >= 9 * 0x20_0000_0000_0000 ==> {
        &&& s[3] == s[2]
        &&& columns[7].cells[r] == text_cell(
            "custom.event.batch"@ + decimal(b) + "."@ + suffix,
        )
    }
}

/// Where the generator stands for one row of a batch of logs.
spec fn logs_row_at(states: Seq<StdRng>, draws: Seq<LogsDraw>, r: int) -> Seq<StdRng> {
    choose|s: Seq<StdRng>| #[trigger]
        logs_row_drawn(s, draws[r]) && s[0] == states[r] && s[3] == states[r + 1]
}

/// Whether the rows of a batch of logs are made of what a generator gives: first the characters of
/// the batch, then the random parts of all trace identifiers, and then the rest row after row.
pub open spec fn logs_batch_made(
    before: StdRng,
    b: nat,
    rows: nat,
    batch: Batch,
    suffix: Seq<char>,
    chars: Seq<StdRng>,
    tails: Seq<StdRng>,
    at: Seq<StdRng>,
    within: Seq<Seq<StdRng>>,
    draws: Seq<LogsDraw>,
    after: StdRng,
) -> bool {
    &&& suffix.len() == 6
    &&& chars.len() == 7
    &&& tails.len() == rows + 1
    &&& at.len() == rows + 1
    &&& within.len() == rows
    &&& draws.len() == rows
    &&& chars[0] == before
    &&& chars[6] == tails[0]
    &&& tails[rows as int] == at[0]
    &&& at[rows as int] == after
    &&& forall|i: int|
        0 <= i < 6 ==> gave_alphanumeric(chars[i], #[trigger] suffix[i], chars[i + 1])
    &&& forall|r: int|
        0 <= r < rows ==> gave_bytes(tails[r], 8, (#[trigger] draws[r]).tail, tails[r + 1])
    &&& forall|r: int|
        0 <= r < rows ==> {
            &&& logs_row_made(batch_columns(batch), b, r, suffix, #[trigger] within[r], draws[r])
            &&& within[r][0] == at[r]
            &&& within[r][3] == at[r + 1]
        }
}

/// Each row of each batch of logs is made of what the generator gives for it, batch after batch.
pub proof fn each_log_row_is_drawn(rows: nat, batches: Seq<Batch>, states: Seq<StdRng>, b: int)
    requires
        logs_run(rows, batches, states),
        0 <= b < batches.len(),
    ensures
        seeded(BENCH_SEED, states[0]),
        batch_rows(batches[b]) == rows,
        exists|
            suffix: Seq<char>,
            chars: Seq<StdRng>,
            tails: Seq<StdRng>,
            at: Seq<StdRng>,
            within: Seq<Seq<StdRng>>,
            draws: Seq<LogsDraw>,
        | #[trigger]
            logs_batch_made(
                states[b],
                b as nat,
                rows,
                batches[b],
                suffix,
                chars,
                tails,
                at,
                within,
                draws,
                states[b + 1],
            ),
{
    let columns = batch_columns(batches[b]);
    assert(drawn_logs_batch(states[b], b as nat, rows, batches[b], states[b + 1]));
    let (suffix, draws) = choose|suffix: Seq<char>, draws: Seq<LogsDraw>|
        {
            &&& #[trigger] logs_draws_run(states[b], suffix, draws, states[b + 1])
            &&& logs_batch_of(b as nat, rows, suffix, draws, batches[b])
        };
    let (tails, at) = choose|tails: Seq<StdRng>, at: Seq<StdRng>|
        {
            &&& crate::draws::chars_run(states[b], suffix, tails.first())
            &&& #[trigger] tails_drawn(tails, draws)
            &&& tails.last() == at.first()
            &&& #[trigger] logs_rows_drawn(at, draws)
            &&& at.last() == states[b + 1]
        };
    let chars = choose|chars: Seq<StdRng>| #[trigger]
        chars_drawn(chars, suffix) && chars.first() == states[b] && chars.last() == tails.first();
    let within = Seq::new(rows, |r: int| logs_row_at(at, draws, r));
    assert(suffix.len() == 6 && chars.len() == 7);
    assert(tails.len() == rows + 1 && at.len() == rows + 1);
    assert(within.len() == rows && draws.len() == rows);
    assert forall|r: int| 0 <= r < rows implies {
        &&& logs_row_made(columns, b as nat, r, suffix, #[trigger] within[r], draws[r])
        &&& within[r][0] == at[r]
        &&& within[r][3] == at[r + 1]
    } by {
        assert(logs_row_run(at[r], draws[r], at[r + 1]));
        assert(logs_row_drawn(within[r], draws[r]));
        bounds_are_tenths(draws[r].word);
        assert(logs_draw_valid(draws[r]));
        lemma_log_row(columns, b as nat, rows, suffix, draws, r);
    }
    assert(logs_batch_made(
        states[b],
        b as nat,
        rows,
        batches[b],
        suffix,
        chars,
        tails,
        at,
        within,
        draws,
        states[b + 1],
    ));
}

/// The values of a row of a batch of logs.
proof fn lemma_log_row(
    columns: Seq<ArrayModel>,
    b: nat,
    rows: nat,
    suffix: Seq<char>,
    draws: Seq<LogsDraw>,
    r: int,
)
    requires
        logs_columns(b, rows, batch_event(b, suffix), draws, columns),
        0 <= r < rows,
        draws[r].severity < 6,
    ensures
        columns[4].cells[r] == Cell::Bytes(span_id(b, r as nat) + draws[r].tail@),
        columns[2].cells[r] == Cell::Int(4 * draws[r].severity + 1),
        fraction_of(draws[r].word) < NINE_TENTHS ==> columns[7].cells[r] == text_cell(
            shared_events()[draws[r].event as int],
        ),
        fraction_of(draws[r].word) >= NINE_TENTHS ==> columns[7].cells[r] == text_cell(
            "custom.event.batch"@ + decimal(b) + "."@ + suffix,
        ),
{
    assert(crate::otap_logs::trace_id(b, r as nat, draws[r].tail@) =~= span_id(b, r as nat)
        + draws[r].tail@);
    let k = draws[r].severity;
    assert(k == 0 || k == 1 || k == 2 || k == 3 || k == 4 || k == 5);
    assert(batch_event(b, suffix) =~= "custom.event.batch"@ + decimal(b) + "."@ + suffix);
}

/// Each row of each batch of a test case has the value of the pool that the number stands for which
/// the generator gives for it, asked for one below the number of values that the batch chooses from:
/// the shared values come first, and each batch has its own after them.
pub proof fn each_row_has_the_value_drawn_for_it(
    tc: TestCase,
    start: StdRng,
    pool: Seq<Vec<u8>>,
    batches: Seq<Batch>,
    states: Seq<StdRng>,
    b: int,
)
    requires
        case_run(tc, start, pool, batches, states),
        0 <= b < batches.len(),
    ensures
        seeded(BENCH_SEED, start),
        batch_rows(batches[b]) == tc.rows_per_batch,
        exists|at: Seq<StdRng>, picks: Seq<usize>|
            {
                let cells = batch_columns(batches[b])[0].cells;
                let own = tc.per_batch_cardinality - tc.shared_count;
                &&& #[trigger] at.len() == tc.rows_per_batch + 1
                &&& #[trigger] picks.len() == tc.rows_per_batch
                &&& at[0] == states[b]
                &&& at[tc.rows_per_batch as int] == states[b + 1]
                &&& forall|r: int|
                    0 <= r < tc.rows_per_batch ==> {
                        &&& gave_below(
                            at[r],
                            tc.per_batch_cardinality,
                            #[trigger] picks[r],
                            at[r + 1],
                        )
                        &&& picks[r] < tc.shared_count ==> cells[r] == value_cell(
                            tc.value_type,
                            pool[picks[r] as int]@,
                        )
                        &&& tc.shared_count <= picks[r] < tc.per_batch_cardinality ==> cells[r]
                            == value_cell(tc.value_type, pool[picks[r] + b * own]@)
                    }
            },
{
    let n = tc.per_batch_cardinality;
    assert(drawn_case_batch(states[b], tc, pool, b as nat, batches[b], states[b + 1]));
    let picks = choose|draws: Seq<usize>|
        {
            &&& #[trigger] crate::draws::belows_run(states[b], n, draws, states[b + 1])
            &&& draws.len() == tc.rows_per_batch
            &&& batch_rows(batches[b]) == tc.rows_per_batch
            &&& batch_columns(batches[b]).len() == 1
            &&& is_drawn(tc, pool, b as nat, draws, batch_columns(batches[b])[0])
        };
    let at = choose|at: Seq<StdRng>| #[trigger]
        belows_drawn(at, n, picks) && at.first() == states[b] && at.last() == states[b + 1];
    assert(at.len() == tc.rows_per_batch + 1);
    assert(picks.len() == tc.rows_per_batch);
    let own = tc.per_batch_cardinality - tc.shared_count;
    assert forall|r: int|
        0 <= r < tc.rows_per_batch && tc.shared_count <= #[trigger] picks[r]
            < tc.per_batch_cardinality implies pool_place(tc, b as nat, picks[r] as nat) == picks[r]
        + b * own by {
        assert(0 <= b * own) by (nonlinear_arith)
            requires
                b >= 0,
                own >= 0,
        ;
    }
}

/// Whether a text of a pool is made of what a generator gives: a length from five to below thirty,
/// and so many letters and digits, after its place.
pub open spec fn text_made(
    before: StdRng,
    i: nat,
    value: Seq<u8>,
    len: i32,
    chars: Seq<StdRng>,
    suffix: Seq<char>,
    after: StdRng,
) -> bool {
    &&& gave_small(before, 5, 30, len, chars[0])
    &&& suffix.len() == len
    &&& chars.len() == len + 1
    &&& chars[len as int] == after
    &&& forall|j: int|
        0 <= j < len ==> gave_alphanumeric(chars[j], #[trigger] suffix[j], chars[j + 1])
    &&& value == encode_utf8("val_"@ + decimal(i) + "_"@ + suffix)
}

/// Whether a value of a pool is made of what a generator gives: each text ends in a length of letters
/// and digits, each binary value in bytes, and all begin with their place.
pub open spec fn pool_value_made(
    vtype: ValueType,
    before: StdRng,
    i: nat,
    value: Seq<u8>,
    after: StdRng,
) -> bool {
    &&& vtype is Utf8 ==> exists|len: i32, chars: Seq<StdRng>, suffix: Seq<char>| #[trigger]
        text_made(before, i, value, len, chars, suffix, after)
    &&& vtype is FixedSizeBinary16 ==> exists|bytes: Vec<u8>| #[trigger]
        gave_bytes(before, 16, bytes, after) && value == le_bytes(i) + bytes@.skip(4)
    &&& vtype is Int32 ==> value == le_bytes(i) && before == after
}

/// Each value of a pool is made of what the generator gives for it, one after the other.
pub proof fn each_pool_value_is_drawn(
    vtype: ValueType,
    before: StdRng,
    pool: Seq<Vec<u8>>,
    after: StdRng,
)
    requires
        pool_run(vtype, before, pool, after),
    ensures
        exists|at: Seq<StdRng>|
            {
                &&& #[trigger] at.len() == pool.len() + 1
                &&& at[0] == before
                &&& at[pool.len() as int] == after
                &&& forall|i: int|
                    0 <= i < pool.len() ==> pool_value_made(
                        vtype,
                        at[i],
                        i as nat,
                        (#[trigger] pool[i])@,
                        at[i + 1],
                    )
            },
{
    let at = choose|at: Seq<StdRng>| #[trigger]
        pool_drawn(vtype, at, pool) && at.first() == before && at.last() == after;
    assert(at.len() == pool.len() + 1);
    assert(at[0] == before && at[pool.len() as int] == after);
    assert forall|i: int| 0 <= i < pool.len() implies pool_value_made(
        vtype,
        at[i],
        i as nat,
        (#[trigger] pool[i])@,
        at[i + 1],
    ) by {
        assert(pool_value_run(vtype, at[i], i as nat, pool[i]@, at[i + 1]));
        if vtype is Utf8 {
            let (len, mid, suffix) = choose|len: i32, mid: StdRng, suffix: Seq<char>| #[trigger]
                suffix_run(at[i], len, mid, suffix, at[i + 1]) && pool[i]@ == encode_utf8(
                    pool_text(i as nat, suffix),
                );
            let chars = choose|chars: Seq<StdRng>| #[trigger]
                chars_drawn(chars, suffix) && chars.first() == mid && chars.last() == at[i + 1];
            assert(pool_text(i as nat, suffix) =~= "val_"@ + decimal(i as nat) + "_"@ + suffix);
            assert(text_made(at[i], i as nat, pool[i]@, len, chars, suffix, at[i + 1]));
        }
    }
}

} // verus!
