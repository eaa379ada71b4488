//! What the functions return, stated of the functions themselves.

use std::sync::Arc;

use arrow_schema::{ArrowError, Schema};
use rand::rngs::{StdRng, ThreadRng};
use vstd::arithmetic::power2::pow2;
use vstd::prelude::*;

use crate::analysis::{analyze, Analysis, CaseResult};
use crate::arrow::{
    batch_columns, batch_rows, constructible, fields_of, schema_fields, schema_metadata, schema_of,
    ArrowArray, Batch,
};
use crate::chaos::{acks, number_given, word_given, ChaosExporter, ControlState, SimulationMode};
use crate::chaos_session::{
    flaky_refuses_by_the_rate, Action, Event, Phase, Session, Step,
};
use crate::columns::{extract_offset_keys, readable, remap_dict_keys, supported};
use crate::draw_laws::{
    each_log_row_is_drawn, each_row_has_the_metric_drawn_for_it,
    each_row_has_the_value_drawn_for_it, each_span_is_drawn, logs_batch_made, traces_batch_made,
};
use crate::draws::{gave_below, seeded, BENCH_SEED};
use crate::encoding::encodable;
use crate::entries::{
    all_entries, dictionaries, lemma_entries_are_dictionaries, lemma_firsts,
};
use crate::index_type::{capacity, widen_key_type};
use crate::ipc::{file_rows, is_file_of, reads_back, verify_ipc, writable, IpcError};
use crate::laws::{
    dedup_shrinks_dictionaries, self_keyed_columns_tell_apart, unification_keeps_values,
    unification_shares_dictionaries, valid,
};
use crate::model::{of_dictionaries, sum_of, ArrayModel, Cell, Element, FieldModel, IndexType};
use crate::otap::text_cell;
use crate::otap_logs::{build_otap_logs_batches, logs_buildable, logs_run, LogsDraw};
use crate::otap_metrics::{
    build_otap_metrics_batches, metric_description, metric_name, metrics_buildable, metrics_run,
};
use crate::otap_traces::{build_otap_traces_batches, traces_buildable, traces_run, TracesDraw};
use crate::report::{
    column_report, run_all_strategies, BenchError, ColumnReport, Outcome, Strategy,
};
use crate::report_laws::{bytes_less, counts_are_numbers_of_cases, joined_bytes, sums_go_over_all_cases};
use crate::strategy_laws::{
    concat_joins_every_column, distinct_values_are_a_set, joined, joining_keeps_all_values,
    keys_follow_the_number_of_values, lens, places, reports_follow_the_schema, selective_choice,
    selective_joins_long_dictionaries, shared_len, threshold_choice, threshold_joins_what_fits,
};
use crate::unification::{
    array_unified, batch_unified, column_of, conforming, rows_list, same_path, selective_paths,
    threshold_paths, unified_dictionary, unified_field, Path,
};
use crate::unify::{
    unify_concat, unify_dedup, unify_selective, unify_selective_with_threshold, unify_threshold,
    UnifyError, UnifyResult,
};
use crate::value_key::{keys_tell_values_apart, value_key, ValueKey};
use crate::workload::{build_test_batches, case_run, pool_run, value_cell, TestCase};

verus! {

/// The types whose values make their own keys.
pub open spec fn keyed(e: Element) -> bool {
    e matches Element::Known(t) && (t is Utf8 || t is FixedSizeBinary || t is Int32 || t is Int64
        || t is DurationNanos)
}

/// Whether a result is one that one of the strategies returns.
pub open spec fn returned(
    schema: &Arc<Schema>,
    batches: &[Batch],
    threshold: usize,
    result: UnifyResult,
) -> bool {
    ||| call_ensures(unify_concat, (schema, batches), Ok::<UnifyResult, UnifyError>(result))
    ||| call_ensures(unify_dedup, (schema, batches), Ok::<UnifyResult, UnifyError>(result))
    ||| call_ensures(unify_threshold, (schema, batches), Ok::<UnifyResult, UnifyError>(result))
    ||| call_ensures(unify_selective, (schema, batches), Ok::<UnifyResult, UnifyError>(result))
    ||| call_ensures(
        unify_selective_with_threshold,
        (schema, batches, threshold),
        Ok::<UnifyResult, UnifyError>(result),
    )
}

/// A result of one of the strategies is a unification by some paths.
proof fn lemma_returned(
    schema: &Arc<Schema>,
    batches: &[Batch],
    threshold: usize,
    result: UnifyResult,
)
    requires
        conforming(schema_fields(**schema), batches@),
        returned(schema, batches, threshold, result),
    ensures
        exists|paths: Seq<Path>|
            paths.len() == schema_fields(**schema).len() && #[trigger] result.is_unification(
                **schema,
                batches@,
                paths,
            ),
{
    let whole = schema_of(schema);
    let fields = schema_fields(whole);
    if call_ensures(unify_concat, (schema, batches), Ok::<UnifyResult, UnifyError>(result)) {
        assert(result.is_unification(whole, batches@, same_path(fields, Path::Concat)));
    } else if call_ensures(unify_dedup, (schema, batches), Ok::<UnifyResult, UnifyError>(result)) {
        assert(result.is_unification(whole, batches@, same_path(fields, Path::Dedup)));
    } else if call_ensures(
        unify_threshold,
        (schema, batches),
        Ok::<UnifyResult, UnifyError>(result),
    ) {
        assert(result.is_unification(whole, batches@, threshold_paths(fields, batches@)));
    } else if call_ensures(
        unify_selective,
        (schema, batches),
        Ok::<UnifyResult, UnifyError>(result),
    ) {
        assert(result.is_unification(whole, batches@, selective_paths(256, fields, batches@)));
    } else {
        assert(result.is_unification(
            whole,
            batches@,
            selective_paths(threshold as nat, fields, batches@),
        ));
    }
}

/// Whatever the strategy, each row of each batch has the values that it had before, each batch has
/// its rows, and all batches share one dictionary for each column that has one.
pub proof fn strategies_keep_values_and_share_dictionaries(
    schema: &Arc<Schema>,
    batches: &[Batch],
    threshold: usize,
    result: UnifyResult,
    a: int,
    b: int,
    c: int,
)
    requires
        conforming(schema_fields(**schema), batches@),
        valid(batches@),
        returned(schema, batches, threshold, result),
        0 <= a < batches@.len(),
        0 <= b < batches@.len(),
        0 <= c < schema_fields(**schema).len(),
        schema_fields(**schema)[c].ty is Plain || keyed(schema_fields(**schema)[c].ty.element()),
    ensures
        result.batches@.len() == batches@.len(),
        batch_rows(result.batches@[b]) == batch_rows(batches@[b]),
        batch_columns(result.batches@[b])[c].cells == batch_columns(batches@[b])[c].cells,
        batch_columns(result.batches@[b])[c].ty == schema_fields(*result.schema)[c].ty,
        schema_fields(*result.schema)[c].ty is Dictionary ==> batch_columns(
            result.batches@[a],
        )[c].dictionary == batch_columns(result.batches@[b])[c].dictionary,
{
    let whole = schema_of(schema);
    let fields = schema_fields(whole);
    lemma_returned(schema, batches, threshold, result);
    let paths = choose|paths: Seq<Path>|
        paths.len() == fields.len() && #[trigger] result.is_unification(whole, batches@, paths);
    let column = column_of(batches@, c);
    if fields[c].ty is Dictionary {
        let e = fields[c].ty.element()->Known_0;
        assert forall|i: int| 0 <= i < column.len() implies (#[trigger] column[i]).well_formed()
            && column[i].ty is Dictionary && column[i].ty.element() == Element::Known(e) by {
            assert(column[i] == batch_columns(batches@[i])[c]);
        }
        self_keyed_columns_tell_apart(column, e);
    }
    unification_keeps_values(whole, batches@, paths, result, b, c);
    assert(batch_unified(fields, batches@, paths, b, result.batches@[b]));
    assert(batch_unified(fields, batches@, paths, a, result.batches@[a]));
    crate::laws::unification_fits_its_schema(whole, batches@, paths, result, b, c);
    if result.fields()[c].ty is Dictionary {
        unification_shares_dictionaries(whole, batches@, paths, result, a, b, c);
    }
}

/// Whether the batches of a result have one dictionary for a column, of the distinct values of all
/// dictionaries before.
pub open spec fn deduplicated(column: Seq<ArrayModel>, new: Seq<ArrayModel>) -> bool {
    &&& new.len() == column.len()
    &&& forall|b: int|
        0 <= b < new.len() ==> {
            &&& (#[trigger] new[b]).dictionary.no_duplicates()
            &&& new[b].dictionary.to_set() == dictionaries(column).to_set()
        }
}

proof fn lemma_deduplicated(
    schema: Schema,
    batches: Seq<Batch>,
    paths: Seq<Path>,
    result: UnifyResult,
    c: int,
)
    requires
        conforming(schema_fields(schema), batches),
        valid(batches),
        result.is_unification(schema, batches, paths),
        paths.len() == schema_fields(schema).len(),
        0 <= c < schema_fields(schema).len(),
        schema_fields(schema)[c].ty is Dictionary,
        keyed(schema_fields(schema)[c].ty.element()),
        paths[c] == Path::Dedup,
        schema_fields(*result.schema)[c].ty is Dictionary,
    ensures
        deduplicated(column_of(batches, c), column_of(result.batches@, c)),
{
    let fields = schema_fields(schema);
    let column = column_of(batches, c);
    let new = column_of(result.batches@, c);
    let e = fields[c].ty.element()->Known_0;
    assert forall|i: int| 0 <= i < column.len() implies (#[trigger] column[i]).well_formed()
        && column[i].ty is Dictionary && column[i].ty.element() == Element::Known(e) by {
        assert(column[i] == batch_columns(batches[i])[c]);
    }
    distinct_values_are_a_set(column, e);
    assert(result.fields()[c] == unified_field(paths[c], fields[c], column));
    assert forall|b: int| 0 <= b < new.len() implies (#[trigger] new[b]).dictionary
        == unified_dictionary(Path::Dedup, column) by {
        assert(batch_unified(fields, batches, paths, b, result.batches@[b]));
        assert(array_unified(paths[c], fields[c], column, b, batch_columns(result.batches@[b])[c]));
    }
}

/// Joining: every dictionary column of at most 65,536 values in all is joined.
pub proof fn concat_joins(
    schema: &Arc<Schema>,
    batches: &[Batch],
    result: UnifyResult,
    c: int,
)
    requires
        conforming(schema_fields(**schema), batches@),
        call_ensures(unify_concat, (schema, batches), Ok::<UnifyResult, UnifyError>(result)),
        0 <= c < schema_fields(**schema).len(),
        schema_fields(**schema)[c].ty is Dictionary,
        batches@.len() > 0,
        sum_of(lens(column_of(batches@, c))) <= 65536,
    ensures
        joined(column_of(batches@, c), column_of(result.batches@, c)),
{
    concat_joins_every_column(schema_of(schema), batches@, result, c);
}

/// Taking the distinct values: every dictionary column that keeps its dictionary has the distinct
/// values.
pub proof fn dedup_takes_distinct_values(
    schema: &Arc<Schema>,
    batches: &[Batch],
    result: UnifyResult,
    c: int,
)
    requires
        conforming(schema_fields(**schema), batches@),
        valid(batches@),
        call_ensures(unify_dedup, (schema, batches), Ok::<UnifyResult, UnifyError>(result)),
        0 <= c < schema_fields(**schema).len(),
        schema_fields(**schema)[c].ty is Dictionary,
        keyed(schema_fields(**schema)[c].ty.element()),
        schema_fields(*result.schema)[c].ty is Dictionary,
    ensures
        deduplicated(column_of(batches@, c), column_of(result.batches@, c)),
{
    let paths = same_path(fields_of(schema), Path::Dedup);
    lemma_deduplicated(schema_of(schema), batches@, paths, result, c);
}

/// The threshold strategy: a dictionary column is joined where its keys tell all values of all
/// batches apart; else it has the distinct values, as long as it keeps its dictionary.
pub proof fn threshold_joins_or_takes_distinct_values(
    schema: &Arc<Schema>,
    batches: &[Batch],
    result: UnifyResult,
    c: int,
)
    requires
        conforming(schema_fields(**schema), batches@),
        valid(batches@),
        call_ensures(unify_threshold, (schema, batches), Ok::<UnifyResult, UnifyError>(result)),
        0 <= c < schema_fields(**schema).len(),
        schema_fields(**schema)[c].ty is Dictionary,
        keyed(schema_fields(**schema)[c].ty.element()),
        batches@.len() > 0,
    ensures
        ({
            let k = schema_fields(**schema)[c].ty->Dictionary_0;
            let column = column_of(batches@, c);
            let new = column_of(result.batches@, c);
            &&& sum_of(lens(column)) <= places(k) ==> joined(column, new) && schema_fields(
                *result.schema,
            )[c].ty == schema_fields(**schema)[c].ty
            &&& sum_of(lens(column)) > places(k) && schema_fields(
                *result.schema,
            )[c].ty is Dictionary ==> deduplicated(column, new)
        }),
{
    let whole = schema_of(schema);
    let fields = schema_fields(whole);
    let k = fields[c].ty->Dictionary_0;
    let column = column_of(batches@, c);
    let paths = threshold_paths(fields, batches@);
    assert(supported(k));
    threshold_choice(fields[c], column);
    assert(result.fields()[c] == unified_field(paths[c], fields[c], column));
    if sum_of(lens(column)) <= places(k) {
        threshold_joins_what_fits(whole, batches@, result, c);
    } else if result.fields()[c].ty is Dictionary {
        lemma_deduplicated(whole, batches@, paths, result, c);
    }
}

/// The selective strategy: a dictionary column has the distinct values where the dictionaries of all
/// batches together have fewer values than one more than the threshold for each batch; else it is
/// joined. In both cases as long as it keeps its dictionary.
pub proof fn selective_joins_or_takes_distinct_values(
    schema: &Arc<Schema>,
    batches: &[Batch],
    threshold: usize,
    result: UnifyResult,
    c: int,
)
    requires
        conforming(schema_fields(**schema), batches@),
        valid(batches@),
        ({
            ||| call_ensures(
                unify_selective_with_threshold,
                (schema, batches, threshold),
                Ok::<UnifyResult, UnifyError>(result),
            )
            ||| threshold == 256 && call_ensures(
                unify_selective,
                (schema, batches),
                Ok::<UnifyResult, UnifyError>(result),
            )
        }),
        0 <= c < schema_fields(**schema).len(),
        schema_fields(**schema)[c].ty is Dictionary,
        keyed(schema_fields(**schema)[c].ty.element()),
        batches@.len() > 0,
        schema_fields(*result.schema)[c].ty is Dictionary,
    ensures
        ({
            let column = column_of(batches@, c);
            let new = column_of(result.batches@, c);
            &&& sum_of(lens(column)) >= (threshold + 1) * batches@.len() ==> joined(column, new)
            &&& sum_of(lens(column)) < (threshold + 1) * batches@.len() ==> deduplicated(
                column,
                new,
            )
        }),
{
    let whole = schema_of(schema);
    let fields = schema_fields(whole);
    let column = column_of(batches@, c);
    let paths = selective_paths(threshold as nat, fields, batches@);
    assert(result.is_unification(whole, batches@, paths));
    selective_choice(threshold as nat, fields[c], column);
    assert(result.fields()[c] == unified_field(paths[c], fields[c], column));
    if paths[c] is Dedup {
        lemma_deduplicated(whole, batches@, paths, result, c);
    } else {
        joining_keeps_all_values(column, 0, 0);
        assert(supported(fields[c].ty->Dictionary_0));
        keys_follow_the_number_of_values(paths[c], fields[c], column);
        selective_joins_long_dictionaries(whole, batches@, threshold as nat, result, c);
    }
}

/// How many values the dictionaries of a column have together; none for a column without one.
pub open spec fn all_values(field: FieldModel, column: Seq<ArrayModel>) -> nat {
    if field.ty is Dictionary {
        sum_of(lens(column))
    } else {
        0
    }
}

/// What is reported where the dictionaries are joined: all values of all dictionary columns; a key
/// type is widened exactly if a column with 8-bit keys has more than 256 values and at most 65,536,
/// and a dictionary is lost exactly if a column has more.
pub proof fn concat_reports_all_values(
    schema: &Arc<Schema>,
    batches: &[Batch],
    result: UnifyResult,
)
    requires
        conforming(schema_fields(**schema), batches@),
        call_ensures(unify_concat, (schema, batches), Ok::<UnifyResult, UnifyError>(result)),
        batches@.len() > 0,
    ensures
        result.unified_dict_len == sum_of(
            Seq::new(
                schema_fields(**schema).len(),
                |c: int| all_values(schema_fields(**schema)[c], column_of(batches@, c)),
            ),
        ),
        result.key_widened <==> exists|c: int|
            {
                &&& 0 <= c < schema_fields(**schema).len()
                &&& (#[trigger] schema_fields(**schema)[c]).ty.key() == Some(IndexType::UInt8)
                &&& 256 < sum_of(lens(column_of(batches@, c))) <= 65536
            },
        result.native_fallback <==> exists|c: int|
            {
                &&& 0 <= c < schema_fields(**schema).len()
                &&& (#[trigger] schema_fields(**schema)[c]).ty is Dictionary
                &&& sum_of(lens(column_of(batches@, c))) > 65536
            },
{
    let whole = schema_of(schema);
    let fields = fields_of(schema);
    let paths = same_path(fields, Path::Concat);
    let new = result.fields();
    reports_follow_the_schema(whole, batches@, paths, result);
    assert(Seq::new(fields.len(), |c: int| shared_len(paths[c], fields[c], column_of(batches@, c)))
        =~= Seq::new(fields.len(), |c: int| all_values(fields[c], column_of(batches@, c)))) by {
        assert forall|c: int| 0 <= c < fields.len() implies shared_len(
            paths[c],
            fields[c],
            column_of(batches@, c),
        ) == all_values(fields[c], column_of(batches@, c)) by {
            joining_keeps_all_values(column_of(batches@, c), 0, 0);
        }
    }
    assert forall|c: int| 0 <= c < fields.len() && (#[trigger] fields[c]).ty is Dictionary implies {
        let total = sum_of(lens(column_of(batches@, c)));
        &&& new[c].ty is Plain <==> total > 65536
        &&& new[c].ty is Dictionary && new[c].ty.key() != fields[c].ty.key() <==> fields[c].ty.key()
            == Some(IndexType::UInt8) && 256 < total <= 65536
    } by {
        let column = column_of(batches@, c);
        joining_keeps_all_values(column, 0, 0);
        assert(supported(fields[c].ty->Dictionary_0));
        keys_follow_the_number_of_values(paths[c], fields[c], column);
        assert(new[c] == unified_field(paths[c], fields[c], column));
    }
}

/// The figures of the strategies come in their order; that of the distinct values has the shortest
/// dictionaries, that of the joined ones the longest, and the others lie between.
pub proof fn strategies_lie_between_dedup_and_concat(
    schema: &Arc<Schema>,
    batches: &[Batch],
    r: Vec<Outcome>,
)
    requires
        conforming(schema_fields(**schema), batches@),
        encodable(schema_fields(**schema), schema_metadata(**schema), batches@.len()),
        sum_of(rows_list(batches@)) <= usize::MAX,
        call_ensures(
            run_all_strategies,
            (schema, batches),
            Ok::<Vec<Outcome>, BenchError>(r),
        ),
    ensures
        r.len() == 4,
        r[0].strategy == Strategy::Concat,
        r[1].strategy == Strategy::Dedup,
        r[2].strategy == Strategy::Threshold,
        r[3].strategy == Strategy::Selective,
        r[1].unified_dict_len <= r[2].unified_dict_len <= r[0].unified_dict_len,
        r[1].unified_dict_len <= r[3].unified_dict_len <= r[0].unified_dict_len,
{
    let fields = fields_of(schema);
    dedup_shrinks_dictionaries(
        fields,
        batches@,
        threshold_paths(fields, batches@),
        fields.len(),
    );
    dedup_shrinks_dictionaries(
        fields,
        batches@,
        selective_paths(256, fields, batches@),
        fields.len(),
    );
}

/// A file that was verified has the rows of all batches together.
pub proof fn verified_files_have_all_rows(schema: &Arc<Schema>, batches: &[Batch], n: usize)
    requires
        writable(schema_fields(**schema), schema_metadata(**schema), batches@),
        sum_of(rows_list(batches@)) <= usize::MAX,
        call_ensures(verify_ipc, (schema, batches), Ok::<usize, IpcError>(n)),
    ensures
        n == sum_of(Seq::new(batches@.len(), |b: int| batch_rows(batches@[b]))),
        exists|bytes: Seq<u8>| #[trigger]
            reads_back(bytes) && file_rows(bytes) == Some(
                Seq::new(batches@.len(), |b: int| batch_rows(batches@[b])),
            ),
{
    assert(rows_list(batches@) =~= Seq::new(batches@.len(), |b: int| batch_rows(batches@[b])));
    let fields = fields_of(schema);
    let metadata = schema_metadata(schema_of(schema));
    let bytes = choose|bytes: Seq<u8>| #[trigger]
        is_file_of(fields, metadata, batches@, bytes) && reads_back(bytes);
    assert(reads_back(bytes));
}

// ---- the exporter --------------------------------------------------------------------------

/// A message makes the exporter read the control file where the interval has passed since it was
/// read last, and not before.
pub proof fn step_reads_the_file_once_the_interval_has_passed(e: &ChaosExporter)
    ensures
        forall|s: &mut Session, now: u128, rng: &mut ThreadRng, r: Step|
            #![trigger call_ensures(Session::step, (s, e, Event::Data { now }, rng), r)]
            call_ensures(Session::step, (s, e, Event::Data { now }, rng), r) && (*s).phase
                == Phase::Receiving ==> {
                &&& now >= (*s).last_check + e.check_interval ==> {
                    &&& r.action == Action::ReadControlFile
                    &&& (*final(s)).last_check == now
                    &&& (*final(s)).phase == Phase::Reading
                    &&& (*final(s)).state == (*s).state
                }
                &&& (*s).last_check <= now < (*s).last_check + e.check_interval ==> {
                    &&& r.action != Action::ReadControlFile
                    &&& (*final(s)).last_check == (*s).last_check
                    &&& (*final(s)).state == (*s).state
                }
            },
{
}

/// An answer is counted among those of its kind, and progress is reported with it exactly if the
/// number of all messages answered by then can be divided by the number that is configured.
pub proof fn answers_are_counted_and_reported(e: &ChaosExporter, ack: bool)
    ensures
        forall|s: &mut Session, r: Action|
            #![trigger call_ensures(Session::conclude, (s, e, ack), r)]
            call_ensures(Session::conclude, (s, e, ack), r) && (*s).ack_count < u64::MAX
                && (*s).nack_count < u64::MAX ==> {
                let messages = (*s).ack_count + (*s).nack_count + 1;
                let due = e.log_every_n > 0 && messages % (e.log_every_n as int) == 0;
                &&& ack ==> r == Action::Ack { report: due }
                &&& !ack ==> r == Action::Nack { report: due }
                &&& (*final(s)).ack_count + (*final(s)).nack_count == messages
                &&& ack ==> (*final(s)).nack_count == (*s).nack_count
                &&& !ack ==> (*final(s)).ack_count == (*s).ack_count
                &&& (*final(s)).state == (*s).state
                &&& (*final(s)).phase == Phase::Receiving
            },
{
}

/// A shutdown stops the exporter, and a message that does not concern it changes nothing.
pub proof fn step_stops_on_shutdown(e: &ChaosExporter)
    ensures
        forall|s: &mut Session, rng: &mut ThreadRng, r: Step|
            #![trigger call_ensures(Session::step, (s, e, Event::Shutdown, rng), r)]
            call_ensures(Session::step, (s, e, Event::Shutdown, rng), r) && (*s).phase
                == Phase::Receiving ==> {
                &&& r.action == Action::Stop
                &&& (*final(s)).phase == Phase::Stopped
                &&& (*final(s)).ack_count == (*s).ack_count
                &&& (*final(s)).nack_count == (*s).nack_count
                &&& *final(rng) == *rng
            },
        forall|s: &mut Session, rng: &mut ThreadRng, r: Step|
            #![trigger call_ensures(Session::step, (s, e, Event::Other, rng), r)]
            call_ensures(Session::step, (s, e, Event::Other, rng), r) && (*s).phase
                == Phase::Receiving ==> r.action == Action::Receive && *final(s) == *s
                && *final(rng) == *rng,
{
}

/// In `Flaky` mode the answer to a message is the one that the word says which the generator gives:
/// with a rate of the exponent `x` and the further digits `m`, the message is acknowledged exactly
/// if the fraction that the first fifty-two digits of the word make is not below the rate.
pub proof fn messages_are_refused_at_the_rate(state: &ControlState, x: nat, m: nat)
    requires
        state.mode == SimulationMode::Flaky,
        0 < x < 1023,
        m < 0x10_0000_0000_0000,
        state.failure_rate == x * 0x10_0000_0000_0000 + m,
    ensures
        forall|rng: &mut ThreadRng, r: bool| #[trigger]
            call_ensures(ChaosExporter::should_ack_message, (state, rng), r) ==> exists|
                w: &mut ThreadRng,
                word: u64,
            |
                {
                    &&& *w == *rng
                    &&& *final(w) == *final(rng)
                    &&& #[trigger] word_given(w, word)
                    &&& r <==> 0x10_0000_0000_0000 + m <= (word as nat / 4096) * pow2(
                        (1023 - x) as nat,
                    )
                },
{
    assert forall|word: u64| #[trigger] acks(*state, word) <==> 0x10_0000_0000_0000 + m <= (
    word as nat / 4096) * pow2((1023 - x) as nat) by {
        flaky_refuses_by_the_rate(*state, word, x, m);
    }
}

/// The wait before an answer is the latency and what the generator gives of numbers up to the jitter.
pub proof fn waits_are_latency_and_drawn_jitter(state: &ControlState)
    requires
        state.latency_ms + state.jitter_ms <= u64::MAX,
        state.jitter_ms > 0,
    ensures
        forall|rng: &mut ThreadRng, r: u64| #[trigger]
            call_ensures(ChaosExporter::compute_response_delay, (state, rng), r) ==> exists|
                w: &mut ThreadRng,
                extra: u64,
            |
                {
                    &&& *w == *rng
                    &&& *final(w) == *final(rng)
                    &&& #[trigger] number_given(w, state.jitter_ms, extra)
                    &&& r == state.latency_ms + extra
                },
{
}

// ---- the comparison ------------------------------------------------------------------------

/// The comparison counts the cases with figures of all four strategies, and adds up what their files
/// save.
pub proof fn comparison_counts_all_cases(cases: &Vec<CaseResult>, a: Analysis)
    requires
        call_ensures(analyze, (cases,), a),
    ensures
        a.count == cases@.filter(|c: CaseResult| c.outcomes.len() >= 4).len(),
        a.selective_matches_dedup_space == cases@.filter(
            |c: CaseResult|
                c.outcomes.len() >= 4 && c.outcomes[3].ipc_size_bytes
                    <= c.outcomes[1].ipc_size_bytes,
        ).len(),
        a.cases_dedup_saves_space == cases@.filter(
            |c: CaseResult|
                c.outcomes.len() >= 4 && c.outcomes[1].ipc_size_bytes
                    < c.outcomes[0].ipc_size_bytes,
        ).len(),
        a.cases_selective_saves_space == cases@.filter(
            |c: CaseResult|
                c.outcomes.len() >= 4 && c.outcomes[3].ipc_size_bytes
                    < c.outcomes[0].ipc_size_bytes,
        ).len(),
        a.selective_faster_than_dedup == cases@.filter(
            |c: CaseResult| c.outcomes.len() >= 4 && c.selective_faster,
        ).len(),
        a.concat_widens == cases@.filter(
            |c: CaseResult| c.outcomes.len() >= 4 && c.outcomes[0].key_widened,
        ).len(),
        a.dedup_widens == cases@.filter(
            |c: CaseResult| c.outcomes.len() >= 4 && c.outcomes[1].key_widened,
        ).len(),
        a.selective_widens == cases@.filter(
            |c: CaseResult| c.outcomes.len() >= 4 && c.outcomes[3].key_widened,
        ).len(),
        a.concat_native_fb == cases@.filter(
            |c: CaseResult| c.outcomes.len() >= 4 && c.outcomes[0].native_fallback,
        ).len(),
        a.dedup_native_fb == cases@.filter(
            |c: CaseResult| c.outcomes.len() >= 4 && c.outcomes[1].native_fallback,
        ).len(),
        a.selective_native_fb == cases@.filter(
            |c: CaseResult| c.outcomes.len() >= 4 && c.outcomes[3].native_fallback,
        ).len(),
        a.total_ipc_baseline == sum_of(cases@.map_values(|c: CaseResult| joined_bytes(c))),
        a.total_space_saved_dedup == sum_of(cases@.map_values(|c: CaseResult| bytes_less(c, 1))),
        a.total_space_saved_selective == sum_of(
            cases@.map_values(|c: CaseResult| bytes_less(c, 3)),
        ),
{
    counts_are_numbers_of_cases(cases@);
    sums_go_over_all_cases(cases@);
    let all = |c: CaseResult| c.outcomes.len() >= 4;
    assert((|c: CaseResult|
        all(c) && c.outcomes[3].ipc_size_bytes <= c.outcomes[1].ipc_size_bytes) =~= (
    |c: CaseResult|
        c.outcomes.len() >= 4 && c.outcomes[3].ipc_size_bytes <= c.outcomes[1].ipc_size_bytes));
    assert((|c: CaseResult|
        all(c) && c.outcomes[1].ipc_size_bytes < c.outcomes[0].ipc_size_bytes) =~= (
    |c: CaseResult|
        c.outcomes.len() >= 4 && c.outcomes[1].ipc_size_bytes < c.outcomes[0].ipc_size_bytes));
    assert((|c: CaseResult|
        all(c) && c.outcomes[3].ipc_size_bytes < c.outcomes[0].ipc_size_bytes) =~= (
    |c: CaseResult|
        c.outcomes.len() >= 4 && c.outcomes[3].ipc_size_bytes < c.outcomes[0].ipc_size_bytes));
    assert((|c: CaseResult| all(c) && c.selective_faster) =~= (|c: CaseResult|
        c.outcomes.len() >= 4 && c.selective_faster));
    assert((|c: CaseResult| all(c) && c.outcomes[0].key_widened) =~= (|c: CaseResult|
        c.outcomes.len() >= 4 && c.outcomes[0].key_widened));
    assert((|c: CaseResult| all(c) && c.outcomes[1].key_widened) =~= (|c: CaseResult|
        c.outcomes.len() >= 4 && c.outcomes[1].key_widened));
    assert((|c: CaseResult| all(c) && c.outcomes[3].key_widened) =~= (|c: CaseResult|
        c.outcomes.len() >= 4 && c.outcomes[3].key_widened));
    assert((|c: CaseResult| all(c) && c.outcomes[0].native_fallback) =~= (|c: CaseResult|
        c.outcomes.len() >= 4 && c.outcomes[0].native_fallback));
    assert((|c: CaseResult| all(c) && c.outcomes[1].native_fallback) =~= (|c: CaseResult|
        c.outcomes.len() >= 4 && c.outcomes[1].native_fallback));
    assert((|c: CaseResult| all(c) && c.outcomes[3].native_fallback) =~= (|c: CaseResult|
        c.outcomes.len() >= 4 && c.outcomes[3].native_fallback));
}

// ---- the batches ---------------------------------------------------------------------------

/// Whether the rows of a batch of metrics are of the metrics whose numbers a generator gives, row
/// after row, asked for numbers below the number of metrics.
pub open spec fn metrics_made(
    before: StdRng,
    rows: nat,
    n: usize,
    batch: Batch,
    after: StdRng,
) -> bool {
    exists|at: Seq<StdRng>, picks: Seq<usize>|
        {
            let columns = batch_columns(batch);
            &&& #[trigger] at.len() == rows + 1
            &&& #[trigger] picks.len() == rows
            &&& at[0] == before
            &&& at[rows as int] == after
            &&& forall|r: int|
                0 <= r < rows ==> {
                    &&& gave_below(at[r], n, #[trigger] picks[r], at[r + 1])
                    &&& picks[r] < n
                    &&& columns[1].cells[r] == Cell::Int(picks[r] as int % 3 + 1)
                    &&& columns[2].cells[r] == text_cell(metric_name(picks[r] as nat))
                    &&& columns[3].cells[r] == text_cell(metric_description(picks[r] as nat))
                }
        }
}

/// The rows of the batches of metrics that are built are of the metrics whose numbers the generator
/// of the seed gives, row after row and batch after batch.
pub proof fn built_metrics_are_drawn(
    num_batches: usize,
    rows: usize,
    num_unique_metrics: usize,
    schema: Arc<Schema>,
    batches: Vec<Batch>,
)
    requires
        metrics_buildable(num_batches as nat, rows as nat, num_unique_metrics as nat),
        call_ensures(
            build_otap_metrics_batches,
            (num_batches, rows, num_unique_metrics),
            Ok::<(Arc<Schema>, Vec<Batch>), ArrowError>((schema, batches)),
        ),
    ensures
        batches.len() == num_batches,
        exists|states: Seq<StdRng>|
            {
                &&& #[trigger] states.len() == num_batches + 1
                &&& seeded(BENCH_SEED, states[0])
                &&& forall|b: int|
                    0 <= b < num_batches ==> {
                        &&& batch_rows(#[trigger] batches@[b]) == rows
                        &&& metrics_made(
                            states[b],
                            rows as nat,
                            num_unique_metrics,
                            batches@[b],
                            states[b + 1],
                        )
                    }
            },
{
    let n = num_unique_metrics;
    let states = choose|states: Seq<StdRng>| #[trigger]
        metrics_run(rows as nat, n, batches@, states);
    assert(states.len() == num_batches + 1);
    assert forall|b: int| 0 <= b < num_batches implies {
        &&& batch_rows(#[trigger] batches@[b]) == rows
        &&& metrics_made(states[b], rows as nat, n, batches@[b], states[b + 1])
    } by {
        each_row_has_the_metric_drawn_for_it(rows as nat, n, batches@, states, b);
    }
}

/// Whether the rows of a batch of traces are made of what a generator gives.
pub open spec fn spans_made(
    before: StdRng,
    taken_before: Set<i64>,
    b: nat,
    rows: nat,
    n: usize,
    batch: Batch,
    after: StdRng,
    taken_after: Set<i64>,
) -> bool {
    exists|
        at: Seq<StdRng>,
        taken: Seq<Set<i64>>,
        within: Seq<Seq<StdRng>>,
        draws: Seq<TracesDraw>,
        drawn: Seq<i64>,
    | #[trigger]
        traces_batch_made(
            before,
            taken_before,
            b,
            rows,
            n,
            batch,
            at,
            taken,
            within,
            draws,
            drawn,
            after,
            taken_after,
        )
}

/// The rows of the batches of traces that are built are made of what the generator of the seed
/// gives, row after row and batch after batch, where no duration is taken in the beginning.
pub proof fn built_spans_are_drawn(
    num_batches: usize,
    rows: usize,
    num_unique_span_names: usize,
    schema: Arc<Schema>,
    batches: Vec<Batch>,
)
    requires
        traces_buildable(num_batches as nat, rows as nat, num_unique_span_names as nat),
        call_ensures(
            build_otap_traces_batches,
            (num_batches, rows, num_unique_span_names),
            Ok::<(Arc<Schema>, Vec<Batch>), ArrowError>((schema, batches)),
        ),
    ensures
        batches.len() == num_batches,
        exists|states: Seq<StdRng>, takens: Seq<Set<i64>>|
            {
                &&& #[trigger] states.len() == num_batches + 1
                &&& #[trigger] takens.len() == num_batches + 1
                &&& seeded(BENCH_SEED, states[0])
                &&& takens[0] == Set::<i64>::empty()
                &&& forall|b: int|
                    0 <= b < num_batches ==> {
                        &&& batch_rows(#[trigger] batches@[b]) == rows
                        &&& spans_made(
                            states[b],
                            takens[b],
                            b as nat,
                            rows as nat,
                            num_unique_span_names,
                            batches@[b],
                            states[b + 1],
                            takens[b + 1],
                        )
                    }
            },
{
    let n = num_unique_span_names;
    let (states, takens) = choose|states: Seq<StdRng>, takens: Seq<Set<i64>>| #[trigger]
        traces_run(rows as nat, n, batches@, states, takens);
    assert(states.len() == num_batches + 1 && takens.len() == num_batches + 1);
    assert forall|b: int| 0 <= b < num_batches implies {
        &&& batch_rows(#[trigger] batches@[b]) == rows
        &&& spans_made(
            states[b],
            takens[b],
            b as nat,
            rows as nat,
            n,
            batches@[b],
            states[b + 1],
            takens[b + 1],
        )
    } by {
        each_span_is_drawn(rows as nat, n, batches@, states, takens, b);
    }
}

/// Whether the rows of a batch of logs are made of what a generator gives.
pub open spec fn log_rows_made(
    before: StdRng,
    b: nat,
    rows: nat,
    batch: Batch,
    after: StdRng,
) -> bool {
    exists|
        suffix: Seq<char>,
        chars: Seq<StdRng>,
        tails: Seq<StdRng>,
        at: Seq<StdRng>,
        within: Seq<Seq<StdRng>>,
        draws: Seq<LogsDraw>,
    | #[trigger]
        logs_batch_made(before, b, rows, batch, suffix, chars, tails, at, within, draws, after)
}

/// The rows of the batches of logs that are built are made of what the generator of the seed gives,
/// batch after batch.
pub proof fn built_log_rows_are_drawn(
    num_batches: usize,
    rows: usize,
    schema: Arc<Schema>,
    batches: Vec<Batch>,
)
    requires
        logs_buildable(num_batches as nat, rows as nat),
        call_ensures(
            build_otap_logs_batches,
            (num_batches, rows),
            Ok::<(Arc<Schema>, Vec<Batch>), ArrowError>((schema, batches)),
        ),
    ensures
        batches.len() == num_batches,
        exists|states: Seq<StdRng>|
            {
                &&& #[trigger] states.len() == num_batches + 1
                &&& seeded(BENCH_SEED, states[0])
                &&& forall|b: int|
                    0 <= b < num_batches ==> {
                        &&& batch_rows(#[trigger] batches@[b]) == rows
                        &&& log_rows_made(
                            states[b],
                            b as nat,
                            rows as nat,
                            batches@[b],
                            states[b + 1],
                        )
                    }
            },
{
    let states = choose|states: Seq<StdRng>| #[trigger] logs_run(rows as nat, batches@, states);
    assert(states.len() == num_batches + 1);
    assert forall|b: int| 0 <= b < num_batches implies {
        &&& batch_rows(#[trigger] batches@[b]) == rows
        &&& log_rows_made(states[b], b as nat, rows as nat, batches@[b], states[b + 1])
    } by {
        each_log_row_is_drawn(rows as nat, batches@, states, b);
    }
}

/// Whether the rows of a batch of a test case have the values of the pool that the numbers stand for
/// which a generator gives, row after row.
pub open spec fn case_rows_made(
    before: StdRng,
    tc: TestCase,
    pool: Seq<Vec<u8>>,
    b: int,
    batch: Batch,
    after: StdRng,
) -> bool {
    exists|at: Seq<StdRng>, picks: Seq<usize>|
        {
            let cells = batch_columns(batch)[0].cells;
            let own = tc.per_batch_cardinality - tc.shared_count;
            &&& #[trigger] at.len() == tc.rows_per_batch + 1
            &&& #[trigger] picks.len() == tc.rows_per_batch
            &&& at[0] == before
            &&& at[tc.rows_per_batch as int] == after
            &&& forall|r: int|
                0 <= r < tc.rows_per_batch ==> {
                    &&& gave_below(at[r], tc.per_batch_cardinality, #[trigger] picks[r], at[r + 1])
                    &&& picks[r] < tc.shared_count ==> cells[r] == value_cell(
                        tc.value_type,
                        pool[picks[r] as int]@,
                    )
                    &&& tc.shared_count <= picks[r] < tc.per_batch_cardinality ==> cells[r]
                        == value_cell(tc.value_type, pool[picks[r] + b * own]@)
                }
        }
}

/// The rows of the batches of a test case that are built have the values that the numbers stand for
/// which the generator of the seed gives, after it has given those that the pool is made of.
pub proof fn built_cases_are_drawn(tc: &TestCase, schema: Arc<Schema>, batches: Vec<Batch>)
    requires
        tc.buildable(),
        call_ensures(
            build_test_batches,
            (tc,),
            Ok::<(Arc<Schema>, Vec<Batch>), ArrowError>((schema, batches)),
        ),
    ensures
        batches.len() == tc.num_batches,
        exists|start: StdRng, pool: Seq<Vec<u8>>, states: Seq<StdRng>|
            {
                &&& #[trigger] seeded(BENCH_SEED, start)
                &&& #[trigger] states.len() == tc.num_batches + 1
                &&& #[trigger] pool.len() == tc.shared_count + (tc.per_batch_cardinality
                    - tc.shared_count) * tc.num_batches
                &&& pool_run(tc.value_type, start, pool, states[0])
                &&& forall|b: int|
                    0 <= b < tc.num_batches ==> {
                        &&& batch_rows(#[trigger] batches@[b]) == tc.rows_per_batch
                        &&& case_rows_made(states[b], *tc, pool, b, batches@[b], states[b + 1])
                    }
            },
{
    let c = *tc;
    let (start, pool, states) = choose|
        start: StdRng,
        pool: Seq<Vec<u8>>,
        states: Seq<StdRng>,
    | #[trigger] case_run(c, start, pool, batches@, states);
    assert(states.len() == c.num_batches + 1);
    assert(pool.len() == c.shared_count + (c.per_batch_cardinality - c.shared_count)
        * c.num_batches) by {
        assert(0 <= (c.per_batch_cardinality - c.shared_count) * c.num_batches) by (nonlinear_arith)
            requires
                c.per_batch_cardinality >= c.shared_count,
        ;
    }
    assert(seeded(BENCH_SEED, start));
    assert forall|b: int| 0 <= b < c.num_batches implies {
        &&& batch_rows(#[trigger] batches@[b]) == c.rows_per_batch
        &&& case_rows_made(states[b], c, pool, b, batches@[b], states[b + 1])
    } by {
        each_row_has_the_value_drawn_for_it(c, start, pool, batches@, states, b);
    }
}

// ---- columns -------------------------------------------------------------------------------

/// Keys that are read with an offset are the keys, each larger by it; and null stays null.
pub proof fn keys_are_moved_by_the_offset(
    col: &ArrowArray,
    key_type: IndexType,
    offset: usize,
    r: Vec<Option<u64>>,
    i: int,
)
    requires
        readable(col@),
        col@.ty.key() == Some(key_type),
        forall|j: int|
            0 <= j < col@.keys.len() ==> (#[trigger] col@.keys[j] matches Some(k) ==> k + offset
                <= u64::MAX),
        call_ensures(extract_offset_keys, (col, key_type, offset), r),
        0 <= i < col@.keys.len(),
    ensures
        r.len() == col@.keys.len(),
        r[i] is Some <==> col@.keys[i] is Some,
        r[i] is Some ==> r[i]->0 == col@.keys[i]->0 + offset,
{
    assert(col@.keys[i] is Some || col@.keys[i] is None);
    assert(r[i] == crate::columns::moved(col@.keys[i], offset as nat));
}

/// A column whose keys are moved has the values of the other dictionary that lie so much further
/// on; and null stays null.
pub proof fn moved_columns_show_later_values(
    col: &ArrowArray,
    original: IndexType,
    target: IndexType,
    values: &ArrowArray,
    offset: usize,
    r: ArrowArray,
    i: int,
)
    requires
        readable(col@),
        col@.ty.key() == Some(original),
        supported(target),
        values@.ty is Plain,
        !of_dictionaries(values@.ty.element()),
        values@.cells.len() <= places(target),
        forall|j: int|
            0 <= j < col@.keys.len() ==> (#[trigger] col@.keys[j] matches Some(k) ==> k + offset
                < values@.cells.len()),
        call_ensures(remap_dict_keys, (col, original, target, values, offset), r),
        0 <= i < col@.keys.len(),
    ensures
        r@.keys.len() == col@.keys.len(),
        r@.dictionary == values@.cells,
        col@.keys[i] matches Some(k) ==> r@.keys[i] == Some((k + offset) as u64) && r@.cells[i]
            == values@.cells[k + offset],
        col@.keys[i] is None ==> r@.keys[i] is None,
{
    assert forall|j: int| 0 <= j < col@.keys.len() implies (#[trigger] col@.keys[j] matches Some(
        k,
    ) ==> {
        &&& k + offset <= u64::MAX
        &&& (k + offset) % (capacity(target) as int) < values@.cells.len()
    }) by {
        if let Some(k) = col@.keys[j] {
            vstd::arithmetic::div_mod::lemma_small_mod((k + offset) as nat, capacity(target));
        }
    }
    if let Some(k) = col@.keys[i] {
        vstd::arithmetic::div_mod::lemma_small_mod((k + offset) as nat, capacity(target));
    }
    assert(r@.keys[i] == crate::columns::truncated(
        crate::columns::moved(col@.keys[i], offset as nat),
        target,
    ));
}

/// The keys of two values of an array are the same exactly if the values are, for texts, binary
/// values of one size, 32-bit and 64-bit integers and durations.
pub proof fn keys_of_values_tell_them_apart(
    array: &ArrowArray,
    i: usize,
    j: usize,
    x: ValueKey,
    y: ValueKey,
)
    requires
        array@.ty is Plain,
        array@.well_formed(),
        keyed(array@.ty.element()),
        constructible(array@.ty.element()),
        i < array@.cells.len(),
        j < array@.cells.len(),
        call_ensures(value_key, (array, i), x),
        call_ensures(value_key, (array, j), y),
    ensures
        x@ == y@ <==> array@.cells[i as int] == array@.cells[j as int],
{
    let e = array@.ty.element()->Known_0;
    keys_tell_values_apart(
        e,
        array@.cells[i as int],
        array@.cells[j as int],
        array@.texts[i as int],
        array@.texts[j as int],
    );
}

/// A key type for a number of values tells them apart, is the given one where that does, and tells no
/// fewer values apart than that.
pub proof fn widened_keys_suffice(original: IndexType, total: usize, r: IndexType)
    requires
        original is UInt8 || original is UInt16,
        call_ensures(widen_key_type, (original, total), r),
    ensures
        total <= places(original) ==> r == original,
        places(original) < total <= 65536 ==> r == IndexType::UInt16,
        total > 65536 ==> r == IndexType::UInt32 || r == IndexType::UInt64,
{
}

/// What is reported of a column: how many values its dictionaries have together, and how many its
/// shared dictionary has by the selective strategy, which are as many where the average is more
/// than 256.
pub proof fn reports_of_columns_count_values(
    schema: &Arc<Schema>,
    batches: &[Batch],
    c: usize,
    report: ColumnReport,
)
    requires
        c < schema_fields(**schema).len(),
        conforming(schema_fields(**schema), batches@),
        call_ensures(
            column_report,
            (schema, batches, c),
            Ok::<ColumnReport, BenchError>(report),
        ),
        schema_fields(**schema)[c as int].ty is Dictionary,
        batches@.len() > 0,
    ensures
        ({
            let column = column_of(batches@, c as int);
            let total = sum_of(lens(column));
            &&& report.lens is Some
            &&& report.lens matches Some((joined_len, selective_len)) ==> {
                &&& joined_len == total
                &&& total >= 257 * batches@.len() ==> selective_len == total
                &&& total < 257 * batches@.len() ==> selective_len == unified_dictionary(
                    Path::Dedup,
                    column,
                ).len()
                &&& selective_len <= total
            }
        }),
{
    let column = column_of(batches@, c as int);
    joining_keeps_all_values(column, 0, 0);
    selective_choice(256, fields_of(schema)[c as int], column);
    lemma_entries_are_dictionaries(column);
    lemma_firsts(all_entries(column));
}

} // verus!
