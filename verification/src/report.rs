//! What is reported about the strategies: their figures on batches, on single columns, and for
//! several thresholds.

use std::sync::Arc;

use arrow_schema::{ArrowError, Schema};
use rand::rngs::StdRng;
use vstd::prelude::*;

use crate::arrow::{
    batch_column, batch_columns, batch_rows, builder_fields, contents_of, dictionary_key,
    field_name, fields_of, finish_schema, fits_schema, new_batch, new_schema, no_metadata, push_field,
    schema_fields, schema_metadata, schema_of, ArrowArray, Batch,
};
use crate::encoding::encodable;
use crate::entries::dictionaries;
use crate::feasible::{brief_batch, lemma_brief_unifiable, lemma_modest_fields, modest_field};
use crate::ipc::{
    ipc_file_size, is_file_of, reader_knows, reads_back, verify_ipc, IpcError,
};
use crate::laws::{
    unification_can_be_read, unification_keeps_rows, unification_stays_encodable,
    unified_batches_fit_one_file,
};
use crate::model::{sum_of, FieldModel};
use crate::otap_logs::{
    build_otap_logs_batches, is_logs_batch, lemma_logs_brief, lemma_logs_modest, logs_buildable,
    logs_fields, logs_run,
};
use crate::otap_metrics::{
    build_otap_metrics_batches, is_metrics_batch, lemma_metrics_brief, lemma_metrics_modest,
    metrics_buildable, metrics_fields, metrics_run,
};
use crate::otap_traces::{
    build_otap_traces_batches, is_traces_batch, lemma_traces_brief, lemma_traces_modest,
    traces_buildable, traces_fields, traces_run,
};
use crate::unification::{
    any_native, any_widened, column_of, conforming, rows_list, same_path,
    selective_path, selective_paths, threshold_paths, total_lens, unifiable,
    unified_dictionary, unified_lens, unifies, Path,
};
use crate::unify::{
    column_explains, explains, unification_outcome, unify_concat, unify_dedup, unify_selective,
    unify_selective_with_threshold, unify_threshold, UnifyError, UnifyResult,
};
use crate::workload::{build_test_batches, case_fields, case_run, drawn_batch, is_pool, TestCase};
use crate::workload_laws::{lemma_case_brief, lemma_case_modest};

verus! {

/// The strategies.
#[derive(Debug, Clone, Copy, PartialEq, Eq, Structural)]
pub enum Strategy {
    Concat,
    Dedup,
    Threshold,
    Selective,
}

impl Strategy {
    /// The name.
    pub fn name(&self) -> (r: &'static str)
        ensures
            r@ == (match *self {
                Strategy::Concat => "concat"@,
                Strategy::Dedup => "dedup"@,
                Strategy::Threshold => "threshold"@,
                Strategy::Selective => "selective"@,
            }),
    {
        match self {
            Strategy::Concat => "concat",
            Strategy::Dedup => "dedup",
            Strategy::Threshold => "threshold",
            Strategy::Selective => "selective",
        }
    }

    /// The path that the strategy takes for each column.
    pub open spec fn paths(self, fields: Seq<FieldModel>, batches: Seq<Batch>) -> Seq<Path> {
        match self {
            Strategy::Concat => same_path(fields, Path::Concat),
            Strategy::Dedup => same_path(fields, Path::Dedup),
            Strategy::Threshold => threshold_paths(fields, batches),
            Strategy::Selective => selective_paths(256, fields, batches),
        }
    }

    /// Unifies batches by the strategy.
    pub fn unify(&self, schema: &Arc<Schema>, batches: &[Batch]) -> (r: Result<
        UnifyResult,
        UnifyError,
    >)
        requires
            conforming(schema_fields(**schema), batches@),
        ensures
            unification_outcome(
                **schema,
                batches@,
                self.paths(schema_fields(**schema), batches@),
                r,
            ),
    {
        match self {
            Strategy::Concat => unify_concat(schema, batches),
            Strategy::Dedup => unify_dedup(schema, batches),
            Strategy::Threshold => unify_threshold(schema, batches),
            Strategy::Selective => unify_selective(schema, batches),
        }
    }
}

/// The figures of one strategy.
#[derive(Debug, Clone, Copy, PartialEq, Eq, Structural)]
pub struct Outcome {
    pub strategy: Strategy,
    /// How many values the shared dictionaries have together.
    pub unified_dict_len: usize,
    /// Whether a key type was widened.
    pub key_widened: bool,
    /// Whether a column lost its dictionary.
    pub native_fallback: bool,
    /// How many bytes the file of the unified batches has.
    pub ipc_size_bytes: usize,
}

/// Why there are no figures.
#[derive(Debug)]
pub enum BenchError {
    /// The batches could not be built.
    Build(ArrowError),
    /// The batches could not be unified.
    Unify(UnifyError),
    /// The unified batches could not be written or read.
    Ipc(IpcError),
}

/// Whether bytes are a file of the unification of batches by one path per column.
pub open spec fn is_unified_file(
    schema: Schema,
    batches: Seq<Batch>,
    paths: Seq<Path>,
    bytes: Seq<u8>,
) -> bool {
    exists|new_schema: Schema, new_batches: Seq<Batch>|
        #[trigger] unifies(schema, batches, paths, new_schema, new_batches) && is_file_of(
            schema_fields(new_schema),
            schema_metadata(new_schema),
            new_batches,
            bytes,
        )
}

/// Whether figures are those of a strategy. The size is that of a file of the unified batches, and a
/// reader takes such a file.
pub open spec fn is_outcome(
    schema: Schema,
    batches: Seq<Batch>,
    strategy: Strategy,
    o: Outcome,
) -> bool {
    let fields = schema_fields(schema);
    let paths = strategy.paths(fields, batches);
    &&& o.strategy == strategy
    &&& o.unified_dict_len == unified_lens(fields, batches, paths, fields.len())
    &&& o.key_widened == any_widened(fields, batches, paths, fields.len() as int)
    &&& o.native_fallback == any_native(fields, batches, paths, fields.len() as int)
    &&& exists|bytes: Seq<u8>|
        bytes.len() == o.ipc_size_bytes && #[trigger] is_unified_file(
            schema,
            batches,
            paths,
            bytes,
        )
    &&& exists|bytes: Seq<u8>| #[trigger]
        is_unified_file(schema, batches, paths, bytes) && reads_back(bytes)
}

/// Whether nothing stands in the way of a strategy: not of the unification, and a reader takes the
/// schema.
pub open spec fn evaluable(schema: Schema, batches: Seq<Batch>, strategy: Strategy) -> bool {
    let fields = schema_fields(schema);
    &&& unifiable(fields, batches, strategy.paths(fields, batches))
    &&& reader_knows(fields, schema_metadata(schema))
}

/// Whether nothing stands in the way of any strategy.
pub open spec fn all_evaluable(schema: Schema, batches: Seq<Batch>) -> bool {
    &&& evaluable(schema, batches, Strategy::Concat)
    &&& evaluable(schema, batches, Strategy::Dedup)
    &&& evaluable(schema, batches, Strategy::Threshold)
    &&& evaluable(schema, batches, Strategy::Selective)
}

/// Whether an error is one that a strategy can end in: one of the unification with its cause in
/// the batches; or one of the reading where a reader does not take the schema.
pub open spec fn evaluation_fails(
    schema: Schema,
    batches: Seq<Batch>,
    strategy: Strategy,
    error: BenchError,
) -> bool {
    let fields = schema_fields(schema);
    match error {
        BenchError::Build(_) => false,
        BenchError::Unify(e) => explains(e, fields, batches, strategy.paths(fields, batches)),
        BenchError::Ipc(e) => {
            &&& !reader_knows(fields, schema_metadata(schema))
            &&& e is Read
        },
    }
}

/// Whether an error is one that one of the strategies can end in.
pub open spec fn strategies_fail(schema: Schema, batches: Seq<Batch>, error: BenchError) -> bool {
    exists|strategy: Strategy| #[trigger] evaluation_fails(schema, batches, strategy, error)
}

/// A file of the batches of a unification is one of the unification.
proof fn lemma_unified_file(
    schema: Schema,
    batches: Seq<Batch>,
    paths: Seq<Path>,
    result: UnifyResult,
    size: usize,
)
    requires
        result.is_unification(schema, batches, paths),
        exists|bytes: Seq<u8>|
            bytes.len() == size && #[trigger] is_file_of(
                schema_fields(*result.schema),
                schema_metadata(*result.schema),
                result.batches@,
                bytes,
            ),
    ensures
        exists|bytes: Seq<u8>|
            bytes.len() == size && #[trigger] is_unified_file(schema, batches, paths, bytes),
{
    let fields = result.fields();
    let metadata = schema_metadata(schema_of(&result.schema));
    let bytes = choose|bytes: Seq<u8>|
        bytes.len() == size && #[trigger] is_file_of(fields, metadata, result.batches@, bytes);
    assert(unifies(schema, batches, paths, *result.schema, result.batches@));
    assert(is_unified_file(schema, batches, paths, bytes));
}

/// A file of the batches of a unification that a reader takes is one of the unification.
proof fn lemma_unified_file_read(
    schema: Schema,
    batches: Seq<Batch>,
    paths: Seq<Path>,
    result: UnifyResult,
)
    requires
        result.is_unification(schema, batches, paths),
        exists|bytes: Seq<u8>| #[trigger]
            is_file_of(
                schema_fields(*result.schema),
                schema_metadata(*result.schema),
                result.batches@,
                bytes,
            ) && reads_back(bytes),
    ensures
        exists|bytes: Seq<u8>| #[trigger]
            is_unified_file(schema, batches, paths, bytes) && reads_back(bytes),
{
    let fields = result.fields();
    let metadata = schema_metadata(schema_of(&result.schema));
    let bytes = choose|bytes: Seq<u8>| #[trigger]
        is_file_of(fields, metadata, result.batches@, bytes) && reads_back(bytes);
    assert(unifies(schema, batches, paths, *result.schema, result.batches@));
    assert(is_unified_file(schema, batches, paths, bytes));
}

/// Unifies batches by a strategy, writes them to a file, and reads that back: it has as many rows
/// as the batches. It succeeds where nothing stands in the way of the unification, and a reader
/// takes the schema.
pub fn evaluate(strategy: Strategy, schema: &Arc<Schema>, batches: &[Batch]) -> (r: Result<
    Outcome,
    BenchError,
>)
    requires
        conforming(schema_fields(**schema), batches@),
        encodable(schema_fields(**schema), schema_metadata(**schema), batches@.len()),
        sum_of(rows_list(batches@)) <= usize::MAX,
    ensures
        r matches Ok(o) ==> is_outcome(**schema, batches@, strategy, o),
        r matches Err(error) ==> evaluation_fails(**schema, batches@, strategy, error),
        evaluable(**schema, batches@, strategy) ==> r is Ok,
{
    let result = match strategy.unify(schema, batches) {
        Ok(result) => result,
        Err(error) => {
            return Err(BenchError::Unify(error));
        },
    };
    proof {
        let before = schema_of(schema);
        let fields = fields_of(schema);
        let paths = strategy.paths(fields, batches@);
        unification_keeps_rows(before, batches@, paths, result);
        unified_batches_fit_one_file(before, batches@, paths, result);
        unification_stays_encodable(before, batches@, paths, result);
        if reader_knows(fields, schema_metadata(before)) {
            unification_can_be_read(before, batches@, paths, result);
        }
    }
    match verify_ipc(&result.schema, &result.batches) {
        Ok(total_rows) => {
            assert(total_rows == sum_of(rows_list(batches@)));
            proof {
                lemma_unified_file_read(
                    schema_of(schema),
                    batches@,
                    strategy.paths(fields_of(schema), batches@),
                    result,
                );
            }
        },
        Err(error) => {
            return Err(BenchError::Ipc(error));
        },
    }
    match ipc_file_size(&result.schema, &result.batches) {
        Ok(ipc_size_bytes) => {
            proof {
                lemma_unified_file(
                    schema_of(schema),
                    batches@,
                    strategy.paths(fields_of(schema), batches@),
                    result,
                    ipc_size_bytes,
                );
            }
            Ok(
                Outcome {
                    strategy,
                    unified_dict_len: result.unified_dict_len,
                    key_widened: result.key_widened,
                    native_fallback: result.native_fallback,
                    ipc_size_bytes,
                },
            )
        },
        Err(error) => Err(BenchError::Ipc(error)),
    }
}

/// Whether figures are those of all strategies, in their order.
pub open spec fn are_outcomes(schema: Schema, batches: Seq<Batch>, r: Seq<Outcome>) -> bool {
    &&& r.len() == 4
    &&& is_outcome(schema, batches, Strategy::Concat, r[0])
    &&& is_outcome(schema, batches, Strategy::Dedup, r[1])
    &&& is_outcome(schema, batches, Strategy::Threshold, r[2])
    &&& is_outcome(schema, batches, Strategy::Selective, r[3])
}

/// What comes of all strategies on batches: their figures, or an error that one of them can end
/// in; and the figures where nothing stands in the way of any.
pub open spec fn strategies_result(
    schema: Schema,
    batches: Seq<Batch>,
    r: Result<Vec<Outcome>, BenchError>,
) -> bool {
    &&& match r {
        Ok(outcomes) => are_outcomes(schema, batches, outcomes@),
        Err(error) => strategies_fail(schema, batches, error),
    }
    &&& all_evaluable(schema, batches) ==> r is Ok
}

/// Evaluates all strategies.
pub fn run_all_strategies(schema: &Arc<Schema>, batches: &[Batch]) -> (r: Result<
    Vec<Outcome>,
    BenchError,
>)
    requires
        conforming(schema_fields(**schema), batches@),
        encodable(schema_fields(**schema), schema_metadata(**schema), batches@.len()),
        sum_of(rows_list(batches@)) <= usize::MAX,
    ensures
        strategies_result(**schema, batches@, r),
{
    let strategies: [Strategy; 4] = [
        Strategy::Concat,
        Strategy::Dedup,
        Strategy::Threshold,
        Strategy::Selective,
    ];
    let mut results: Vec<Outcome> = Vec::new();
    let mut i: usize = 0;
    while i < 4
        invariant
            i <= 4,
            strategies@ == seq![
                Strategy::Concat,
                Strategy::Dedup,
                Strategy::Threshold,
                Strategy::Selective,
            ],
            conforming(schema_fields(**schema), batches@),
            encodable(schema_fields(**schema), schema_metadata(**schema), batches@.len()),
            sum_of(rows_list(batches@)) <= usize::MAX,
            results.len() == i,
            forall|j: int|
                0 <= j < i ==> is_outcome(**schema, batches@, strategies@[j], #[trigger] results[j]),
        decreases 4 - i,
    {
        match evaluate(strategies[i], schema, batches) {
            Ok(outcome) => results.push(outcome),
            Err(error) => {
                assert(evaluation_fails(**schema, batches@, strategies@[i as int], error));
                return Err(error);
            },
        }
        i += 1;
    }
    proof {
        assert(is_outcome(**schema, batches@, strategies@[0], results[0]));
        assert(is_outcome(**schema, batches@, strategies@[1], results[1]));
        assert(is_outcome(**schema, batches@, strategies@[2], results[2]));
        assert(is_outcome(**schema, batches@, strategies@[3], results[3]));
    }
    Ok(results)
}

/// Batches of one size have that many rows together.
proof fn lemma_equal_rows(batches: Seq<Batch>, rows: nat)
    requires
        forall|b: int| 0 <= b < batches.len() ==> batch_rows(#[trigger] batches[b]) == rows,
    ensures
        sum_of(rows_list(batches)) == batches.len() * rows,
    decreases batches.len(),
{
    if batches.len() > 0 {
        let before = batches.drop_last();
        assert forall|b: int| 0 <= b < before.len() implies batch_rows(#[trigger] before[b])
            == rows by {
            assert(before[b] == batches[b]);
        }
        lemma_equal_rows(before, rows);
        assert(rows_list(batches).drop_last() =~= rows_list(before));
        assert(batch_rows(batches[batches.len() - 1]) == rows);
        assert(before.len() * rows + rows == batches.len() * rows) by (nonlinear_arith)
            requires
                before.len() + 1 == batches.len(),
        ;
    } else {
        assert(0 * rows == 0);
    }
}

/// How many batches one file can describe beside a schema of short names.
pub const MOST_BATCHES: usize = 33_000_000;

/// Up to how many rows every strategy succeeds on short values.
pub const MOST_ROWS: usize = 2_000_000;

/// A schema of modest fields and batches of short values can be written, and where the rows are
/// not too many, nothing stands in the way of any strategy.
proof fn lemma_feasible(schema: Schema, batches: Seq<Batch>, rows: nat)
    requires
        0 < schema_fields(schema).len() <= 1000,
        schema_metadata(schema) == no_metadata(),
        forall|c: int|
            0 <= c < schema_fields(schema).len() ==> modest_field(
                #[trigger] schema_fields(schema)[c],
            ),
        batches.len() <= MOST_BATCHES,
        forall|b: int|
            0 <= b < batches.len() ==> brief_batch(
                schema_fields(schema),
                rows,
                #[trigger] batches[b],
            ),
    ensures
        encodable(schema_fields(schema), schema_metadata(schema), batches.len()),
        batches.len() * rows <= MOST_ROWS ==> all_evaluable(schema, batches),
{
    let fields = schema_fields(schema);
    lemma_modest_fields(fields, schema_metadata(schema), batches.len());
    if batches.len() * rows <= MOST_ROWS {
        lemma_brief_unifiable(fields, batches, Strategy::Concat.paths(fields, batches), rows);
        lemma_brief_unifiable(fields, batches, Strategy::Dedup.paths(fields, batches), rows);
        lemma_brief_unifiable(fields, batches, Strategy::Threshold.paths(fields, batches), rows);
        lemma_brief_unifiable(fields, batches, Strategy::Selective.paths(fields, batches), rows);
    }
}

/// Whether a schema and batches are those of a test case.
pub open spec fn is_case(tc: TestCase, schema: Schema, batches: Seq<Batch>) -> bool {
    &&& schema_fields(schema) == case_fields(tc)
    &&& batches.len() == tc.num_batches
    &&& exists|pool: Seq<Vec<u8>>|
        {
            &&& pool.len() == tc.pool_size()
            &&& #[trigger] is_pool(tc.value_type, pool)
            &&& forall|b: int|
                0 <= b < batches.len() ==> drawn_batch(tc, pool, b as nat, #[trigger] batches[b])
        }
    &&& exists|start: StdRng, pool: Seq<Vec<u8>>, states: Seq<StdRng>| #[trigger]
        case_run(tc, start, pool, batches, states)
}

/// Builds the batches of a test case, and evaluates all strategies on them.
pub fn run_case(tc: &TestCase) -> (r: Result<Vec<Outcome>, BenchError>)
    requires
        tc.buildable(),
        tc.num_batches <= MOST_BATCHES,
    ensures
        exists|schema: Schema, batches: Seq<Batch>|
            is_case(*tc, schema, batches) && #[trigger] strategies_result(schema, batches, r),
        tc.num_batches * tc.rows_per_batch <= MOST_ROWS ==> r is Ok,
{
    match build_test_batches(tc) {
        Ok((schema, batches)) => {
            let ghost pool = choose|pool: Seq<Vec<u8>>|
                {
                    &&& pool.len() == tc.pool_size()
                    &&& #[trigger] is_pool(tc.value_type, pool)
                    &&& forall|b: int|
                        0 <= b < batches.len() ==> drawn_batch(
                            *tc,
                            pool,
                            b as nat,
                            #[trigger] batches[b],
                        )
                };
            proof {
                assert forall|b: int| 0 <= b < batches@.len() implies batch_rows(
                    #[trigger] batches@[b],
                ) == tc.rows_per_batch by {
                    assert(drawn_batch(*tc, pool, b as nat, batches[b]));
                }
                lemma_equal_rows(batches@, tc.rows_per_batch as nat);
                lemma_case_modest(*tc);
                assert forall|b: int| 0 <= b < batches@.len() implies brief_batch(
                    case_fields(*tc),
                    tc.rows_per_batch as nat,
                    #[trigger] batches@[b],
                ) by {
                    assert(drawn_batch(*tc, pool, b as nat, batches[b]));
                    lemma_case_brief(*tc, pool, b as nat, batches[b]);
                }
                lemma_feasible(schema_of(&schema), batches@, tc.rows_per_batch as nat);
            }
            let r = run_all_strategies(&schema, &batches);
            proof {
                assert(is_case(*tc, schema_of(&schema), batches@));
                assert(strategies_result(schema_of(&schema), batches@, r));
            }
            r
        },
        Err(error) => Err(BenchError::Build(error)),
    }
}

/// Whether a schema and batches are those of logs.
pub open spec fn are_logs(
    num_batches: nat,
    rows: nat,
    schema: Schema,
    batches: Seq<Batch>,
) -> bool {
    &&& schema_fields(schema) == logs_fields()
    &&& batches.len() == num_batches
    &&& forall|b: int|
        0 <= b < batches.len() ==> is_logs_batch(b as nat, rows, #[trigger] batches[b])
    &&& schema_metadata(schema) == no_metadata()
    &&& exists|states: Seq<StdRng>| #[trigger] logs_run(rows, batches, states)
}

/// Builds log batches, and evaluates all strategies on them.
pub fn run_otap_case(num_batches: usize, rows_per_batch: usize) -> (r: Result<
    Vec<Outcome>,
    BenchError,
>)
    requires
        logs_buildable(num_batches as nat, rows_per_batch as nat),
        num_batches <= MOST_BATCHES,
    ensures
        exists|schema: Schema, batches: Seq<Batch>|
            are_logs(num_batches as nat, rows_per_batch as nat, schema, batches)
                && #[trigger] strategies_result(schema, batches, r),
        num_batches * rows_per_batch <= MOST_ROWS ==> r is Ok,
{
    match build_otap_logs_batches(num_batches, rows_per_batch) {
        Ok((schema, batches)) => {
            proof {
                assert forall|b: int| 0 <= b < batches@.len() implies batch_rows(
                    #[trigger] batches@[b],
                ) == rows_per_batch by {
                    assert(is_logs_batch(b as nat, rows_per_batch as nat, batches[b]));
                }
                lemma_equal_rows(batches@, rows_per_batch as nat);
                lemma_logs_modest();
                assert forall|b: int| 0 <= b < batches@.len() implies brief_batch(
                    logs_fields(),
                    rows_per_batch as nat,
                    #[trigger] batches@[b],
                ) by {
                    assert(is_logs_batch(b as nat, rows_per_batch as nat, batches[b]));
                    lemma_logs_brief(b as nat, rows_per_batch as nat, batches[b]);
                }
                lemma_feasible(schema_of(&schema), batches@, rows_per_batch as nat);
            }
            let r = run_all_strategies(&schema, &batches);
            assert(strategies_result(schema_of(&schema), batches@, r));
            r
        },
        Err(error) => Err(BenchError::Build(error)),
    }
}

/// Whether a schema and batches are those of metrics.
pub open spec fn are_metrics(
    num_batches: nat,
    rows: nat,
    num_unique_metrics: nat,
    schema: Schema,
    batches: Seq<Batch>,
) -> bool {
    &&& schema_fields(schema) == metrics_fields()
    &&& batches.len() == num_batches
    &&& forall|b: int|
        0 <= b < batches.len() ==> is_metrics_batch(
            rows,
            num_unique_metrics,
            #[trigger] batches[b],
        )
    &&& schema_metadata(schema) == no_metadata()
    &&& exists|states: Seq<StdRng>| #[trigger]
        metrics_run(rows, num_unique_metrics as usize, batches, states)
}

/// Builds metric batches, and evaluates all strategies on them.
pub fn run_otap_metrics_case(
    num_batches: usize,
    rows_per_batch: usize,
    num_unique_metrics: usize,
) -> (r: Result<Vec<Outcome>, BenchError>)
    requires
        metrics_buildable(num_batches as nat, rows_per_batch as nat, num_unique_metrics as nat),
        num_batches <= MOST_BATCHES,
    ensures
        exists|schema: Schema, batches: Seq<Batch>|
            are_metrics(
                num_batches as nat,
                rows_per_batch as nat,
                num_unique_metrics as nat,
                schema,
                batches,
            ) && #[trigger] strategies_result(schema, batches, r),
        num_batches * rows_per_batch <= MOST_ROWS ==> r is Ok,
{
    match build_otap_metrics_batches(num_batches, rows_per_batch, num_unique_metrics) {
        Ok((schema, batches)) => {
            proof {
                assert forall|b: int| 0 <= b < batches@.len() implies batch_rows(
                    #[trigger] batches@[b],
                ) == rows_per_batch by {
                    assert(is_metrics_batch(
                        rows_per_batch as nat,
                        num_unique_metrics as nat,
                        batches[b],
                    ));
                }
                lemma_equal_rows(batches@, rows_per_batch as nat);
                lemma_metrics_modest();
                assert forall|b: int| 0 <= b < batches@.len() implies brief_batch(
                    metrics_fields(),
                    rows_per_batch as nat,
                    #[trigger] batches@[b],
                ) by {
                    assert(is_metrics_batch(
                        rows_per_batch as nat,
                        num_unique_metrics as nat,
                        batches[b],
                    ));
                    lemma_metrics_brief(
                        rows_per_batch as nat,
                        num_unique_metrics as nat,
                        batches[b],
                    );
                }
                lemma_feasible(schema_of(&schema), batches@, rows_per_batch as nat);
            }
            let r = run_all_strategies(&schema, &batches);
            proof {
                let n = num_unique_metrics as nat;
                assert(n as usize == num_unique_metrics);
                let states = choose|states: Seq<StdRng>| #[trigger]
                    metrics_run(rows_per_batch as nat, num_unique_metrics, batches@, states);
                assert(metrics_run(rows_per_batch as nat, n as usize, batches@, states));
                assert(are_metrics(
                    num_batches as nat,
                    rows_per_batch as nat,
                    n,
                    schema_of(&schema),
                    batches@,
                ));
                assert(strategies_result(schema_of(&schema), batches@, r));
            }
            r
        },
        Err(error) => Err(BenchError::Build(error)),
    }
}

/// Whether a schema and batches are those of traces.
pub open spec fn are_traces(
    num_batches: nat,
    rows: nat,
    num_unique_span_names: nat,
    schema: Schema,
    batches: Seq<Batch>,
) -> bool {
    &&& schema_fields(schema) == traces_fields()
    &&& batches.len() == num_batches
    &&& forall|b: int|
        0 <= b < batches.len() ==> is_traces_batch(
            b as nat,
            rows,
            num_unique_span_names,
            #[trigger] batches[b],
        )
    &&& schema_metadata(schema) == no_metadata()
    &&& exists|states: Seq<StdRng>, takens: Seq<Set<i64>>| #[trigger]
        traces_run(rows, num_unique_span_names as usize, batches, states, takens)
}

/// Builds trace batches, and evaluates all strategies on them.
pub fn run_otap_traces_case(
    num_batches: usize,
    rows_per_batch: usize,
    num_unique_span_names: usize,
) -> (r: Result<Vec<Outcome>, BenchError>)
    requires
        traces_buildable(
            num_batches as nat,
            rows_per_batch as nat,
            num_unique_span_names as nat,
        ),
        num_batches <= MOST_BATCHES,
    ensures
        exists|schema: Schema, batches: Seq<Batch>|
            are_traces(
                num_batches as nat,
                rows_per_batch as nat,
                num_unique_span_names as nat,
                schema,
                batches,
            ) && #[trigger] strategies_result(schema, batches, r),
        num_batches * rows_per_batch <= MOST_ROWS ==> r is Ok,
{
    match build_otap_traces_batches(num_batches, rows_per_batch, num_unique_span_names) {
        Ok((schema, batches)) => {
            proof {
                assert forall|b: int| 0 <= b < batches@.len() implies batch_rows(
                    #[trigger] batches@[b],
                ) == rows_per_batch by {
                    assert(is_traces_batch(
                        b as nat,
                        rows_per_batch as nat,
                        num_unique_span_names as nat,
                        batches[b],
                    ));
                }
                lemma_equal_rows(batches@, rows_per_batch as nat);
                lemma_traces_modest();
                assert forall|b: int| 0 <= b < batches@.len() implies brief_batch(
                    traces_fields(),
                    rows_per_batch as nat,
                    #[trigger] batches@[b],
                ) by {
                    assert(is_traces_batch(
                        b as nat,
                        rows_per_batch as nat,
                        num_unique_span_names as nat,
                        batches[b],
                    ));
                    lemma_traces_brief(
                        b as nat,
                        rows_per_batch as nat,
                        num_unique_span_names as nat,
                        batches[b],
                    );
                }
                lemma_feasible(schema_of(&schema), batches@, rows_per_batch as nat);
            }
            let r = run_all_strategies(&schema, &batches);
            proof {
                let n = num_unique_span_names as nat;
                assert(n as usize == num_unique_span_names);
                let (states, takens) = choose|states: Seq<StdRng>, takens: Seq<Set<i64>>| #[trigger]
                    traces_run(
                        rows_per_batch as nat,
                        num_unique_span_names,
                        batches@,
                        states,
                        takens,
                    );
                assert(traces_run(rows_per_batch as nat, n as usize, batches@, states, takens));
                assert(are_traces(
                    num_batches as nat,
                    rows_per_batch as nat,
                    n,
                    schema_of(&schema),
                    batches@,
                ));
                assert(strategies_result(schema_of(&schema), batches@, r));
            }
            r
        },
        Err(error) => Err(BenchError::Build(error)),
    }
}

/// Whether batches are those of one column alone.
pub open spec fn is_single_column(batches: Seq<Batch>, c: int, single: Seq<Batch>) -> bool {
    &&& single.len() == batches.len()
    &&& forall|b: int|
        0 <= b < single.len() ==> {
            &&& batch_columns(#[trigger] single[b]) == seq![batch_columns(batches[b])[c]]
            &&& batch_rows(single[b]) == batch_rows(batches[b])
        }
}

/// Takes one column out of all batches. That fails only where the column is marked as never null
/// and has a null in it.
pub fn single_column(schema: &Arc<Schema>, batches: &[Batch], c: usize) -> (r: Result<
    (Arc<Schema>, Vec<Batch>),
    ArrowError,
>)
    requires
        c < schema_fields(**schema).len(),
        conforming(schema_fields(**schema), batches@),
    ensures
        r matches Ok((col_schema, col_batches)) ==> {
            &&& schema_fields(*col_schema) == seq![schema_fields(**schema)[c as int]]
            &&& is_single_column(batches@, c as int, col_batches@)
            &&& column_of(col_batches@, 0) == column_of(batches@, c as int)
            &&& conforming(schema_fields(*col_schema), col_batches@)
        },
        r is Err <==> !schema_fields(**schema)[c as int].nullable && exists|b: int|
            0 <= b < batches@.len() && (#[trigger] batch_columns(
                batches@[b],
            )[c as int]).marks_null(),
{
    let ghost fields = fields_of(schema);
    let ghost one = seq![fields[c as int]];
    let mut builder = new_schema();
    push_field(&mut builder, schema, c);
    assert(builder_fields(builder) =~= one);
    let col_schema = finish_schema(builder);
    let mut col_batches: Vec<Batch> = Vec::new();
    let mut b: usize = 0;
    while b < batches.len()
        invariant
            b <= batches.len(),
            batches@.len() == batches.len(),
            fields == schema_fields(**schema),
            c < fields.len(),
            one == seq![fields[c as int]],
            conforming(fields, batches@),
            schema_fields(*col_schema) == one,
            col_batches.len() == b,
            forall|i: int|
                0 <= i < b ==> {
                    &&& batch_columns(#[trigger] col_batches@[i]) == seq![
                        batch_columns(batches@[i])[c as int],
                    ]
                    &&& batch_rows(col_batches@[i]) == batch_rows(batches@[i])
                },
            forall|i: int|
                0 <= i < b ==> fields[c as int].nullable || !(#[trigger] batch_columns(
                    batches@[i],
                )[c as int]).marks_null(),
        decreases batches.len() - b,
    {
        let column = batch_column(&batches[b], c);
        let ghost a = column@;
        let mut columns: Vec<ArrowArray> = Vec::new();
        columns.push(column);
        let ghost contents = contents_of(columns@);
        proof {
            assert(contents =~= seq![a]);
            assert(batch_columns(batches@[b as int])[c as int].ty == fields[c as int].ty);
            assert(fits_schema(one, contents) <==> fields[c as int].nullable || !a.marks_null());
        }
        match new_batch(&col_schema, columns) {
            Ok(batch) => col_batches.push(batch),
            Err(error) => {
                assert(batch_columns(batches@[b as int])[c as int].marks_null());
                return Err(error);
            },
        }
        b += 1;
    }
    proof {
        assert(column_of(col_batches@, 0) =~= column_of(batches@, c as int));
        assert(total_lens(one, col_batches@, 1) <= total_lens(fields, batches@, fields.len())) by {
            reveal_with_fuel(total_lens, 2);
            lemma_column_within(fields, batches@, c as nat, fields.len());
        }
        assert forall|i: int, k: int|
            0 <= i < col_batches@.len() && 0 <= k < one.len() implies (#[trigger] batch_columns(
            col_batches@[i],
        )[k]).ty == one[k].ty by {
            assert(batch_columns(batches@[i])[c as int].ty == fields[c as int].ty);
        }
    }
    Ok((col_schema, col_batches))
}

/// The dictionaries of one column are no longer than those of all columns together.
proof fn lemma_column_within(fields: Seq<FieldModel>, batches: Seq<Batch>, c: nat, n: nat)
    requires
        c < n,
    ensures
        (if fields[c as int].ty is Dictionary {
            dictionaries(column_of(batches, c as int)).len()
        } else {
            0
        }) <= total_lens(fields, batches, n),
    decreases n,
{
    if c + 1 < n {
        lemma_column_within(fields, batches, c, (n - 1) as nat);
    }
}

/// What is reported about one column.
#[derive(Debug)]
pub struct ColumnReport {
    pub name: String,
    /// For a dictionary column, how long its shared dictionary is where the dictionaries are
    /// joined, and by the selective strategy.
    pub lens: Option<(usize, usize)>,
}

impl ColumnReport {
    /// Whether the selective strategy takes fewer values than there are, in words.
    pub fn deduped(&self) -> (r: &'static str)
        ensures
            r@ == (match self.lens {
                Some((concat, selective)) => if concat != selective {
                    "YES"@
                } else {
                    "no"@
                },
                None => "n/a"@,
            }),
    {
        match self.lens {
            Some((concat, selective)) => if concat != selective {
                "YES"
            } else {
                "no"
            },
            None => "n/a",
        }
    }
}

/// Reports how long the shared dictionary of one column is, were it alone.
pub fn column_report(schema: &Arc<Schema>, batches: &[Batch], c: usize) -> (r: Result<
    ColumnReport,
    BenchError,
>)
    requires
        c < schema_fields(**schema).len(),
        conforming(schema_fields(**schema), batches@),
    ensures
        r matches Ok(report) ==> {
            let field = schema_fields(**schema)[c as int];
            let column = column_of(batches@, c as int);
            &&& report.name@ == field.name
            &&& report.lens is Some <==> field.ty is Dictionary
            &&& report.lens matches Some((concat, selective)) ==> {
                &&& concat == dictionaries(column).len()
                &&& selective == unified_dictionary(
                    selective_path(256, field, column),
                    column,
                ).len()
            }
        },
        r matches Err(error) ==> {
            let field = schema_fields(**schema)[c as int];
            let column = column_of(batches@, c as int);
            &&& field.ty is Dictionary
            &&& match error {
                BenchError::Build(_) => !field.nullable && exists|b: int|
                    0 <= b < column.len() && (#[trigger] column[b]).marks_null(),
                BenchError::Unify(e) => column_explains(e, Path::Concat, field, column)
                    || column_explains(e, selective_path(256, field, column), field, column),
                BenchError::Ipc(_) => false,
            }
        },
{
    let name = field_name(schema, c);
    if dictionary_key(schema, c).is_none() {
        return Ok(ColumnReport { name, lens: None });
    }
    let (col_schema, col_batches) = match single_column(schema, batches, c) {
        Ok(single) => single,
        Err(error) => {
            proof {
                let b = choose|b: int|
                    0 <= b < batches@.len() && (#[trigger] batch_columns(
                        batches@[b],
                    )[c as int]).marks_null();
                assert(column_of(batches@, c as int)[b].marks_null());
            }
            return Err(BenchError::Build(error));
        },
    };
    let r_concat = match unify_concat(&col_schema, &col_batches) {
        Ok(result) => result,
        Err(error) => {
            return Err(BenchError::Unify(error));
        },
    };
    let r_selective = match unify_selective(&col_schema, &col_batches) {
        Ok(result) => result,
        Err(error) => {
            return Err(BenchError::Unify(error));
        },
    };
    proof {
        reveal_with_fuel(unified_lens, 2);
    }
    Ok(
        ColumnReport {
            name,
            lens: Some((r_concat.unified_dict_len, r_selective.unified_dict_len)),
        },
    )
}

/// The figures of the selective strategy with one threshold.
#[derive(Debug, Clone, Copy, PartialEq, Eq, Structural)]
pub struct SweepRow {
    pub threshold: usize,
    pub unified_dict_len: usize,
    pub ipc_size_bytes: usize,
    /// By how many bytes the file is longer than another.
    pub delta: i128,
    pub key_widened: bool,
}

/// Evaluates the selective strategy with one threshold, and compares the file with one of
/// `baseline` bytes.
pub fn sweep_row(
    schema: &Arc<Schema>,
    batches: &[Batch],
    threshold: usize,
    baseline: usize,
) -> (r: Result<SweepRow, BenchError>)
    requires
        conforming(schema_fields(**schema), batches@),
        encodable(schema_fields(**schema), schema_metadata(**schema), batches@.len()),
    ensures
        r matches Ok(row) ==> {
            let fields = schema_fields(**schema);
            let paths = selective_paths(threshold as nat, fields, batches@);
            &&& row.threshold == threshold
            &&& row.unified_dict_len == unified_lens(fields, batches@, paths, fields.len())
            &&& row.key_widened == any_widened(fields, batches@, paths, fields.len() as int)
            &&& row.delta == row.ipc_size_bytes - baseline
            &&& exists|bytes: Seq<u8>|
                bytes.len() == row.ipc_size_bytes && #[trigger] is_unified_file(
                    **schema,
                    batches@,
                    paths,
                    bytes,
                )
        },
        unifiable(
            schema_fields(**schema),
            batches@,
            selective_paths(threshold as nat, schema_fields(**schema), batches@),
        ) ==> r is Ok,
        r matches Err(error) ==> match error {
            BenchError::Build(_) => false,
            BenchError::Unify(e) => explains(
                e,
                schema_fields(**schema),
                batches@,
                selective_paths(threshold as nat, schema_fields(**schema), batches@),
            ),
            BenchError::Ipc(_) => false,
        },
{
    let result = match unify_selective_with_threshold(schema, batches, threshold) {
        Ok(result) => result,
        Err(error) => {
            return Err(BenchError::Unify(error));
        },
    };
    proof {
        let before = schema_of(schema);
        let fields = fields_of(schema);
        let paths = selective_paths(threshold as nat, fields, batches@);
        unified_batches_fit_one_file(before, batches@, paths, result);
        unification_stays_encodable(before, batches@, paths, result);
    }
    match ipc_file_size(&result.schema, &result.batches) {
        Ok(ipc_size_bytes) => {
            proof {
                lemma_unified_file(
                    schema_of(schema),
                    batches@,
                    selective_paths(threshold as nat, fields_of(schema), batches@),
                    result,
                    ipc_size_bytes,
                );
            }
            Ok(
                SweepRow {
                    threshold,
                    unified_dict_len: result.unified_dict_len,
                    ipc_size_bytes,
                    delta: ipc_size_bytes as i128 - baseline as i128,
                    key_widened: result.key_widened,
                },
            )
        },
        Err(error) => Err(BenchError::Ipc(error)),
    }
}

} // verus!
