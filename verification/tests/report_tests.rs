use std::sync::Arc;

use arrow_array::types::UInt8Type;
use arrow_array::{Array, ArrayRef, DictionaryArray, Float64Array, PrimitiveArray, RecordBatch};
use arrow_schema::{DataType, Field, Schema};

use otap_tools::analysis::{
    analyze, case_name, csv_name, delta_text, left_out, notable, payload_name, Analysis,
    CaseResult,
};
use otap_tools::arrow::Batch;
use otap_tools::ipc::ipc_file_size;
use otap_tools::otap_logs::build_otap_logs_batches;
use otap_tools::otap_metrics::build_otap_metrics_batches;
use otap_tools::otap_traces::build_otap_traces_batches;
use otap_tools::report::{
    column_report, evaluate, run_all_strategies, run_case, run_otap_case, run_otap_metrics_case,
    run_otap_traces_case, single_column, sweep_row, BenchError, Outcome, Strategy,
};
use otap_tools::unify::{unify_concat, unify_dedup, unify_selective};
use otap_tools::workload::{KeyType, TestCase, ValueType};

fn outcome(strategy: Strategy, bytes: usize, widened: bool, native: bool) -> Outcome {
    Outcome {
        strategy,
        unified_dict_len: 0,
        key_widened: widened,
        native_fallback: native,
        ipc_size_bytes: bytes,
    }
}

fn case(sizes: [usize; 4], widened: [bool; 4], native: [bool; 4], faster: bool) -> CaseResult {
    let strategies =
        [Strategy::Concat, Strategy::Dedup, Strategy::Threshold, Strategy::Selective];
    CaseResult {
        name: "case".to_string(),
        outcomes: (0..4).map(|i| outcome(strategies[i], sizes[i], widened[i], native[i])).collect(),
        selective_faster: faster,
    }
}

#[test]
fn strategies_have_names_and_order() {
    let outcomes = run_otap_case(2, 50).unwrap();
    let names: Vec<&str> = outcomes.iter().map(|o| o.strategy.name()).collect();
    assert_eq!(names, ["concat", "dedup", "threshold", "selective"]);
}

#[test]
fn figures_agree_with_the_strategies() {
    let (schema, batches) = build_otap_logs_batches(4, 100).unwrap();
    let outcomes = run_all_strategies(&schema, &batches).unwrap();
    for o in &outcomes {
        let r = o.strategy.unify(&schema, &batches).unwrap();
        assert_eq!(o.unified_dict_len, r.unified_dict_len);
        assert_eq!(o.key_widened, r.key_widened);
        assert_eq!(o.native_fallback, r.native_fallback);
        assert_eq!(o.ipc_size_bytes, ipc_file_size(&r.schema, &r.batches).unwrap());
        assert_eq!(*o, evaluate(o.strategy, &schema, &batches).unwrap());
    }
    assert!(outcomes[1].unified_dict_len < outcomes[0].unified_dict_len);
    assert!(outcomes[1].ipc_size_bytes < outcomes[0].ipc_size_bytes);
    assert_eq!(outcomes[3].unified_dict_len, outcomes[1].unified_dict_len);
}

#[test]
fn synthetic_cases_run() {
    for value_type in [ValueType::Utf8, ValueType::FixedSizeBinary16, ValueType::Int32] {
        for key_type in [KeyType::UInt8, KeyType::UInt16] {
            let tc = TestCase {
                name: "synthetic".to_string(),
                num_batches: 5,
                per_batch_cardinality: 100,
                shared_count: 50,
                value_type,
                key_type,
                rows_per_batch: 100,
            };
            let outcomes = run_case(&tc).unwrap();
            assert_eq!(outcomes.len(), 4);
            assert!(outcomes[1].unified_dict_len <= outcomes[0].unified_dict_len);
            assert_eq!(outcomes[0].key_widened, key_type == KeyType::UInt8);
        }
    }
}

#[test]
fn log_columns_are_reported_one_by_one() {
    let (schema, batches) = build_otap_logs_batches(100, 1000).unwrap();
    let reports: Vec<_> =
        (0..10).map(|c| column_report(&schema, &batches, c).unwrap()).collect();
    let lens: Vec<_> = reports.iter().map(|r| r.lens).collect();
    assert_eq!(
        lens,
        [
            None,
            None,
            Some((600, 6)),
            Some((400, 4)),
            Some((100_000, 100_000)),
            Some((100_000, 100_000)),
            Some((100, 1)),
            Some((1000, 109)),
            None,
            None,
        ]
    );
    assert_eq!(reports[3].name, "severity_text");
    let words: Vec<&str> = reports.iter().map(|r| r.deduped()).collect();
    assert_eq!(
        words,
        ["n/a", "n/a", "YES", "YES", "no", "no", "YES", "YES", "n/a", "n/a"]
    );
}

#[test]
fn one_column_is_taken_out() {
    let (schema, batches) = build_otap_logs_batches(3, 20).unwrap();
    let (col_schema, col_batches) = single_column(&schema, &batches, 7).unwrap();
    assert_eq!(col_schema.fields().len(), 1);
    assert_eq!(col_schema.field(0), schema.field(7));
    for (one, all) in col_batches.iter().zip(&batches) {
        assert_eq!(one.batch.num_columns(), 1);
        assert_eq!(one.batch.column(0), all.batch.column(7));
    }
}

#[test]
fn identifiers_lose_their_dictionary_beyond_the_boundary() {
    let at_boundary = run_otap_case(8, 8192).unwrap();
    assert!(at_boundary.iter().all(|o| !o.native_fallback));
    let beyond = run_otap_case(10, 8192).unwrap();
    assert!(beyond.iter().all(|o| o.native_fallback));
}

#[test]
fn metrics_make_selective_and_dedup_one() {
    let outcomes = run_otap_metrics_case(20, 300, 200).unwrap();
    let (dedup, selective) = (outcomes[1], outcomes[3]);
    assert_eq!(dedup.unified_dict_len, selective.unified_dict_len);
    assert_eq!(dedup.ipc_size_bytes, selective.ipc_size_bytes);
    assert!(outcomes[0].key_widened);
    assert!(!dedup.key_widened);
    let (schema, batches) = build_otap_metrics_batches(5, 100, 50).unwrap();
    let dedup = unify_dedup(&schema, &batches).unwrap();
    let selective = unify_selective(&schema, &batches).unwrap();
    for (a, b) in dedup.batches.iter().zip(&selective.batches) {
        assert_eq!(a.batch, b.batch);
    }
}

#[test]
fn traces_run() {
    let outcomes = run_otap_traces_case(4, 300, 50).unwrap();
    assert!(outcomes[1].unified_dict_len < outcomes[0].unified_dict_len);
    assert!(outcomes[3].unified_dict_len <= outcomes[0].unified_dict_len);
}

#[test]
fn thresholds_are_swept() {
    let (schema, batches) = build_otap_traces_batches(6, 300, 50).unwrap();
    let concat = unify_concat(&schema, &batches).unwrap();
    let baseline = ipc_file_size(&concat.schema, &concat.batches).unwrap();
    let rows: Vec<_> = [0, 1, 16, 64, 300, 65536]
        .into_iter()
        .map(|t| sweep_row(&schema, &batches, t, baseline).unwrap())
        .collect();
    assert_eq!(rows[0].unified_dict_len, concat.unified_dict_len);
    assert_eq!(rows[0].delta, 0);
    for pair in rows.windows(2) {
        assert!(pair[1].unified_dict_len <= pair[0].unified_dict_len);
    }
    assert_eq!(rows[5].threshold, 65536);
    assert_eq!(rows[5].delta, rows[5].ipc_size_bytes as i128 - baseline as i128);
    assert!(rows[5].delta < 0);
}

#[test]
fn cases_are_compared() {
    let no = [false; 4];
    let cases = vec![
        case([5000, 3000, 5000, 3500], [true, false, true, false], no, true),
        case([2000, 2000, 2000, 2000], no, [true, true, true, true], false),
        case([1000, 1500, 1000, 900], [true, true, false, true], no, true),
        CaseResult { name: "short".to_string(), outcomes: vec![], selective_faster: true },
    ];
    assert_eq!(
        analyze(&cases),
        Analysis {
            count: 3,
            cases_dedup_saves_space: 1,
            cases_selective_saves_space: 2,
            total_space_saved_dedup: 2000,
            total_space_saved_selective: 1600,
            total_ipc_baseline: 8000,
            selective_matches_dedup_space: 2,
            selective_faster_than_dedup: 2,
            concat_widens: 2,
            dedup_widens: 1,
            selective_widens: 1,
            concat_native_fb: 1,
            dedup_native_fb: 1,
            selective_native_fb: 1,
        }
    );
    let notables: Vec<_> = cases.iter().map(notable).collect();
    assert_eq!(notables, [Some(1500), None, None, None]);
    let costly = case([1000, 0, 0, 1500], [false, false, false, true], no, false);
    assert_eq!(notable(&costly), Some(-500));
    let exactly = case([2000, 0, 0, 1000], no, no, false);
    assert_eq!(notable(&exactly), None);
}

#[test]
fn sizes_and_names_are_shown() {
    assert_eq!(delta_text(10, 10), "   0");
    assert_eq!(delta_text(15, 10), "+5");
    assert_eq!(delta_text(10, 1015), "-1005");
    assert_eq!(csv_name("a,b,,c"), "a;b;;c");
    assert_eq!(csv_name("OTAP-Logs nb=5 rows=100"), "OTAP-Logs nb=5 rows=100");
    assert_eq!(case_name("Utf8/U8", 2, 10, 90), "Utf8/U8 nb=2 card=10 ovl=90%");
    assert_eq!(payload_name("OTAP-Logs", 5, 100, None), "OTAP-Logs nb=5 rows=100");
    assert_eq!(
        payload_name("OTAP-Metrics", 10, 500, Some(("metrics", 50))),
        "OTAP-Metrics nb=10 rows=500 metrics=50"
    );
}

#[test]
fn empty_batches_run() {
    assert!(run_otap_case(3, 0).is_ok());
    assert!(run_otap_metrics_case(3, 0, 0).is_ok());
    assert!(run_otap_traces_case(3, 0, 0).is_ok());
    assert!(run_otap_traces_case(0, 5, 5).is_ok());
}

#[test]
fn durations_make_one_dictionary() {
    let (schema, batches) = build_otap_traces_batches(4, 300, 10).unwrap();
    let (one_schema, one) = single_column(&schema, &batches, 8).unwrap();
    assert_eq!(unify_concat(&one_schema, &one).unwrap().unified_dict_len, 1200);
    assert_eq!(unify_dedup(&one_schema, &one).unwrap().unified_dict_len, 1200);
}

#[test]
fn too_large_pools_are_left_out() {
    assert!(!left_out(20, 5000, 0));
    assert!(left_out(50, 5000, 0));
    assert!(!left_out(50, 5000, 5000));
    assert!(left_out(usize::MAX, 5000, 0));
}

#[test]
fn failures_are_passed_on() {
    let (schema, batches) = build_otap_logs_batches(2, 10).unwrap();
    let empty = Arc::new(Schema::empty());
    assert!(matches!(
        evaluate(Strategy::Concat, &empty, &batches),
        Err(BenchError::Unify(_))
    ));
    assert!(evaluate(Strategy::Concat, &schema, &[]).is_ok());
    let fields: Vec<Field> = (0..600_000).map(|_| Field::new("", DataType::Int32, true)).collect();
    let unreadable = Arc::new(Schema::new(fields));
    match evaluate(Strategy::Concat, &unreadable, &[]) {
        Err(BenchError::Ipc(error)) => assert_eq!(error.message(), "valid IPC"),
        other => panic!("unexpected {other:?}"),
    }
}

#[test]
fn real_numbers_are_evaluated() {
    let part = |values: Vec<f64>| -> ArrayRef {
        let keys = PrimitiveArray::<UInt8Type>::from(vec![Some(0), None, Some(1)]);
        Arc::new(DictionaryArray::new(keys, Arc::new(Float64Array::from(values))))
    };
    let schema = Arc::new(Schema::new(vec![Field::new(
        "c",
        part(vec![1.0, 2.0]).data_type().clone(),
        true,
    )]));
    let batches: Vec<Batch> = [part(vec![1.0, 2.0]), part(vec![2.0, 3.0])]
        .into_iter()
        .map(|c| Batch { batch: RecordBatch::try_new(schema.clone(), vec![c]).unwrap() })
        .collect();
    let outcomes = run_all_strategies(&schema, &batches).unwrap();
    assert_eq!(outcomes[0].unified_dict_len, 4);
    assert_eq!(outcomes[1].unified_dict_len, 3);
}
