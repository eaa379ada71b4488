use std::collections::HashSet;
use std::sync::Arc;

use arrow_array::types::{
    DurationNanosecondType, Int32Type, TimestampNanosecondType, UInt16Type, UInt32Type, UInt8Type,
};
use arrow_array::{
    Array, ArrayRef, BooleanArray, DictionaryArray, FixedSizeBinaryArray, PrimitiveArray,
    StringArray,
};
use arrow_schema::{DataType, Schema, TimeUnit};
use rand::rngs::StdRng;
use rand::SeedableRng;

use otap_tools::arrow::{ArrowArray, Batch};
use otap_tools::draws::{falls_below, push_alphanumeric, BENCH_SEED, EIGHT_TENTHS, NINE_TENTHS};
use otap_tools::otap_logs::{
    build_otap_logs_batches, can_build_logs, logs_batch, logs_schema, LogsDraw,
};
use otap_tools::otap_metrics::{
    build_otap_metrics_batches, can_build_metrics, metric_descriptions, metric_names,
    metrics_batch, metrics_schema,
};
use otap_tools::otap_traces::{
    build_otap_traces_batches, can_build_traces, span_names, traces_batch, traces_schema,
    TracesDraw,
};
use otap_tools::text::{push_decimal, to_le_bytes};
use otap_tools::unify::conforms;
use otap_tools::workload::{
    binary_value, build_test_batches, can_build, case_column, generate_value_pool, int_value,
    text_value, total_possible, KeyType, TestCase, ValueType,
};
use otap_tools::model::{ElementType, IndexType};

fn case(value_type: ValueType, key_type: KeyType) -> TestCase {
    TestCase {
        name: "case".to_string(),
        num_batches: 3,
        per_batch_cardinality: 10,
        shared_count: 4,
        value_type,
        key_type,
        rows_per_batch: 50,
    }
}

fn assert_same_batches(first: &[Batch], second: &[Batch]) {
    assert_eq!(first.len(), second.len());
    for (a, b) in first.iter().zip(second) {
        assert_eq!(a.batch, b.batch);
    }
}

fn plain(array: &ArrayRef) -> ArrayRef {
    match array.data_type() {
        DataType::Dictionary(_, value) => arrow_cast::cast(array, value).unwrap(),
        _ => array.clone(),
    }
}

fn strings(array: &ArrayRef) -> Vec<String> {
    let array = plain(array);
    let array = array.as_any().downcast_ref::<StringArray>().unwrap();
    array.iter().map(|s| s.unwrap().to_string()).collect()
}

fn ints(array: &ArrayRef) -> Vec<i32> {
    let array = plain(array);
    let array = array.as_any().downcast_ref::<PrimitiveArray<Int32Type>>().unwrap();
    array.values().to_vec()
}

fn binaries(array: &ArrayRef) -> Vec<Option<Vec<u8>>> {
    let array = plain(array);
    let array = array.as_any().downcast_ref::<FixedSizeBinaryArray>().unwrap();
    array.iter().map(|b| b.map(|b| b.to_vec())).collect()
}

fn times(array: &ArrayRef) -> Vec<i64> {
    let array =
        array.as_any().downcast_ref::<PrimitiveArray<TimestampNanosecondType>>().unwrap();
    array.values().to_vec()
}

fn words(array: &ArrayRef) -> Vec<u32> {
    array.as_any().downcast_ref::<PrimitiveArray<UInt32Type>>().unwrap().values().to_vec()
}

fn column(batches: &[Batch], b: usize, c: usize) -> ArrayRef {
    batches[b].batch.column(c).clone()
}

fn names(schema: &Arc<Schema>) -> Vec<String> {
    schema.fields().iter().map(|f| f.name().clone()).collect()
}

#[test]
fn pools_hold_different_values() {
    for vtype in [ValueType::Utf8, ValueType::FixedSizeBinary16, ValueType::Int32] {
        let mut rng = StdRng::seed_from_u64(BENCH_SEED);
        let pool = generate_value_pool(vtype, 300, &mut rng);
        assert_eq!(pool.len(), 300);
        assert_eq!(pool.iter().collect::<HashSet<_>>().len(), 300);
        for (i, value) in pool.iter().enumerate() {
            match vtype {
                ValueType::Utf8 => {
                    let text = String::from_utf8(value.clone()).unwrap();
                    let suffix = text.strip_prefix(&format!("val_{i}_")).unwrap();
                    assert!((5..30).contains(&suffix.len()));
                    assert!(suffix.chars().all(|c| c.is_ascii_alphanumeric()));
                }
                ValueType::FixedSizeBinary16 => {
                    assert_eq!(value.len(), 16);
                    assert_eq!(value[..4], (i as u32).to_le_bytes());
                }
                ValueType::Int32 => assert_eq!(value[..], (i as i32).to_le_bytes()),
            }
        }
    }
    let mut rng = StdRng::seed_from_u64(1);
    let pool = generate_value_pool(ValueType::FixedSizeBinary16, 4, &mut rng);
    assert!(pool.iter().any(|v| v[4..].iter().any(|&b| b != 0)));
}

#[test]
fn cases_are_built_from_one_pool() {
    for vtype in [ValueType::Utf8, ValueType::FixedSizeBinary16, ValueType::Int32] {
        for ktype in [KeyType::UInt8, KeyType::UInt16] {
            let tc = case(vtype, ktype);
            assert!(can_build(&tc));
            let (schema, batches) = build_test_batches(&tc).unwrap();
            assert_eq!(names(&schema), ["col"]);
            assert!(schema.field(0).is_nullable());
            assert!(conforms(&schema, &batches));
            assert_eq!(batches.len(), 3);
            let mut rng = StdRng::seed_from_u64(BENCH_SEED);
            let pool = generate_value_pool(vtype, 4 + 3 * 6, &mut rng);
            for b in 0..3 {
                assert_eq!(batches[b].batch.num_rows(), 50);
                let rows: Vec<Vec<u8>> = match vtype {
                    ValueType::Utf8 => strings(&column(&batches, b, 0))
                        .into_iter()
                        .map(String::into_bytes)
                        .collect(),
                    ValueType::FixedSizeBinary16 => binaries(&column(&batches, b, 0))
                        .into_iter()
                        .map(Option::unwrap)
                        .collect(),
                    ValueType::Int32 => ints(&column(&batches, b, 0))
                        .into_iter()
                        .map(|v| v.to_le_bytes().to_vec())
                        .collect(),
                };
                let own = 4 + 6 * b;
                let choices: Vec<&Vec<u8>> = pool[..4].iter().chain(&pool[own..own + 6]).collect();
                assert!(rows.iter().all(|row| choices.contains(&row)));
                assert!(rows.iter().collect::<HashSet<_>>().len() > 1);
            }
        }
    }
}

#[test]
fn dictionaries_follow_first_occurrence() {
    let (_, batches) = build_test_batches(&case(ValueType::Int32, KeyType::UInt8)).unwrap();
    for b in 0..3 {
        let array = column(&batches, b, 0);
        let dict = array.as_any().downcast_ref::<DictionaryArray<UInt8Type>>().unwrap();
        let mut seen: Vec<i32> = Vec::new();
        for value in ints(&array) {
            if !seen.contains(&value) {
                seen.push(value);
            }
        }
        let values = dict.values().as_any().downcast_ref::<PrimitiveArray<Int32Type>>().unwrap();
        assert_eq!(values.values().to_vec(), seen);
    }
}

#[test]
fn types_have_names() {
    assert_eq!(ValueType::Utf8.name(), "Utf8");
    assert_eq!(ValueType::FixedSizeBinary16.name(), "FSB16");
    assert_eq!(ValueType::Int32.name(), "Int32");
    assert_eq!(KeyType::UInt8.name(), "UInt8");
    assert_eq!(KeyType::UInt16.name(), "UInt16");
    assert_eq!(KeyType::UInt8.to_arrow(), IndexType::UInt8);
    assert_eq!(KeyType::UInt16.to_arrow(), IndexType::UInt16);
    assert_eq!(ValueType::FixedSizeBinary16.element(), ElementType::FixedSizeBinary(16));
}

#[test]
fn impossible_cases_are_told() {
    let good = case(ValueType::Utf8, KeyType::UInt8);
    assert!(!can_build(&TestCase { shared_count: 11, ..good.clone() }));
    let none = TestCase { per_batch_cardinality: 0, shared_count: 0, ..good.clone() };
    assert!(!can_build(&none));
    assert!(can_build(&TestCase { rows_per_batch: 0, ..none }));
    let large = TestCase { per_batch_cardinality: 257, ..good.clone() };
    assert!(can_build(&TestCase { rows_per_batch: 256, ..large.clone() }));
    assert!(!can_build(&TestCase { rows_per_batch: 257, ..large.clone() }));
    assert!(can_build(&TestCase {
        rows_per_batch: 257,
        key_type: KeyType::UInt16,
        ..large
    }));
    assert!(!can_build(&TestCase { num_batches: usize::MAX, ..good }));
    assert_eq!(total_possible(5, 100, 50), Some(300));
    assert_eq!(total_possible(usize::MAX, 2, 0), None);
}

#[test]
fn log_rows_are_as_described() {
    assert!(can_build_logs(3, 200));
    let (schema, batches) = build_otap_logs_batches(3, 200).unwrap();
    assert_eq!(
        names(&schema),
        [
            "time_unix_nano",
            "observed_time_unix_nano",
            "severity_number",
            "severity_text",
            "trace_id",
            "span_id",
            "schema_url",
            "event_name",
            "dropped_attributes_count",
            "flags",
        ]
    );
    let nullable: Vec<bool> = schema.fields().iter().map(|f| f.is_nullable()).collect();
    assert_eq!(
        nullable,
        [false, false, true, true, true, true, true, true, false, false]
    );
    assert_eq!(
        schema.field(0).data_type(),
        &DataType::Timestamp(TimeUnit::Nanosecond, None)
    );
    assert_eq!(
        schema.field(4).data_type(),
        &DataType::Dictionary(
            Box::new(DataType::UInt16),
            Box::new(DataType::FixedSizeBinary(16))
        )
    );
    assert!(conforms(&schema, &batches));
    let numbers = [1, 5, 9, 13, 17, 21];
    let texts = ["DEBUG", "INFO", "WARN", "ERROR"];
    let mut ids = HashSet::new();
    let mut own_events = HashSet::new();
    for b in 0..3 {
        let time = times(&column(&batches, b, 0));
        let observed = times(&column(&batches, b, 1));
        let number = ints(&column(&batches, b, 2));
        let text = strings(&column(&batches, b, 3));
        let trace = binaries(&column(&batches, b, 4));
        let span = binaries(&column(&batches, b, 5));
        let event = strings(&column(&batches, b, 7));
        let mut shared = 0;
        for r in 0..200 {
            assert_eq!(
                time[r],
                1_700_000_000_000_000_000 + (b as i64 * 200 + r as i64) * 1_000_000
            );
            assert_eq!(observed[r], time[r] + 500_000);
            let severity = numbers.iter().position(|&n| n == number[r]).unwrap();
            assert_eq!(text[r], texts[severity % 4]);
            let trace = trace[r].clone().unwrap();
            assert_eq!(trace[..4], (b as u32).to_le_bytes());
            assert_eq!(trace[4..8], (r as u32).to_le_bytes());
            assert_eq!(span[r].clone().unwrap()[..], trace[..8]);
            assert!(ids.insert(trace));
            if let Some(rest) = event[r].strip_prefix(&format!("custom.event.batch{b}.")) {
                assert_eq!(rest.len(), 6);
                own_events.insert(event[r].clone());
            } else {
                shared += 1;
            }
        }
        assert!((150..200).contains(&shared));
        assert!(strings(&column(&batches, b, 6))
            .iter()
            .all(|u| u == "https://opentelemetry.io/schemas/1.21.0"));
        assert!(words(&column(&batches, b, 8)).iter().all(|&w| w == 0));
        assert!(words(&column(&batches, b, 9)).iter().all(|&w| w == 0));
    }
    assert_eq!(own_events.len(), 3);
}

#[test]
fn metric_rows_are_as_described() {
    assert!(can_build_metrics(2, 300, 50));
    let (schema, batches) = build_otap_metrics_batches(2, 300, 50).unwrap();
    assert_eq!(
        names(&schema),
        [
            "id",
            "metric_type",
            "name",
            "description",
            "unit",
            "scope_schema_url",
            "aggregation_temporality",
            "is_monotonic",
        ]
    );
    assert!(!schema.field(2).is_nullable());
    assert!(schema.field(7).is_nullable());
    assert!(conforms(&schema, &batches));
    let units = [
        "ms", "s", "bytes", "kB", "MB", "1", "%", "requests", "errors", "connections", "threads",
        "Hz", "celsius", "ops", "packets",
    ];
    let all_names = metric_names(50);
    assert_eq!(all_names[0], "http.server.metric_0");
    assert_eq!(all_names[7], "system.memory.metric_7");
    assert_eq!(all_names[49], "db.client.metric_49");
    assert_eq!(metric_descriptions(2)[1], "Description for system.cpu.metric_1");
    for b in 0..2 {
        let id = column(&batches, b, 0);
        let id = id.as_any().downcast_ref::<PrimitiveArray<UInt16Type>>().unwrap();
        let kind = column(&batches, b, 1);
        let kind = kind.as_any().downcast_ref::<PrimitiveArray<UInt8Type>>().unwrap();
        let name = strings(&column(&batches, b, 2));
        let description = strings(&column(&batches, b, 3));
        let unit = strings(&column(&batches, b, 4));
        let url = strings(&column(&batches, b, 5));
        let temporality = ints(&column(&batches, b, 6));
        let monotonic = column(&batches, b, 7);
        let monotonic = monotonic.as_any().downcast_ref::<BooleanArray>().unwrap();
        for r in 0..300 {
            let metric = all_names.iter().position(|n| *n == name[r]).unwrap();
            assert_eq!(id.value(r), r as u16);
            assert_eq!(kind.value(r) as usize, [1, 2, 3][metric % 3]);
            assert_eq!(description[r], format!("Description for {}", name[r]));
            assert_eq!(unit[r], units[metric % 15]);
            assert_eq!(url[r], "https://opentelemetry.io/schemas/1.21.0");
            assert_eq!(temporality[r], [1, 2][metric % 2]);
            assert_eq!(monotonic.value(r), metric % 3 == 0);
        }
        assert!(name.iter().collect::<HashSet<_>>().len() > 40);
    }
}

#[test]
fn trace_rows_are_as_described() {
    assert!(can_build_traces(2, 300, 40));
    let (schema, batches) = build_otap_traces_batches(2, 300, 40).unwrap();
    assert_eq!(
        names(&schema),
        [
            "start_time_unix_nano",
            "trace_id",
            "span_id",
            "parent_span_id",
            "name",
            "kind",
            "schema_url",
            "trace_state",
            "duration_time_unix_nano",
            "dropped_attributes_count",
        ]
    );
    assert_eq!(schema.field(1).data_type(), &DataType::FixedSizeBinary(16));
    assert_eq!(
        schema.field(8).data_type(),
        &DataType::Dictionary(
            Box::new(DataType::UInt16),
            Box::new(DataType::Duration(TimeUnit::Nanosecond))
        )
    );
    assert!(conforms(&schema, &batches));
    let all_names = span_names(40);
    assert_eq!(all_names[0], "GET /api/users/0");
    assert_eq!(all_names[5], "POST .OrderService/CreateOrder/0");
    assert_eq!(all_names[15], "internal cache.get/1");
    assert_eq!(all_names[22], "grpc db.query/2");
    assert_eq!(all_names.iter().collect::<HashSet<_>>().len(), 40);
    let shared_states = [
        "sampled=true", "sampled=false", "rate=0.1", "rate=0.5", "rate=1.0", "priority=high",
        "priority=low", "debug=true",
    ];
    for b in 0..2 {
        let time = times(&column(&batches, b, 0));
        let trace = binaries(&column(&batches, b, 1));
        let span = binaries(&column(&batches, b, 2));
        let parent = binaries(&column(&batches, b, 3));
        let name = strings(&column(&batches, b, 4));
        let kind = ints(&column(&batches, b, 5));
        let state = strings(&column(&batches, b, 7));
        let duration = plain(&column(&batches, b, 8));
        let duration =
            duration.as_any().downcast_ref::<PrimitiveArray<DurationNanosecondType>>().unwrap();
        let mut parents = 0;
        for r in 0..300 {
            assert_eq!(
                time[r],
                1_700_000_000_000_000_000 + (b as i64 * 300 + r as i64) * 1_000_000
            );
            let id = trace[r].clone().unwrap();
            assert_eq!((id.len(), &id[..4]), (16, &(b as u32).to_le_bytes()[..]));
            assert_eq!(span[r].clone().unwrap()[..], id[..8]);
            assert_eq!(id[4..8], (r as u32).to_le_bytes());
            if let Some(parent) = &parent[r] {
                assert_eq!(parent.len(), 8);
                parents += 1;
            }
            assert!(all_names.contains(&name[r]));
            assert!((0..5).contains(&kind[r]));
            let own = format!("batch={b},row={}", r % 5);
            assert!(state[r] == own || shared_states.contains(&state[r].as_str()));
            assert!((100_000..500_000_000).contains(&duration.value(r)));
        }
        assert!((200..280).contains(&parents));
        assert!(words(&column(&batches, b, 9)).iter().all(|&w| w == 0));
    }
}

#[test]
fn impossible_payloads_are_told() {
    assert!(can_build_logs(10, 65536));
    assert!(!can_build_logs(10, 65537));
    assert!(!can_build_logs(usize::MAX, 2));
    assert!(!can_build_logs(7_600_000_000, 1_000));
    assert!(can_build_metrics(10, 500, 256));
    assert!(!can_build_metrics(10, 500, 257));
    assert!(can_build_metrics(10, 256, 1000));
    assert!(!can_build_metrics(1, 1, 0));
    assert!(can_build_traces(10, 500, 200));
    assert!(!can_build_traces(10, 500, 257));
    assert!(!can_build_traces(1, 65537, 10));
    assert!(!can_build_traces(1, 1, 0));
}

#[test]
fn batches_are_the_same_each_time() {
    let (_, first) = build_otap_logs_batches(2, 50).unwrap();
    let (_, second) = build_otap_logs_batches(2, 50).unwrap();
    assert_same_batches(&first, &second);
    let (_, first) = build_otap_metrics_batches(2, 50, 30).unwrap();
    let (_, second) = build_otap_metrics_batches(2, 50, 30).unwrap();
    assert_same_batches(&first, &second);
    let (_, first) = build_otap_traces_batches(2, 50, 30).unwrap();
    let (_, second) = build_otap_traces_batches(2, 50, 30).unwrap();
    assert_same_batches(&first, &second);
}

#[test]
fn cases_are_the_same_each_time() {
    for value_type in [ValueType::Utf8, ValueType::FixedSizeBinary16, ValueType::Int32] {
        for key_type in [KeyType::UInt8, KeyType::UInt16] {
            let tc = case(value_type, key_type);
            let (first_schema, first) = build_test_batches(&tc).unwrap();
            let (second_schema, second) = build_test_batches(&tc).unwrap();
            assert_eq!(first_schema, second_schema);
            assert_same_batches(&first, &second);
        }
    }
}

#[test]
fn same_draws_make_the_same_column() {
    let tc = case(ValueType::Utf8, KeyType::UInt16);
    let pool = generate_value_pool(ValueType::Utf8, 22, &mut StdRng::seed_from_u64(5));
    let draws: Vec<usize> = (0..50).map(|r| r * 7 % 10).collect();
    let first = case_column(&tc, &pool, 1, &draws);
    let second = case_column(&tc, &pool, 1, &draws);
    assert_eq!(&first.array, &second.array);
    let other: Vec<usize> = (0..50).map(|r| r * 3 % 10).collect();
    assert_ne!(&first.array, &case_column(&tc, &pool, 1, &other).array);
}

#[test]
fn fractions_follow_the_first_digits() {
    for (bound, fraction) in [(NINE_TENTHS, 0.9), (EIGHT_TENTHS, 0.8)] {
        for k in [0, 1, bound - 1, bound, bound + 1, (1 << 53) - 1] {
            let drawn = k as f64 / (1u64 << 53) as f64;
            assert_eq!(falls_below(k << 11, bound), drawn < fraction);
            assert_eq!(falls_below((k << 11) + 2047, bound), drawn < fraction);
        }
    }
}

#[test]
fn numbers_are_written_out() {
    for n in [0, 7, 10, 99, 100, 1_000_000_007, u64::MAX] {
        let mut text = "n=".to_string();
        push_decimal(&mut text, n);
        assert_eq!(text, format!("n={n}"));
    }
    for n in [0u64, 1, 256, 0x0102_0304, 0x1_0000_0005] {
        assert_eq!(to_le_bytes(n), (n as u32).to_le_bytes());
    }
}

#[test]
fn letters_and_digits_are_drawn() {
    let mut rng = StdRng::seed_from_u64(3);
    let mut text = "head".to_string();
    push_alphanumeric(&mut text, &mut rng, 200);
    assert_eq!(text.len(), 204);
    assert!(text.starts_with("head"));
    assert!(text.chars().all(|c| c.is_ascii_alphanumeric()));
    assert!(text.chars().collect::<HashSet<_>>().len() > 30);
}

#[test]
fn log_batch_follows_the_draws() {
    let draw = |severity, word, event| LogsDraw { severity, tail: vec![7; 8], word, event };
    let draws = vec![
        draw(0, 0, 8),
        draw(5, (NINE_TENTHS << 11) - 1, 2),
        draw(3, NINE_TENTHS << 11, 2),
        draw(4, u64::MAX, 0),
    ];
    let schema = logs_schema();
    let batch = logs_batch(&schema, 258, "abcDE1", &draws).unwrap();
    let batches = [batch];
    assert_eq!(
        times(&column(&batches, 0, 0)),
        [0, 1, 2, 3].map(|r| 1_700_000_000_000_000_000 + (258 * 4 + r) * 1_000_000)
    );
    assert_eq!(ints(&column(&batches, 0, 2)), [1, 21, 13, 17]);
    assert_eq!(strings(&column(&batches, 0, 3)), ["DEBUG", "INFO", "ERROR", "DEBUG"]);
    assert_eq!(
        binaries(&column(&batches, 0, 4))[2],
        Some(vec![2, 1, 0, 0, 2, 0, 0, 0, 7, 7, 7, 7, 7, 7, 7, 7])
    );
    assert_eq!(binaries(&column(&batches, 0, 5))[3], Some(vec![2, 1, 0, 0, 3, 0, 0, 0]));
    let own = "custom.event.batch258.abcDE1";
    assert_eq!(strings(&column(&batches, 0, 7)), ["queue.enqueue", "db.query", own, own]);
}

#[test]
fn metric_batch_follows_the_draws() {
    let schema = metrics_schema();
    let batch =
        metrics_batch(&schema, &metric_names(20), &metric_descriptions(20), &vec![16, 3, 16]);
    let batches = [batch.unwrap()];
    let name = strings(&column(&batches, 0, 2));
    assert_eq!(name, ["system.cpu.metric_16", "runtime.gc.metric_3", "system.cpu.metric_16"]);
    assert_eq!(strings(&column(&batches, 0, 4)), ["s", "kB", "s"]);
    assert_eq!(ints(&column(&batches, 0, 6)), [1, 2, 1]);
    let kind = column(&batches, 0, 1);
    let kind = kind.as_any().downcast_ref::<PrimitiveArray<UInt8Type>>().unwrap();
    assert_eq!(kind.values().to_vec(), [2, 1, 2]);
    let monotonic = column(&batches, 0, 7);
    let monotonic = monotonic.as_any().downcast_ref::<BooleanArray>().unwrap();
    assert_eq!(monotonic.iter().collect::<Vec<_>>(), [Some(false), Some(true), Some(false)]);
}

#[test]
fn trace_batch_follows_the_draws() {
    let draw = |parent_word, parent, state_word, state| TracesDraw {
        tail: vec![9; 8],
        parent_word,
        parent,
        name: 2,
        kind: 4,
        state_word,
        state,
        duration: 123_456,
    };
    let draws = vec![
        draw(0, vec![1, 2, 3, 4, 5, 6, 7, 8], 0, 7),
        draw(EIGHT_TENTHS << 11, Vec::new(), NINE_TENTHS << 11, 0),
        draw((EIGHT_TENTHS << 11) - 1, vec![0; 8], (NINE_TENTHS << 11) - 1, 3),
    ];
    let schema = traces_schema();
    let batches = [traces_batch(&schema, 12, &span_names(3), &draws).unwrap()];
    assert_eq!(
        binaries(&column(&batches, 0, 1))[1],
        Some(vec![12, 0, 0, 0, 1, 0, 0, 0, 9, 9, 9, 9, 9, 9, 9, 9])
    );
    assert_eq!(
        binaries(&column(&batches, 0, 3)),
        [Some(vec![1, 2, 3, 4, 5, 6, 7, 8]), None, Some(vec![0; 8])]
    );
    assert_eq!(strings(&column(&batches, 0, 4)), ["grpc /api/products/0"; 3]);
    assert_eq!(ints(&column(&batches, 0, 5)), [4, 4, 4]);
    assert_eq!(strings(&column(&batches, 0, 7)), ["debug=true", "batch=12,row=1", "rate=0.5"]);
    let duration = plain(&column(&batches, 0, 8));
    let duration =
        duration.as_any().downcast_ref::<PrimitiveArray<DurationNanosecondType>>().unwrap();
    assert_eq!(duration.values().to_vec(), [123_456; 3]);
}

#[test]
fn case_column_follows_the_draws() {
    let tc = TestCase { rows_per_batch: 4, ..case(ValueType::Int32, KeyType::UInt16) };
    let pool: Vec<Vec<u8>> = (0..22).map(int_value).collect();
    for (b, expected) in [(0, [0, 3, 4, 9]), (1, [0, 3, 10, 15]), (2, [0, 3, 16, 21])] {
        let ArrowArray { array } = case_column(&tc, &pool, b, &vec![0, 3, 4, 9]);
        assert_eq!(ints(&array), expected);
    }
}

#[test]
fn pool_values_hold_their_place() {
    assert_eq!(text_value(42, "xyz12"), "val_42_xyz12");
    assert_eq!(int_value(258), [2, 1, 0, 0]);
    assert_eq!(
        binary_value(258, (100..116).collect()),
        [2, 1, 0, 0, 104, 105, 106, 107, 108, 109, 110, 111, 112, 113, 114, 115]
    );
}

#[test]
fn batches_overlap_as_far_as_values_are_shared() {
    let pool_of = |shared_count: usize| {
        let tc = TestCase { shared_count, ..case(ValueType::Utf8, KeyType::UInt16) };
        let (_, batches) = build_test_batches(&TestCase { rows_per_batch: 500, ..tc }).unwrap();
        let sets: Vec<HashSet<String>> =
            (0..3).map(|b| strings(&column(&batches, b, 0)).into_iter().collect()).collect();
        (sets[0].intersection(&sets[1]).count(), sets[0].len())
    };
    assert_eq!(pool_of(0), (0, 10));
    assert_eq!(pool_of(4), (4, 10));
    assert_eq!(pool_of(10), (10, 10));
}

#[test]
fn each_span_has_a_duration_of_its_own() {
    let (_, batches) = build_otap_traces_batches(20, 6000, 50).unwrap();
    let mut seen: HashSet<i64> = HashSet::new();
    for b in 0..20 {
        let durations = plain(&column(&batches, b, 8));
        let durations = durations
            .as_any()
            .downcast_ref::<PrimitiveArray<DurationNanosecondType>>()
            .unwrap();
        for d in durations.values() {
            assert!((100_000..500_000_000).contains(d));
            assert!(seen.insert(*d));
        }
    }
    assert_eq!(seen.len(), 120_000);
}

#[test]
fn batches_have_few_values() {
    for value_type in [ValueType::Utf8, ValueType::FixedSizeBinary16, ValueType::Int32] {
        let tc = TestCase {
            shared_count: 3,
            rows_per_batch: 400,
            ..case(value_type, KeyType::UInt16)
        };
        let (_, batches) = build_test_batches(&tc).unwrap();
        let sets: Vec<HashSet<String>> = (0..tc.num_batches)
            .map(|b| {
                let array = plain(&column(&batches, b, 0));
                (0..array.len()).map(|i| format!("{:?}", array.slice(i, 1))).collect()
            })
            .collect();
        for (b, set) in sets.iter().enumerate() {
            assert!(set.len() <= tc.per_batch_cardinality);
            for other in &sets[b + 1..] {
                assert!(set.intersection(other).count() <= tc.shared_count);
            }
        }
        let all: HashSet<&String> = sets.iter().flatten().collect();
        let most = total_possible(tc.num_batches, tc.per_batch_cardinality, tc.shared_count);
        assert!(Some(all.len()) <= most);
    }
}
