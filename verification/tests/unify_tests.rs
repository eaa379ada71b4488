use std::collections::HashMap;
use std::io::Cursor;
use std::sync::Arc;

use arrow_array::types::{
    DurationNanosecondType, Int16Type, Int32Type, Int64Type, Int8Type, TimestampNanosecondType,
    UInt16Type, UInt32Type, UInt64Type, UInt8Type,
};
use arrow_array::{
    Array, ArrayRef, BinaryArray, BooleanArray, Date32Array, Date64Array, Decimal128Array, DictionaryArray,
    DurationSecondArray, FixedSizeBinaryArray, FixedSizeListArray, Float32Array, Float64Array,
    Int32Array, IntervalYearMonthArray, LargeBinaryArray, LargeStringArray, ListArray, NullArray,
    PrimitiveArray, RecordBatch, StringArray, StringViewArray, StructArray, Time32SecondArray,
    Time64MicrosecondArray, TimestampSecondArray, UInt32Array,
};
use arrow_buffer::OffsetBuffer;
use arrow_ipc::reader::FileReader;
use arrow_schema::{DataType, Field, IntervalUnit, Schema, TimeUnit};

use otap_tools::arrow::{ArrowArray, Batch};
use otap_tools::columns::{
    build_dict_array, dict_values, extract_offset_keys, remap_dict_keys,
    remap_dict_keys_with_mapping,
};
use otap_tools::dedup::SeenKeys;
use otap_tools::encoding::{can_encode, MESSAGE_LIMIT};
use otap_tools::index_type::{
    exceeds_max_dict_key, key_type_capacity, widen_key_type, MAX_DICT_KEY_TYPE,
};
use otap_tools::ipc::{count_rows, ipc_file, ipc_file_size, verify_ipc, IpcError};
use otap_tools::model::IndexType;
use otap_tools::nested::bulk_of;
use otap_tools::unify::{
    conforms, unify_concat, unify_dedup, unify_selective, unify_selective_with_threshold,
    unify_threshold, UnifyError, UnifyResult, SELECTIVE_DEDUP_PER_BATCH_THRESHOLD,
};
use otap_tools::value_key::{same_bytes, same_key, value_key, ValueKey};

fn dictionary8(keys: Vec<Option<u8>>, values: ArrayRef) -> ArrayRef {
    Arc::new(DictionaryArray::new(PrimitiveArray::<UInt8Type>::from(keys), values))
}

fn dictionary16(keys: Vec<Option<u16>>, values: ArrayRef) -> ArrayRef {
    Arc::new(DictionaryArray::new(PrimitiveArray::<UInt16Type>::from(keys), values))
}

fn texts(values: &[&str]) -> ArrayRef {
    Arc::new(StringArray::from(values.to_vec()))
}

fn schema_of(columns: &[ArrayRef]) -> Arc<Schema> {
    let fields: Vec<Field> = columns
        .iter()
        .enumerate()
        .map(|(i, c)| Field::new(format!("c{i}"), c.data_type().clone(), true))
        .collect();
    Arc::new(Schema::new(fields))
}

fn batches_of(schema: &Arc<Schema>, batches: Vec<Vec<ArrayRef>>) -> Vec<Batch> {
    batches
        .into_iter()
        .map(|columns| Batch { batch: RecordBatch::try_new(schema.clone(), columns).unwrap() })
        .collect()
}

fn key8(result: &UnifyResult, b: usize, c: usize) -> Vec<Option<u8>> {
    let column = result.batches[b].batch.column(c);
    let dict = column.as_any().downcast_ref::<DictionaryArray<UInt8Type>>().unwrap();
    dict.keys().iter().collect()
}

fn key16(result: &UnifyResult, b: usize, c: usize) -> Vec<Option<u16>> {
    let column = result.batches[b].batch.column(c);
    let dict = column.as_any().downcast_ref::<DictionaryArray<UInt16Type>>().unwrap();
    dict.keys().iter().collect()
}

fn plain(array: &ArrayRef) -> ArrayRef {
    match array.data_type() {
        DataType::Dictionary(_, value) => arrow_cast::cast(array, value).unwrap(),
        _ => array.clone(),
    }
}

fn strings(array: &ArrayRef) -> Vec<Option<String>> {
    plain(array)
        .as_any()
        .downcast_ref::<StringArray>()
        .unwrap()
        .iter()
        .map(|s| s.map(str::to_string))
        .collect()
}

fn dictionary_texts(result: &UnifyResult, b: usize, c: usize) -> Vec<String> {
    let column = result.batches[b].batch.column(c);
    let values = match column.data_type() {
        DataType::Dictionary(k, _) if **k == DataType::UInt8 => column
            .as_any()
            .downcast_ref::<DictionaryArray<UInt8Type>>()
            .unwrap()
            .values()
            .clone(),
        _ => column
            .as_any()
            .downcast_ref::<DictionaryArray<UInt16Type>>()
            .unwrap()
            .values()
            .clone(),
    };
    strings(&values).into_iter().map(|s| s.unwrap()).collect()
}

fn all_results(schema: &Arc<Schema>, batches: &[Batch]) -> Vec<UnifyResult> {
    assert!(conforms(schema, batches));
    vec![
        unify_concat(schema, batches).unwrap(),
        unify_dedup(schema, batches).unwrap(),
        unify_threshold(schema, batches).unwrap(),
        unify_selective(schema, batches).unwrap(),
    ]
}

fn assert_same_values(batches: &[Batch], result: &UnifyResult) {
    assert_eq!(batches.len(), result.batches.len());
    for (before, after) in batches.iter().zip(&result.batches) {
        assert_eq!(before.batch.num_rows(), after.batch.num_rows());
        for c in 0..after.batch.num_columns() {
            assert_eq!(&plain(before.batch.column(c)), &plain(after.batch.column(c)));
        }
        assert_eq!(after.batch.schema(), result.schema);
    }
}

fn two_text_batches() -> (Arc<Schema>, Vec<Batch>) {
    let first = dictionary8(vec![Some(0), Some(1), None, Some(0)], texts(&["a", "b"]));
    let second = dictionary8(vec![Some(1), Some(0)], texts(&["b", "c"]));
    let schema = schema_of(&[first.clone()]);
    let batches = batches_of(&schema, vec![vec![first], vec![second]]);
    (schema, batches)
}

#[test]
fn concat_moves_keys_by_offsets() {
    let (schema, batches) = two_text_batches();
    let result = unify_concat(&schema, &batches).unwrap();
    assert_eq!(dictionary_texts(&result, 0, 0), ["a", "b", "b", "c"]);
    assert_eq!(dictionary_texts(&result, 1, 0), ["a", "b", "b", "c"]);
    assert_eq!(key8(&result, 0, 0), [Some(0), Some(1), None, Some(0)]);
    assert_eq!(key8(&result, 1, 0), [Some(3), Some(2)]);
    assert_eq!(result.unified_dict_len, 4);
    assert!(!result.key_widened);
    assert!(!result.native_fallback);
    assert_same_values(&batches, &result);
}

#[test]
fn dedup_takes_each_value_once() {
    let (schema, batches) = two_text_batches();
    let result = unify_dedup(&schema, &batches).unwrap();
    assert_eq!(dictionary_texts(&result, 0, 0), ["a", "b", "c"]);
    assert_eq!(dictionary_texts(&result, 1, 0), ["a", "b", "c"]);
    assert_eq!(key8(&result, 0, 0), [Some(0), Some(1), None, Some(0)]);
    assert_eq!(key8(&result, 1, 0), [Some(2), Some(1)]);
    assert_eq!(result.unified_dict_len, 3);
    assert_same_values(&batches, &result);
}

#[test]
fn threshold_keeps_what_fits() {
    let (schema, batches) = two_text_batches();
    let result = unify_threshold(&schema, &batches).unwrap();
    assert_eq!(dictionary_texts(&result, 0, 0), ["a", "b", "b", "c"]);
    assert_eq!(result.unified_dict_len, 4);
}

#[test]
fn selective_goes_by_the_average() {
    let (schema, batches) = two_text_batches();
    assert_eq!(SELECTIVE_DEDUP_PER_BATCH_THRESHOLD, 256);
    assert_eq!(unify_selective(&schema, &batches).unwrap().unified_dict_len, 3);
    for (threshold, len) in [(0, 4), (1, 4), (2, 3), (usize::MAX, 3)] {
        let result = unify_selective_with_threshold(&schema, &batches, threshold).unwrap();
        assert_eq!(result.unified_dict_len, len);
        assert_same_values(&batches, &result);
    }
}

#[test]
fn average_is_rounded_down() {
    let first = dictionary8(vec![Some(0)], texts(&["a", "b"]));
    let second = dictionary8(vec![Some(0)], texts(&["a"]));
    let schema = schema_of(&[first.clone()]);
    let batches = batches_of(&schema, vec![vec![first], vec![second]]);
    let len = |t| unify_selective_with_threshold(&schema, &batches, t).unwrap().unified_dict_len;
    assert_eq!(len(0), 3);
    assert_eq!(len(1), 2);
}

fn numbered(from: usize, count: usize) -> (Vec<String>, ArrayRef) {
    let values: Vec<String> = (from..from + count).map(|i| format!("v{i}")).collect();
    let array = Arc::new(StringArray::from(values.clone()));
    (values, array)
}

#[test]
fn keys_are_widened_beyond_their_capacity() {
    for (count, widened) in [(128, false), (129, true)] {
        let first = dictionary8(vec![Some(0), Some(127)], numbered(0, 128).1);
        let second = dictionary8(vec![Some(127), None], numbered(1000, count).1);
        let schema = schema_of(&[first.clone()]);
        let batches = batches_of(&schema, vec![vec![first], vec![second]]);
        let result = unify_concat(&schema, &batches).unwrap();
        assert_eq!(result.unified_dict_len, 128 + count);
        assert_eq!(result.key_widened, widened);
        assert!(!result.native_fallback);
        if widened {
            assert_eq!(key16(&result, 1, 0), [Some(255), None]);
        } else {
            assert_eq!(key8(&result, 1, 0), [Some(255), None]);
        }
        assert_same_values(&batches, &result);
        let by_threshold = unify_threshold(&schema, &batches).unwrap();
        assert_eq!(by_threshold.key_widened, widened);
    }
}

#[test]
fn dedup_avoids_widening_on_overlap() {
    let make = || dictionary8(vec![Some(7), Some(199)], numbered(0, 200).1);
    let schema = schema_of(&[make()]);
    let batches = batches_of(&schema, vec![vec![make()], vec![make()]]);
    let concat = unify_concat(&schema, &batches).unwrap();
    let dedup = unify_dedup(&schema, &batches).unwrap();
    let threshold = unify_threshold(&schema, &batches).unwrap();
    assert!(concat.key_widened);
    assert!(!dedup.key_widened);
    assert!(!threshold.key_widened);
    assert_eq!((concat.unified_dict_len, dedup.unified_dict_len), (400, 200));
    assert_eq!(threshold.unified_dict_len, 200);
    for result in [&concat, &dedup, &threshold] {
        assert_same_values(&batches, result);
    }
}

#[test]
fn dictionary_is_lost_beyond_sixteen_bits() {
    for (count, lost) in [(32768usize, false), (32769, true)] {
        let values: ArrayRef = Arc::new(Int32Array::from_iter_values(0..32768));
        let more: ArrayRef = Arc::new(Int32Array::from_iter_values(
            100_000..100_000 + count as i32,
        ));
        let first = dictionary16(vec![Some(0), None, Some(32767)], values);
        let second = dictionary16(vec![Some(1)], more);
        let schema = schema_of(&[first.clone()]);
        let batches = batches_of(&schema, vec![vec![first], vec![second]]);
        for result in all_results(&schema, &batches) {
            assert_eq!(result.native_fallback, lost);
            assert!(!result.key_widened);
            assert_eq!(result.unified_dict_len, 32768 + count);
            let expected = if lost {
                DataType::Int32
            } else {
                DataType::Dictionary(Box::new(DataType::UInt16), Box::new(DataType::Int32))
            };
            assert_eq!(result.schema.field(0).data_type(), &expected);
            assert_same_values(&batches, &result);
        }
    }
}

#[test]
fn many_types_of_values_are_unified() {
    let fsb = |rows: &[&[u8]]| -> ArrayRef {
        Arc::new(FixedSizeBinaryArray::try_from_iter(rows.iter()).unwrap())
    };
    let column_pairs: Vec<(ArrayRef, ArrayRef, usize)> = vec![
        (texts(&["x", "y"]), texts(&["y", "z"]), 3),
        (fsb(&[b"ab", b"cd"]), fsb(&[b"cd", b"ef"]), 3),
        (
            Arc::new(Int32Array::from(vec![-1, 5])),
            Arc::new(Int32Array::from(vec![5, -1])),
            2,
        ),
        (
            Arc::new(PrimitiveArray::<Int64Type>::from(vec![i64::MIN, 5])),
            Arc::new(PrimitiveArray::<Int64Type>::from(vec![i64::MIN, i64::MAX])),
            3,
        ),
        (
            Arc::new(PrimitiveArray::<DurationNanosecondType>::from(vec![1, 2])),
            Arc::new(PrimitiveArray::<DurationNanosecondType>::from(vec![2, 3])),
            3,
        ),
        (
            Arc::new(UInt32Array::from(vec![1, 2])),
            Arc::new(UInt32Array::from(vec![2, 3])),
            3,
        ),
        (
            Arc::new(LargeStringArray::from(vec!["p", "q"])),
            Arc::new(LargeStringArray::from(vec!["p", "q"])),
            2,
        ),
        (
            Arc::new(BooleanArray::from(vec![true, false])),
            Arc::new(BooleanArray::from(vec![false, true])),
            2,
        ),
    ];
    for (first, second, distinct) in column_pairs {
        let a = dictionary8(vec![Some(1), None, Some(0)], first);
        let b = dictionary8(vec![Some(0), Some(1)], second);
        let schema = schema_of(&[a.clone()]);
        let batches = batches_of(&schema, vec![vec![a], vec![b]]);
        let results = all_results(&schema, &batches);
        let lens: Vec<usize> = results.iter().map(|r| r.unified_dict_len).collect();
        assert_eq!(lens, [4, distinct, 4, distinct]);
        for result in &results {
            assert_same_values(&batches, result);
            assert_eq!(verify_ipc(&result.schema, &result.batches).unwrap(), 5);
        }
    }
}

#[test]
fn null_values_of_dictionaries_are_one_value() {
    let values = || -> ArrayRef { Arc::new(StringArray::from(vec![None, Some("null"), None])) };
    let a = dictionary8(vec![Some(0), Some(1), Some(2)], values());
    let b = dictionary8(vec![Some(2), Some(1)], values());
    let schema = schema_of(&[a.clone()]);
    let batches = batches_of(&schema, vec![vec![a], vec![b]]);
    let result = unify_dedup(&schema, &batches).unwrap();
    assert_eq!(result.unified_dict_len, 2);
    assert_eq!(key8(&result, 0, 0), [Some(0), Some(1), Some(0)]);
    assert_eq!(key8(&result, 1, 0), [Some(0), Some(1)]);
}

#[test]
fn plain_columns_names_and_metadata_stay() {
    let ints: ArrayRef = Arc::new(Int32Array::from(vec![Some(1), None]));
    let dict = dictionary8(vec![Some(0), Some(1)], numbered(0, 200).1);
    let metadata = HashMap::from([("k".to_string(), "v".to_string())]);
    let schema = Arc::new(
        Schema::new(vec![
            Field::new("ints", DataType::Int32, true),
            Field::new("dict", dict.data_type().clone(), false).with_metadata(metadata.clone()),
        ])
        .with_metadata(HashMap::from([("whole".to_string(), "schema".to_string())])),
    );
    let batches =
        batches_of(&schema, vec![vec![ints.clone(), dict.clone()], vec![ints.clone(), dict]]);
    let result = unify_concat(&schema, &batches).unwrap();
    assert!(result.key_widened);
    assert_eq!(result.schema.field(0), schema.field(0));
    let field = result.schema.field(1);
    assert_eq!((field.name().as_str(), field.is_nullable()), ("dict", false));
    assert_eq!(field.metadata(), &metadata);
    assert_eq!(
        field.data_type(),
        &DataType::Dictionary(Box::new(DataType::UInt16), Box::new(DataType::Utf8))
    );
    assert_eq!(result.schema.metadata(), schema.metadata());
    assert_eq!(result.batches[1].batch.column(0), &ints);
    assert_same_values(&batches, &result);
}

#[test]
fn no_batches_make_empty_dictionaries() {
    let ty = |k| DataType::Dictionary(Box::new(k), Box::new(DataType::Utf8));
    let schema = Arc::new(Schema::new(vec![
        Field::new("narrow", ty(DataType::UInt8), true),
        Field::new("wide", ty(DataType::Int32), true),
    ]));
    let fallbacks: Vec<bool> =
        all_results(&schema, &[]).iter().map(|r| r.native_fallback).collect();
    assert_eq!(fallbacks, [true, true, false, true]);
    for result in all_results(&schema, &[]) {
        assert_eq!((result.batches.len(), result.unified_dict_len), (0, 0));
        assert_eq!(result.schema.field(0), schema.field(0));
    }
    let concat = unify_concat(&schema, &[]).unwrap();
    assert_eq!(concat.schema.field(1).data_type(), &DataType::Utf8);
    let threshold = unify_threshold(&schema, &[]).unwrap();
    assert_eq!(threshold.schema.field(1), schema.field(1));
}

#[test]
fn empty_dictionaries_are_unified() {
    let make = || dictionary8(vec![None, None], texts(&[]));
    let schema = schema_of(&[make()]);
    let batches = batches_of(&schema, vec![vec![make()], vec![make()]]);
    for result in all_results(&schema, &batches) {
        assert_eq!(result.unified_dict_len, 0);
        assert_same_values(&batches, &result);
    }
}

#[test]
fn columns_beyond_the_schema_are_dropped() {
    let dict = dictionary8(vec![Some(0)], texts(&["a"]));
    let wide = schema_of(&[dict.clone(), dict.clone()]);
    let batches = batches_of(&wide, vec![vec![dict.clone(), dict.clone()]]);
    let schema = schema_of(&[dict]);
    assert!(conforms(&schema, &batches));
    let result = unify_dedup(&schema, &batches).unwrap();
    assert_eq!(result.batches[0].batch.num_columns(), 1);
}

#[test]
fn nulls_clash_with_a_schema_that_rules_them_out() {
    let dict = dictionary8(vec![None], texts(&["a"]));
    let nullable = schema_of(&[dict.clone()]);
    let batches = batches_of(&nullable, vec![vec![dict.clone()]]);
    let strict = Arc::new(Schema::new(vec![Field::new("c0", dict.data_type().clone(), false)]));
    assert!(conforms(&strict, &batches));
    let error = unify_concat(&strict, &batches).err().unwrap();
    assert!(matches!(error, UnifyError::Batch(_)));
    assert_eq!(error.message(), "batch build failed");
    assert!(matches!(unify_dedup(&strict, &batches), Err(UnifyError::Batch(_))));
}

#[test]
fn errors_have_their_words() {
    let cause = || arrow_schema::ArrowError::NotYetImplemented("x".to_string());
    assert_eq!(UnifyError::Concat(cause()).message(), "concat failed");
    assert_eq!(UnifyError::DedupConcat(cause()).message(), "dedup concat failed");
    assert_eq!(UnifyError::Cast(cause()).message(), "cast failed");
    assert_eq!(IpcError::Writer(cause()).message(), "writer");
    assert_eq!(IpcError::WriteBatch(cause()).message(), "write batch");
    assert_eq!(IpcError::Finish(cause()).message(), "finish");
    assert_eq!(IpcError::Read(cause()).message(), "valid IPC");
}

#[test]
fn batches_without_columns_cannot_be_built() {
    let dict = dictionary8(vec![Some(0)], texts(&["a"]));
    let batches = batches_of(&schema_of(&[dict.clone()]), vec![vec![dict]]);
    let empty = Arc::new(Schema::empty());
    assert!(conforms(&empty, &batches));
    assert!(matches!(unify_concat(&empty, &batches), Err(UnifyError::Batch(_))));
}

#[test]
fn nonconforming_batches_are_told() {
    let dict = dictionary8(vec![Some(0)], texts(&["a"]));
    let schema = schema_of(&[dict.clone()]);
    let batches = batches_of(&schema, vec![vec![dict.clone()]]);
    assert!(conforms(&schema, &batches));
    assert!(!conforms(&schema_of(&[dict.clone(), dict.clone()]), &batches));
    let other = dictionary16(vec![Some(0)], texts(&["a"]));
    assert!(!conforms(&schema_of(&[other.clone()]), &batches));
    let signed: ArrayRef = Arc::new(DictionaryArray::new(
        Int32Array::from(vec![0]),
        texts(&["a"]),
    ));
    let signed_schema = schema_of(&[signed.clone()]);
    assert!(conforms(&signed_schema, &[]));
    assert!(!conforms(&signed_schema, &batches_of(&signed_schema, vec![vec![signed]])));
}

#[test]
fn one_file_has_one_dictionary_per_column() {
    let (schema, batches) = two_text_batches();
    assert!(matches!(ipc_file_size(&schema, &batches), Err(IpcError::WriteBatch(_))));
    assert!(matches!(verify_ipc(&schema, &batches), Err(IpcError::WriteBatch(_))));
    assert_eq!(verify_ipc(&schema, &batches[..1]).unwrap(), 4);
    for result in all_results(&schema, &batches) {
        assert_eq!(verify_ipc(&result.schema, &result.batches).unwrap(), 6);
        let bytes = ipc_file(&result.schema, &result.batches).unwrap();
        assert_eq!(ipc_file_size(&result.schema, &result.batches).unwrap(), bytes.len());
        assert_eq!(&bytes[..6], b"ARROW1");
        assert_eq!(count_rows(&result.batches), 6);
    }
    assert_eq!(verify_ipc(&schema, &[]).unwrap(), 0);
}

#[test]
fn dictionaries_of_dictionaries_cannot_be_written() {
    let inner = DataType::Dictionary(Box::new(DataType::UInt8), Box::new(DataType::Utf8));
    let outer = DataType::Dictionary(Box::new(DataType::UInt8), Box::new(inner));
    let schema = Arc::new(Schema::new(vec![Field::new("c", outer, true)]));
    assert!(matches!(ipc_file(&schema, &[]), Err(IpcError::Writer(_))));
}

#[test]
fn key_types_have_capacities() {
    let expected = [
        (IndexType::Int8, 128, false),
        (IndexType::Int16, 32768, false),
        (IndexType::Int32, 1 << 31, true),
        (IndexType::Int64, 1 << 63, true),
        (IndexType::UInt8, 256, false),
        (IndexType::UInt16, 65536, false),
        (IndexType::UInt32, 1 << 32, true),
        (IndexType::UInt64, u64::MAX, true),
        (IndexType::Other, 0, false),
    ];
    for (ty, capacity, exceeds) in expected {
        assert_eq!(key_type_capacity(ty), capacity);
        assert_eq!(exceeds_max_dict_key(ty), exceeds);
    }
    assert_eq!(MAX_DICT_KEY_TYPE, IndexType::UInt16);
}

#[test]
fn key_types_are_widened_stepwise() {
    assert_eq!(widen_key_type(IndexType::UInt8, 0), IndexType::UInt8);
    assert_eq!(widen_key_type(IndexType::UInt8, 256), IndexType::UInt8);
    assert_eq!(widen_key_type(IndexType::UInt8, 257), IndexType::UInt16);
    assert_eq!(widen_key_type(IndexType::UInt16, 65536), IndexType::UInt16);
    assert_eq!(widen_key_type(IndexType::UInt16, 65537), IndexType::UInt32);
    assert_eq!(widen_key_type(IndexType::UInt8, 65537), IndexType::UInt32);
    assert_eq!(widen_key_type(IndexType::UInt32, (1 << 32) + 1), IndexType::UInt64);
    assert_eq!(widen_key_type(IndexType::Int8, 129), IndexType::Int16);
    assert_eq!(widen_key_type(IndexType::Int16, 32769), IndexType::Int32);
    assert_eq!(widen_key_type(IndexType::Int32, (1 << 31) + 1), IndexType::Int64);
    assert_eq!(widen_key_type(IndexType::Int64, usize::MAX), IndexType::UInt64);
    assert_eq!(widen_key_type(IndexType::Other, 1), IndexType::UInt16);
}

#[test]
fn keys_are_read_moved_and_cut() {
    let col = ArrowArray {
        array: dictionary8(vec![Some(1), None, Some(0)], texts(&["a", "b"])),
    };
    assert_eq!(
        extract_offset_keys(&col, IndexType::UInt8, 300),
        [Some(301), None, Some(300)]
    );
    let wide = ArrowArray { array: dictionary16(vec![Some(2), None], texts(&["a", "b", "c"])) };
    assert_eq!(extract_offset_keys(&wide, IndexType::UInt16, 1), [Some(3), None]);
    assert_eq!(strings(&dict_values(&wide, IndexType::UInt16).array).len(), 3);

    let values = ArrowArray { array: texts(&["x", "y", "z"]) };
    let built = build_dict_array(&vec![Some(257), None, Some(2)], IndexType::UInt8, &values);
    assert_eq!(
        strings(&built.array),
        [Some("y".to_string()), None, Some("z".to_string())]
    );
    let built = build_dict_array(&vec![Some(65537), Some(2)], IndexType::UInt16, &values);
    assert_eq!(strings(&built.array), [Some("y".to_string()), Some("z".to_string())]);

    let moved = remap_dict_keys(&col, IndexType::UInt8, IndexType::UInt16, &values, 1);
    assert_eq!(
        strings(&moved.array),
        [Some("z".to_string()), None, Some("y".to_string())]
    );
    let mapped = remap_dict_keys_with_mapping(
        &col,
        IndexType::UInt8,
        IndexType::UInt8,
        &values,
        &vec![2, 0],
    );
    assert_eq!(
        strings(&mapped.array),
        [Some("x".to_string()), None, Some("z".to_string())]
    );
}

#[test]
fn values_have_keys() {
    let array = |a: ArrayRef| ArrowArray { array: a };
    let text = array(Arc::new(StringArray::from(vec![Some("ab"), None])));
    assert!(matches!(value_key(&text, 0), ValueKey::Bytes(b) if b == b"ab"));
    assert!(matches!(value_key(&text, 1), ValueKey::Null));
    let ints = array(Arc::new(Int32Array::from(vec![0, -1, 5])));
    assert!(matches!(value_key(&ints, 0), ValueKey::Inline(w) if w == 1 << 32));
    assert!(matches!(value_key(&ints, 1), ValueKey::Inline(w) if w == (1 << 32) + 0xffff_ffff));
    assert!(matches!(value_key(&ints, 2), ValueKey::Inline(w) if w == (1 << 32) + 5));
    let longs = array(Arc::new(PrimitiveArray::<Int64Type>::from(vec![-2, 7])));
    assert!(matches!(value_key(&longs, 0), ValueKey::Inline(w) if w == u64::MAX - 1));
    assert!(matches!(value_key(&longs, 1), ValueKey::Inline(7)));
    let durations = array(Arc::new(PrimitiveArray::<DurationNanosecondType>::from(vec![9])));
    assert_eq!(
        durations.array.data_type(),
        &DataType::Duration(TimeUnit::Nanosecond)
    );
    assert!(matches!(value_key(&durations, 0), ValueKey::Inline(9)));
    let binary = array(Arc::new(
        FixedSizeBinaryArray::try_from_iter([[1u8, 2].as_slice()].into_iter()).unwrap(),
    ));
    assert!(matches!(value_key(&binary, 0), ValueKey::Bytes(b) if b == [1, 2]));
    let other = array(Arc::new(PrimitiveArray::<UInt32Type>::from(vec![3, 4])));
    let debug = format!("{:?}", other.array.slice(1, 1)).into_bytes();
    assert!(matches!(value_key(&other, 1), ValueKey::Bytes(b) if b == debug));
    assert!(!same_key(&value_key(&other, 0), &value_key(&other, 1)));
    assert!(same_key(&value_key(&ints, 2), &value_key(&ints, 2)));
    assert!(!same_key(&value_key(&text, 1), &value_key(&text, 0)));
    assert!(same_bytes(&vec![1, 2], &vec![1, 2]));
    assert!(!same_bytes(&vec![1, 2], &vec![1]));
}

#[test]
fn seen_keys_keep_their_places() {
    let mut seen = SeenKeys::new();
    assert_eq!(seen.len(), 0);
    assert_eq!(seen.place(ValueKey::Inline(5)), 0);
    assert_eq!(seen.place(ValueKey::Null), 1);
    assert_eq!(seen.place(ValueKey::Bytes(vec![5])), 2);
    assert_eq!(seen.place(ValueKey::Inline(0)), 3);
    assert_eq!(seen.place(ValueKey::Null), 1);
    assert_eq!(seen.place(ValueKey::Inline(5)), 0);
    assert_eq!(seen.place(ValueKey::Bytes(vec![5])), 2);
    for i in 0..1000u64 {
        let place = seen.place(ValueKey::Bytes(i.to_le_bytes().to_vec()));
        assert_eq!(place as u64, 4 + i);
    }
    assert_eq!(seen.len(), 1004);
}

#[test]
fn values_of_other_types_are_unified() {
    let pairs: Vec<(ArrayRef, ArrayRef)> = vec![
        (
            Arc::new(Float64Array::from(vec![1.5, -2.0])),
            Arc::new(Float64Array::from(vec![-2.0, 3.25])),
        ),
        (
            Arc::new(Decimal128Array::from(vec![10, 20])),
            Arc::new(Decimal128Array::from(vec![20, 30])),
        ),
        (Arc::new(Date32Array::from(vec![1, 2])), Arc::new(Date32Array::from(vec![2, 3]))),
        (
            Arc::new(Time64MicrosecondArray::from(vec![1, 2])),
            Arc::new(Time64MicrosecondArray::from(vec![2, 3])),
        ),
        (
            Arc::new(TimestampSecondArray::from(vec![1, 2])),
            Arc::new(TimestampSecondArray::from(vec![2, 3])),
        ),
        (
            Arc::new(TimestampSecondArray::from(vec![1, i64::MAX]).with_timezone("+01:00")),
            Arc::new(TimestampSecondArray::from(vec![i64::MAX, 3]).with_timezone("+01:00")),
        ),
        (
            Arc::new(StringViewArray::from(vec!["a", "a text that is not kept inline"])),
            Arc::new(StringViewArray::from(vec!["a text that is not kept inline", "b"])),
        ),
    ];
    for (one, two) in pairs {
        let first = dictionary8(vec![Some(0), Some(1), None], one);
        let second = dictionary8(vec![Some(1), Some(0)], two);
        let schema = schema_of(&[first.clone()]);
        let batches = batches_of(&schema, vec![vec![first], vec![second]]);
        for (result, len) in all_results(&schema, &batches).iter().zip([4, 3, 4, 3]) {
            assert_eq!(result.unified_dict_len, len);
            assert_same_values(&batches, result);
        }
    }
}

#[test]
fn other_types_lose_their_dictionaries_too() {
    let part = |b: i32| -> ArrayRef {
        let values: Vec<f64> = (0..300).map(|i| f64::from(b * 300 + i)).collect();
        let keys = (0..300).rev().map(Some).collect();
        dictionary16(keys, Arc::new(Float64Array::from(values)))
    };
    let schema = schema_of(&[part(0)]);
    let batches = batches_of(&schema, (0..219).map(|b| vec![part(b)]).collect());
    let result = unify_concat(&schema, &batches).unwrap();
    assert!(result.native_fallback);
    assert_eq!(result.schema.field(0).data_type(), &DataType::Float64);
    assert_same_values(&batches, &result);
}

#[test]
fn dates_of_one_day_share_a_key() {
    let values: ArrayRef = Arc::new(Date64Array::from(vec![0, 1]));
    let array = ArrowArray { array: values };
    assert!(same_key(&value_key(&array, 0), &value_key(&array, 1)));
}

#[test]
fn unchanged_schemas_stay_whole() {
    let dict = dictionary8(vec![Some(0), Some(1)], texts(&["a", "b"]));
    let schema = Arc::new(
        Schema::new(vec![Field::new("dict", dict.data_type().clone(), false)])
            .with_metadata(HashMap::from([("whole".to_string(), "schema".to_string())])),
    );
    let batches = batches_of(&schema, vec![vec![dict.clone()], vec![dict]]);
    for result in all_results(&schema, &batches) {
        assert!(!result.key_widened && !result.native_fallback);
        assert_eq!(result.schema, schema);
    }
}

#[test]
fn null_values_are_counted_once() {
    let values = |words: Vec<Option<&str>>| -> ArrayRef { Arc::new(StringArray::from(words)) };
    let first = dictionary8(vec![Some(0), Some(1), Some(2)], values(vec![None, Some("a"), None]));
    let second = dictionary8(vec![Some(1), Some(0)], values(vec![Some("a"), None]));
    let schema = schema_of(&[first.clone()]);
    let batches = batches_of(&schema, vec![vec![first], vec![second]]);
    for (result, len) in all_results(&schema, &batches).iter().zip([5, 2, 5, 2]) {
        assert_eq!(result.unified_dict_len, len);
        assert_same_values(&batches, result);
    }
}

#[test]
fn null_values_behind_keys_are_no_clash() {
    let values: ArrayRef = Arc::new(StringArray::from(vec![None, Some("a")]));
    let array = dictionary8(vec![Some(0), Some(1)], values);
    let schema =
        Arc::new(Schema::new(vec![Field::new("c", array.data_type().clone(), false)]));
    let batches = batches_of(&schema, vec![vec![array.clone()], vec![array]]);
    for result in all_results(&schema, &batches) {
        assert_same_values(&batches, &result);
    }
}

#[test]
fn null_values_without_dictionaries_clash() {
    let part = |b: usize| -> ArrayRef {
        let values: Vec<Option<String>> =
            (0..300).map(|i| (i != 7).then_some(format!("{b}-{i}"))).collect();
        dictionary16((0..300).map(Some).collect(), Arc::new(StringArray::from(values)))
    };
    let field = |nullable| Field::new("c", part(0).data_type().clone(), nullable);
    let columns = |schema: &Arc<Schema>| {
        batches_of(schema, (0..220).map(|b| vec![part(b)]).collect())
    };
    let strict = Arc::new(Schema::new(vec![field(false)]));
    assert!(matches!(
        unify_concat(&strict, &columns(&strict)),
        Err(UnifyError::Batch(_))
    ));
    let loose = Arc::new(Schema::new(vec![field(true)]));
    let batches = columns(&loose);
    let result = unify_concat(&loose, &batches).unwrap();
    assert!(result.native_fallback);
    assert_same_values(&batches, &result);
}

fn number_lists(lists: Vec<Option<Vec<i32>>>) -> ArrayRef {
    Arc::new(ListArray::from_iter_primitive::<Int32Type, _, _>(
        lists.into_iter().map(|l| l.map(|l| l.into_iter().map(Some).collect::<Vec<_>>())),
    ))
}

fn text_lists(lists: &[&[&str]]) -> ArrayRef {
    let words: Vec<&str> = lists.iter().flat_map(|l| l.iter().copied()).collect();
    Arc::new(ListArray::new(
        Arc::new(Field::new("item", DataType::Utf8, true)),
        OffsetBuffer::from_lengths(lists.iter().map(|l| l.len())),
        texts(&words),
        None,
    ))
}

fn structs(numbers: Vec<i32>, words: &[&str]) -> ArrayRef {
    Arc::new(StructArray::from(vec![
        (
            Arc::new(Field::new("n", DataType::Int32, false)),
            Arc::new(Int32Array::from(numbers)) as ArrayRef,
        ),
        (Arc::new(Field::new("w", DataType::Utf8, false)), texts(words)),
    ]))
}

#[test]
fn values_that_hold_values_are_unified() {
    let sized = |numbers: Vec<i32>| -> ArrayRef {
        let field = Arc::new(Field::new("item", DataType::Int32, true));
        Arc::new(FixedSizeListArray::new(field, 2, Arc::new(Int32Array::from(numbers)), None))
    };
    let pairs: Vec<(ArrayRef, ArrayRef)> = vec![
        (
            number_lists(vec![Some(vec![1, 2]), Some(vec![])]),
            number_lists(vec![Some(vec![]), Some(vec![3])]),
        ),
        (text_lists(&[&["a", "bc"], &["d"]]), text_lists(&[&["d"], &["a"]])),
        (structs(vec![1, 2], &["a", "b"]), structs(vec![2, 3], &["b", "b"])),
        (sized(vec![1, 2, 3, 4]), sized(vec![3, 4, 5, 6])),
    ];
    for (one, two) in pairs {
        let first = dictionary8(vec![Some(0), Some(1), None], one);
        let second = dictionary8(vec![Some(1), Some(0)], two);
        let schema = schema_of(&[first.clone()]);
        let batches = batches_of(&schema, vec![vec![first], vec![second]]);
        for (result, len) in all_results(&schema, &batches).iter().zip([4, 3, 4, 3]) {
            assert_eq!(result.unified_dict_len, len);
            assert_same_values(&batches, result);
        }
    }
}

#[test]
fn nulls_alone_are_unified() {
    let part = || dictionary8(vec![Some(0), None, Some(1)], Arc::new(NullArray::new(2)));
    let schema = schema_of(&[part()]);
    let batches = batches_of(&schema, vec![vec![part()], vec![part()]]);
    for (result, len) in all_results(&schema, &batches).iter().zip([4, 1, 4, 1]) {
        assert_eq!(result.unified_dict_len, len);
        assert_same_values(&batches, result);
    }
    let long = || {
        let keys: Vec<Option<u16>> = vec![Some(0), None, Some(65_535)];
        dictionary16(keys, Arc::new(NullArray::new(65_536)))
    };
    let schema = schema_of(&[long()]);
    let batches = batches_of(&schema, vec![vec![long()], vec![long()]]);
    let result = unify_concat(&schema, &batches).unwrap();
    assert_eq!(result.schema.field(0).data_type(), &DataType::Null);
    assert_same_values(&batches, &result);
}

#[test]
fn lists_lose_their_dictionaries_too() {
    let part = |b: i32| {
        let lists = (0..300).map(|i| Some(vec![b, i])).collect();
        let keys = (0..300).rev().map(Some).chain([None]).collect();
        dictionary16(keys, number_lists(lists))
    };
    let schema = schema_of(&[part(0)]);
    let batches = batches_of(&schema, (0..220).map(|b| vec![part(b)]).collect());
    let result = unify_concat(&schema, &batches).unwrap();
    assert!(result.native_fallback);
    assert_same_values(&batches, &result);
}

#[test]
fn long_lists_can_share_a_key() {
    let list = |middle: i32| {
        let mut numbers = vec![0; 30];
        numbers[15] = middle;
        Some(numbers)
    };
    let array = ArrowArray { array: number_lists(vec![list(1), list(2)]) };
    assert!(same_key(&value_key(&array, 0), &value_key(&array, 1)));
}

#[test]
fn bulk_counts_what_arrays_hold() {
    let bulk = |array: ArrayRef| bulk_of(&ArrowArray { array });
    assert_eq!(bulk(Arc::new(Int32Array::from(vec![1, 2, 3]))), Some(0));
    assert_eq!(bulk(texts(&["abc", "d"])), Some(4));
    assert_eq!(bulk(number_lists(vec![Some(vec![1, 2]), None, Some(vec![3])])), Some(3));
    assert_eq!(bulk(text_lists(&[&["a", "bc"], &["d"]])), Some(3 + 4));
    assert_eq!(bulk(structs(vec![1, 2], &["a", "b"])), Some(2 + 2 + 2));
}

#[test]
fn dictionaries_of_any_values_are_built_and_read() {
    let inner = dictionary8(vec![Some(1), Some(0)], texts(&["x", "y"]));
    for values in [inner, number_lists(vec![Some(vec![1]), None]), structs(vec![1, 2], &["a", "b"])]
    {
        let values = ArrowArray { array: values };
        let built = build_dict_array(&vec![Some(1), None, Some(0)], IndexType::UInt16, &values);
        assert_eq!(&dict_values(&built, IndexType::UInt16).array, &values.array);
        assert_eq!(
            extract_offset_keys(&built, IndexType::UInt16, 5),
            vec![Some(6), None, Some(5)]
        );
    }
}

#[test]
fn types_that_cannot_be_handled_do_not_conform() {
    let item = |ty| Arc::new(Field::new("item", ty, true));
    let inner = DataType::Dictionary(Box::new(DataType::UInt8), Box::new(DataType::Utf8));
    for value in [
        DataType::FixedSizeBinary(-1),
        DataType::Time32(TimeUnit::Nanosecond),
        DataType::List(item(DataType::FixedSizeBinary(-1))),
        DataType::FixedSizeList(item(DataType::Int32), -1),
        DataType::List(item(inner.clone())),
        DataType::List(item(DataType::Null)),
        DataType::Time32(TimeUnit::Microsecond),
        DataType::Time64(TimeUnit::Second),
        DataType::Time64(TimeUnit::Millisecond),
        DataType::ListView(item(DataType::Int32)),
        DataType::LargeListView(item(DataType::Int32)),
        DataType::Map(item(DataType::Int32), false),
        DataType::RunEndEncoded(item(DataType::Int32), item(DataType::Utf8)),
        DataType::Struct(vec![item(DataType::Time64(TimeUnit::Second))].into()),
        inner,
    ] {
        let field = DataType::Dictionary(Box::new(DataType::UInt8), Box::new(value));
        let schema = Arc::new(Schema::new(vec![Field::new("c", field, true)]));
        assert!(!conforms(&schema, &[]));
    }
    for value in [
        DataType::List(item(DataType::Utf8)),
        DataType::LargeList(item(DataType::Binary)),
        DataType::FixedSizeList(item(DataType::Float32), 2),
        DataType::Struct(vec![item(DataType::Time32(TimeUnit::Second))].into()),
        DataType::Time64(TimeUnit::Nanosecond),
        DataType::Utf8View,
        DataType::Null,
    ] {
        let field = DataType::Dictionary(Box::new(DataType::UInt8), Box::new(value));
        assert!(conforms(&Arc::new(Schema::new(vec![Field::new("c", field, true)])), &[]));
    }
}

#[test]
fn schemas_are_weighed_before_they_are_written() {
    let one = |ty| Arc::new(Schema::new(vec![Field::new("c", ty, true)]));
    let plain = one(DataType::Int32);
    assert!(can_encode(&plain, 1000));
    assert!(can_encode(&plain, (MESSAGE_LIMIT - 260) / 32));
    assert!(!can_encode(&plain, (MESSAGE_LIMIT - 260) / 32 + 1));
    assert!(can_encode(&one(DataType::Float64), 1));
    assert!(!can_encode(&one(DataType::Utf8View), 1));
    assert!(!can_encode(&one(DataType::BinaryView), 1));
    let views = DataType::Dictionary(Box::new(DataType::UInt8), Box::new(DataType::Utf8View));
    assert!(!can_encode(&one(views), 1));
    assert!(can_encode(&one(DataType::Timestamp(TimeUnit::Second, Some("Utf8View".into()))), 1));
    assert!(can_encode(&one(DataType::Interval(IntervalUnit::DayTime)), 1));
    assert!(!can_encode(&one(DataType::Time32(TimeUnit::Nanosecond)), 1));
    assert!(!can_encode(&one(DataType::Null), 1));
    assert!(!can_encode(&one(DataType::List(Arc::new(Field::new("i", DataType::Int32, true)))), 1));
    let metadata = HashMap::from([("k".to_string(), "vv".to_string())]);
    let noted = Arc::new(
        Schema::new(vec![Field::new("c", DataType::Int32, true).with_metadata(metadata.clone())])
            .with_metadata(metadata),
    );
    let weight = 260 + 2 * (64 + 4 + 8);
    assert!(can_encode(&noted, (MESSAGE_LIMIT - weight) / 32));
    assert!(!can_encode(&noted, (MESSAGE_LIMIT - weight) / 32 + 1));
}

#[test]
fn readers_have_limits() {
    let fields: Vec<Field> =
        (0..600_000).map(|_| Field::new("", DataType::Int32, true)).collect();
    let schema = Arc::new(Schema::new(fields));
    assert!(can_encode(&schema, 0));
    assert!(ipc_file(&schema, &[]).is_ok());
    assert!(matches!(verify_ipc(&schema, &[]), Err(IpcError::Read(_))));
}

#[test]
fn files_of_listed_types_are_read_back() {
    let columns: Vec<ArrayRef> = vec![
        Arc::new(StringArray::from(vec![Some("a"), None, Some("bcd"), Some("")])),
        Arc::new(LargeStringArray::from(vec![Some("a"), None, Some("bcd"), Some("")])),
        Arc::new(BinaryArray::from_opt_vec(vec![Some(&b"a"[..]), None, Some(b"bc"), None])),
        Arc::new(LargeBinaryArray::from_opt_vec(vec![None, None, Some(&b"bc"[..]), None])),
        Arc::new(
            FixedSizeBinaryArray::try_from_sparse_iter_with_size(
                vec![Some(vec![1, 2]), None, Some(vec![3, 4]), None].into_iter(),
                2,
            )
            .unwrap(),
        ),
        Arc::new(PrimitiveArray::<Int8Type>::from(vec![Some(1), None, Some(-3), Some(4)])),
        Arc::new(PrimitiveArray::<Int16Type>::from(vec![Some(1), None, Some(-3), Some(4)])),
        Arc::new(Int32Array::from(vec![Some(1), None, Some(-3), Some(4)])),
        Arc::new(PrimitiveArray::<Int64Type>::from(vec![Some(1), None, Some(-3), Some(4)])),
        Arc::new(PrimitiveArray::<UInt8Type>::from(vec![Some(1), None, Some(3), Some(4)])),
        Arc::new(PrimitiveArray::<UInt16Type>::from(vec![Some(1), None, Some(3), Some(4)])),
        Arc::new(UInt32Array::from(vec![Some(1), None, Some(3), Some(4)])),
        Arc::new(PrimitiveArray::<UInt64Type>::from(vec![Some(1), None, Some(3), Some(4)])),
        Arc::new(BooleanArray::from(vec![Some(true), None, Some(false), None])),
        Arc::new(PrimitiveArray::<TimestampNanosecondType>::from(vec![Some(1), None, None, None])),
        Arc::new(PrimitiveArray::<DurationNanosecondType>::from(vec![Some(1), None, None, None])),
        dictionary8(vec![Some(0), None, Some(1), Some(0)], texts(&["a", "b"])),
        dictionary16(vec![None, None, None, None], texts(&[])),
    ];
    let schema = schema_of(&columns);
    let whole = batches_of(&schema, vec![columns.clone(), columns.clone()]);
    assert_eq!(verify_ipc(&schema, &whole).unwrap(), 8);
    let parts = vec![
        columns.iter().map(|c| c.slice(1, 2)).collect(),
        columns.iter().map(|c| c.slice(0, 0)).collect(),
        columns.iter().map(|c| c.slice(3, 1)).collect(),
    ];
    assert_eq!(verify_ipc(&schema, &batches_of(&schema, parts)).unwrap(), 3);
    assert_eq!(verify_ipc(&schema, &[]).unwrap(), 0);
}

/// The schema and the batches of a file.
fn contents(bytes: Vec<u8>) -> (Arc<Schema>, Vec<RecordBatch>) {
    let reader = FileReader::try_new(Cursor::new(bytes), None).unwrap();
    (reader.schema(), reader.map(|batch| batch.unwrap()).collect())
}

#[test]
fn files_of_other_single_types_are_read_back() {
    let reals: ArrayRef = Arc::new(Float64Array::from(vec![Some(1.5), None, Some(f64::NAN), Some(-0.0)]));
    let columns: Vec<ArrayRef> = vec![
        reals.clone(),
        Arc::new(Float32Array::from(vec![Some(1.5), None, Some(f32::NAN), Some(-0.0)])),
        Arc::new(
            Decimal128Array::from(vec![Some(1), None, Some(-3), Some(4)])
                .with_precision_and_scale(30, -2)
                .unwrap(),
        ),
        Arc::new(Date32Array::from(vec![Some(1), None, Some(-3), Some(4)])),
        Arc::new(Date64Array::from(vec![Some(1), None, Some(-3), Some(4)])),
        Arc::new(Time32SecondArray::from(vec![Some(1), None, Some(3), Some(4)])),
        Arc::new(Time64MicrosecondArray::from(vec![Some(1), None, Some(3), Some(4)])),
        Arc::new(TimestampSecondArray::from(vec![Some(1), None, Some(-3), Some(4)])),
        Arc::new(
            TimestampSecondArray::from(vec![Some(1), None, Some(-3), Some(4)]).with_timezone("+01:00"),
        ),
        Arc::new(DurationSecondArray::from(vec![Some(1), None, Some(-3), Some(4)])),
        Arc::new(IntervalYearMonthArray::from(vec![Some(1), None, Some(-3), Some(4)])),
        dictionary8(vec![Some(0), None, Some(3), Some(1)], reals),
        dictionary16(vec![None, Some(1), None, Some(0)], Arc::new(Date32Array::from(vec![5, 6]))),
    ];
    let metadata = HashMap::from([("a".to_string(), "b".to_string()), ("c".to_string(), String::new())]);
    let fields = schema_of(&columns).fields().clone();
    let schema = Arc::new(Schema::new(fields).with_metadata(metadata));
    let batches = batches_of(&schema, vec![columns.clone(), columns.clone()]);
    assert!(can_encode(&schema, 2));
    assert_eq!(verify_ipc(&schema, &batches).unwrap(), 8);
    let (back, read) = contents(ipc_file(&schema, &batches).unwrap());
    assert_eq!(back, schema);
    assert_eq!(read.len(), 2);
    for batch in &read {
        for (column, written) in batch.columns().iter().zip(&columns) {
            assert_eq!(column.to_data(), written.to_data());
        }
    }
    let parts = vec![
        columns.iter().map(|c| c.slice(1, 2)).collect(),
        columns.iter().map(|c| c.slice(0, 0)).collect(),
    ];
    assert_eq!(verify_ipc(&schema, &batches_of(&schema, parts)).unwrap(), 2);
}

#[test]
fn empty_time_zones_are_lost_in_files() {
    let times: ArrayRef = Arc::new(TimestampSecondArray::from(vec![1, 2]).with_timezone(""));
    let schema = schema_of(&[times.clone()]);
    let batches = batches_of(&schema, vec![vec![times]]);
    assert_eq!(schema.field(0).data_type().to_string(), "Timestamp(s, \"\")");
    assert_eq!(verify_ipc(&schema, &batches).unwrap(), 2);
    let (back, _) = contents(ipc_file(&schema, &batches).unwrap());
    assert_eq!(back.field(0).data_type(), &DataType::Timestamp(TimeUnit::Second, None));
}

#[test]
fn dictionaries_of_other_single_types_are_compared_by_their_bits() {
    let part = |value: f64| dictionary8(vec![Some(0)], Arc::new(Float64Array::from(vec![value])));
    let schema = schema_of(&[part(0.0)]);
    let same = batches_of(&schema, vec![vec![part(f64::NAN)], vec![part(f64::NAN)]]);
    assert_eq!(verify_ipc(&schema, &same).unwrap(), 2);
    let other = batches_of(&schema, vec![vec![part(0.0)], vec![part(-0.0)]]);
    assert!(matches!(verify_ipc(&schema, &other), Err(IpcError::WriteBatch(_))));
    assert!(matches!(ipc_file_size(&schema, &other), Err(IpcError::WriteBatch(_))));
}

#[test]
fn binary_values_without_bytes_are_read_back() {
    let values = |values: Vec<Option<Vec<u8>>>| -> ArrayRef {
        let array = FixedSizeBinaryArray::try_from_sparse_iter_with_size(values.into_iter(), 0);
        Arc::new(array.unwrap())
    };
    let columns = vec![
        values(vec![Some(vec![]), None]),
        values(vec![Some(vec![]), Some(vec![])]),
        dictionary8(vec![Some(0), None], values(vec![Some(vec![])])),
        dictionary16(vec![Some(1), Some(0)], values(vec![Some(vec![]), None])),
    ];
    let schema = schema_of(&columns);
    let batches = batches_of(&schema, vec![columns.clone(), columns.clone()]);
    assert_eq!(verify_ipc(&schema, &batches).unwrap(), 4);
    let (back, read) = contents(ipc_file(&schema, &batches).unwrap());
    assert_eq!(back, schema);
    assert_eq!(read[1].column(0).to_data(), columns[0].to_data());
}

#[test]
fn nulls_are_not_read_back_where_the_schema_forbids_them() {
    let array: ArrayRef = Arc::new(Int32Array::from(vec![Some(1), None]));
    let loose = schema_of(&[array.clone()]);
    let batches = batches_of(&loose, vec![vec![array]]);
    let strict = Arc::new(Schema::new(vec![Field::new("c0", DataType::Int32, false)]));
    assert!(ipc_file(&strict, &batches).is_ok());
    assert!(matches!(verify_ipc(&strict, &batches), Err(IpcError::Read(_))));
}
