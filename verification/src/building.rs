//! Building schemas and arrays value by value.

use std::sync::Arc;

use arrow_array::builder::{
    FixedSizeBinaryDictionaryBuilder, PrimitiveDictionaryBuilder, StringDictionaryBuilder,
};
use arrow_array::types::{
    DurationNanosecondType, Int32Type, TimestampNanosecondType, UInt16Type, UInt32Type, UInt8Type,
};
use arrow_array::{BooleanArray, FixedSizeBinaryArray, PrimitiveArray};
use arrow_schema::{DataType, Field, SchemaBuilder, TimeUnit};
use vstd::prelude::*;
use vstd::utf8::encode_utf8;

use crate::arrow::{builder_fields, builder_metadata, no_metadata, ArrowArray};
use crate::model::{ArrayModel, Cell, ColumnType, Element, ElementType, FieldModel, IndexType};

verus! {

// ---- schemas -------------------------------------------------------------------------------

/// `Field::new` and `SchemaBuilder::push`: a field without a dictionary.
#[verifier::external_body]
pub(crate) fn push_plain_field(
    builder: &mut SchemaBuilder,
    name: &str,
    element: ElementType,
    nullable: bool,
)
    ensures
        builder_fields(*final(builder)) == builder_fields(*old(builder)).push(
            FieldModel {
                name: name@,
                ty: ColumnType::Plain(Element::Known(element)),
                nullable,
                metadata: no_metadata(),
            },
        ),
        builder_metadata(*final(builder)) == builder_metadata(*old(builder)),
{
    let ty = match element {
        ElementType::Utf8 => DataType::Utf8, ElementType::LargeUtf8 => DataType::LargeUtf8,
        ElementType::Binary => DataType::Binary, ElementType::LargeBinary => DataType::LargeBinary,
        ElementType::FixedSizeBinary(n) => DataType::FixedSizeBinary(n),
        ElementType::Boolean => DataType::Boolean,
        ElementType::Int8 => DataType::Int8, ElementType::Int16 => DataType::Int16,
        ElementType::Int32 => DataType::Int32, ElementType::Int64 => DataType::Int64,
        ElementType::UInt8 => DataType::UInt8, ElementType::UInt16 => DataType::UInt16,
        ElementType::UInt32 => DataType::UInt32, ElementType::UInt64 => DataType::UInt64,
        ElementType::TimestampNanos => DataType::Timestamp(TimeUnit::Nanosecond, None),
        ElementType::DurationNanos => DataType::Duration(TimeUnit::Nanosecond),
    };
    builder.push(Field::new(name, ty, nullable))
}

/// `Field::new_dictionary` and `SchemaBuilder::push`: a dictionary field with 8-bit keys, or else
/// with 16-bit keys.
#[verifier::external_body]
pub(crate) fn push_dictionary_field(
    builder: &mut SchemaBuilder,
    name: &str,
    key: IndexType,
    element: ElementType,
    nullable: bool,
)
    requires
        key is UInt8 || key is UInt16,
        element is Utf8 || element is FixedSizeBinary || element is Int32
            || element is DurationNanos,
    ensures
        builder_fields(*final(builder)) == builder_fields(*old(builder)).push(
            FieldModel {
                name: name@,
                ty: ColumnType::Dictionary(key, Element::Known(element)),
                nullable,
                metadata: no_metadata(),
            },
        ),
        builder_metadata(*final(builder)) == builder_metadata(*old(builder)),
{
    let value = match element {
        ElementType::FixedSizeBinary(n) => DataType::FixedSizeBinary(n),
        ElementType::Int32 => DataType::Int32,
        ElementType::DurationNanos => DataType::Duration(TimeUnit::Nanosecond),
        _ => DataType::Utf8,
    };
    let key = match key {
        IndexType::UInt8 => DataType::UInt8,
        _ => DataType::UInt16,
    };
    builder.push(Field::new_dictionary(name, key, value, nullable))
}

// ---- arrays without dictionaries -----------------------------------------------------------

/// Whether an array has a type without a dictionary, and values.
pub open spec fn is_plain(array: ArrayModel, e: ElementType, cells: Seq<Cell>) -> bool {
    &&& array.ty == ColumnType::Plain(Element::Known(e))
    &&& array.cells == cells
    &&& array.well_formed()
}

/// `PrimitiveArray::from_iter_values` for timestamps in nanoseconds.
#[verifier::external_body]
pub(crate) fn timestamp_array(values: Vec<i64>) -> (r: ArrowArray)
    ensures
        is_plain(
            r@,
            ElementType::TimestampNanos,
            Seq::new(values@.len(), |i: int| Cell::Int(values[i] as int)),
        ),
{
    ArrowArray { array: Arc::new(PrimitiveArray::<TimestampNanosecondType>::from_iter_values(values)) }
}

/// `PrimitiveArray::from_iter_values` for 8-bit numbers.
#[verifier::external_body]
pub(crate) fn u8_array(values: Vec<u8>) -> (r: ArrowArray)
    ensures
        is_plain(
            r@,
            ElementType::UInt8,
            Seq::new(values@.len(), |i: int| Cell::Int(values[i] as int)),
        ),
{
    ArrowArray { array: Arc::new(PrimitiveArray::<UInt8Type>::from_iter_values(values)) }
}

/// `PrimitiveArray::from_iter_values` for 16-bit numbers.
#[verifier::external_body]
pub(crate) fn u16_array(values: Vec<u16>) -> (r: ArrowArray)
    ensures
        is_plain(
            r@,
            ElementType::UInt16,
            Seq::new(values@.len(), |i: int| Cell::Int(values[i] as int)),
        ),
{
    ArrowArray { array: Arc::new(PrimitiveArray::<UInt16Type>::from_iter_values(values)) }
}

/// `PrimitiveArray::from_iter_values` for 32-bit numbers.
#[verifier::external_body]
pub(crate) fn u32_array(values: Vec<u32>) -> (r: ArrowArray)
    ensures
        is_plain(
            r@,
            ElementType::UInt32,
            Seq::new(values@.len(), |i: int| Cell::Int(values[i] as int)),
        ),
{
    ArrowArray { array: Arc::new(PrimitiveArray::<UInt32Type>::from_iter_values(values)) }
}

/// The value that a truth value is.
pub open spec fn bool_cell(b: bool) -> Cell {
    if b {
        Cell::Int(1)
    } else {
        Cell::Int(0)
    }
}

/// `BooleanArray::from` a vector.
#[verifier::external_body]
pub(crate) fn bool_array(values: Vec<bool>) -> (r: ArrowArray)
    ensures
        is_plain(
            r@,
            ElementType::Boolean,
            Seq::new(values@.len(), |i: int| bool_cell(values[i])),
        ),
{
    ArrowArray { array: Arc::new(BooleanArray::from(values)) }
}

/// The value that optional bytes are.
pub open spec fn bytes_cell(bytes: Option<Vec<u8>>) -> Cell {
    match bytes {
        Some(b) => Cell::Bytes(b@),
        None => Cell::Null,
    }
}

/// `FixedSizeBinaryArray::try_from_sparse_iter_with_size`. It fails only where a value has another
/// size, or where all bytes together cannot be counted.
#[verifier::external_body]
pub(crate) fn binary_array(values: Vec<Option<Vec<u8>>>, width: i32) -> (r: ArrowArray)
    requires
        width >= 0,
        values.len() * width <= i32::MAX,
        forall|i: int|
            0 <= i < values.len() ==> (#[trigger] values[i] matches Some(b) ==> b.len() == width),
    ensures
        is_plain(
            r@,
            ElementType::FixedSizeBinary(width),
            Seq::new(values@.len(), |i: int| bytes_cell(values[i])),
        ),
{
    let array = FixedSizeBinaryArray::try_from_sparse_iter_with_size(values.into_iter(), width);
    ArrowArray { array: Arc::new(array.unwrap()) }
}

// ---- arrays with dictionaries --------------------------------------------------------------

/// The distinct values, in the order in which each occurs first.
pub open spec fn distinct(values: Seq<Cell>) -> Seq<Cell>
    decreases values.len(),
{
    if values.len() == 0 {
        seq![]
    } else if distinct(values.drop_last()).contains(values.last()) {
        distinct(values.drop_last())
    } else {
        distinct(values.drop_last()).push(values.last())
    }
}

/// Whether an array has a dictionary type and values, and its dictionary is made of the distinct
/// values in the order in which each occurs first.
pub open spec fn is_dictionary(
    array: ArrayModel,
    key: IndexType,
    e: ElementType,
    values: Seq<Cell>,
) -> bool {
    &&& array.ty == ColumnType::Dictionary(key, Element::Known(e))
    &&& array.cells == values
    &&& array.dictionary == distinct(values)
    &&& array.well_formed()
    &&& !array.marks_null()
}

/// The values that texts are.
pub open spec fn text_cells(values: Seq<String>) -> Seq<Cell> {
    Seq::new(values.len(), |i: int| Cell::Bytes(encode_utf8(values[i]@)))
}

/// The values that numbers are.
pub open spec fn int32_cells(values: Seq<i32>) -> Seq<Cell> {
    Seq::new(values.len(), |i: int| Cell::Int(values[i] as int))
}

/// The values that numbers are.
pub open spec fn int64_cells(values: Seq<i64>) -> Seq<Cell> {
    Seq::new(values.len(), |i: int| Cell::Int(values[i] as int))
}

/// The values that bytes are.
pub open spec fn binary_cells(values: Seq<Vec<u8>>) -> Seq<Cell> {
    Seq::new(values.len(), |i: int| Cell::Bytes(values[i]@))
}

/// Whether no text is longer than what lets any dictionary of texts be counted with 32-bit
/// offsets.
pub open spec fn moderate(values: Seq<String>) -> bool {
    forall|i: int| 0 <= i < values.len() ==> (#[trigger] values[i])@.len() <= 8191
}

/// `StringDictionaryBuilder::extend` and `finish`, with 8-bit keys. It panics where there are more
/// distinct values than keys.
#[verifier::external_body]
pub(crate) fn text_dictionary_u8(values: &Vec<String>) -> (r: ArrowArray)
    requires
        moderate(values@),
        distinct(text_cells(values@)).len() <= 256,
    ensures
        is_dictionary(r@, IndexType::UInt8, ElementType::Utf8, text_cells(values@)),
{
    let mut builder = StringDictionaryBuilder::<UInt8Type>::new();
    builder.extend(values.iter().map(Some));
    ArrowArray { array: Arc::new(builder.finish()) }
}

/// `StringDictionaryBuilder::extend` and `finish`, with 16-bit keys. It panics where there are
/// more distinct values than keys.
#[verifier::external_body]
pub(crate) fn text_dictionary_u16(values: &Vec<String>) -> (r: ArrowArray)
    requires
        moderate(values@),
        distinct(text_cells(values@)).len() <= 65536,
    ensures
        is_dictionary(r@, IndexType::UInt16, ElementType::Utf8, text_cells(values@)),
{
    let mut builder = StringDictionaryBuilder::<UInt16Type>::new();
    builder.extend(values.iter().map(Some));
    ArrowArray { array: Arc::new(builder.finish()) }
}

/// `PrimitiveDictionaryBuilder::extend` and `finish` for 32-bit integers, with 8-bit keys. It
/// panics where there are more distinct values than keys.
#[verifier::external_body]
pub(crate) fn int32_dictionary_u8(values: Vec<i32>) -> (r: ArrowArray)
    requires
        distinct(int32_cells(values@)).len() <= 256,
    ensures
        is_dictionary(r@, IndexType::UInt8, ElementType::Int32, int32_cells(values@)),
{
    let mut builder = PrimitiveDictionaryBuilder::<UInt8Type, Int32Type>::new();
    builder.extend(values.into_iter().map(Some));
    ArrowArray { array: Arc::new(builder.finish()) }
}

/// `PrimitiveDictionaryBuilder::extend` and `finish` for 32-bit integers, with 16-bit keys. It
/// panics where there are more distinct values than keys.
#[verifier::external_body]
pub(crate) fn int32_dictionary_u16(values: Vec<i32>) -> (r: ArrowArray)
    requires
        distinct(int32_cells(values@)).len() <= 65536,
    ensures
        is_dictionary(r@, IndexType::UInt16, ElementType::Int32, int32_cells(values@)),
{
    let mut builder = PrimitiveDictionaryBuilder::<UInt16Type, Int32Type>::new();
    builder.extend(values.into_iter().map(Some));
    ArrowArray { array: Arc::new(builder.finish()) }
}

/// `PrimitiveDictionaryBuilder::extend` and `finish` for durations in nanoseconds, with 16-bit
/// keys. It panics where there are more distinct values than keys.
#[verifier::external_body]
pub(crate) fn duration_dictionary_u16(values: Vec<i64>) -> (r: ArrowArray)
    requires
        distinct(int64_cells(values@)).len() <= 65536,
    ensures
        is_dictionary(r@, IndexType::UInt16, ElementType::DurationNanos, int64_cells(values@)),
{
    let mut builder = PrimitiveDictionaryBuilder::<UInt16Type, DurationNanosecondType>::new();
    builder.extend(values.into_iter().map(Some));
    ArrowArray { array: Arc::new(builder.finish()) }
}

/// A dictionary of binary values under construction, with 8-bit keys.
#[verifier::external_body]
pub struct BinaryBuilder8 {
    builder: FixedSizeBinaryDictionaryBuilder<UInt8Type>,
}

/// A dictionary of binary values under construction, with 16-bit keys.
#[verifier::external_body]
pub struct BinaryBuilder16 {
    builder: FixedSizeBinaryDictionaryBuilder<UInt16Type>,
}

/// The values that a builder has taken.
pub uninterp spec fn builder8_values(builder: BinaryBuilder8) -> Seq<Cell>;

/// The size of a builder's values.
pub uninterp spec fn builder8_width(builder: BinaryBuilder8) -> i32;

/// The values that a builder has taken.
pub uninterp spec fn builder16_values(builder: BinaryBuilder16) -> Seq<Cell>;

/// The size of a builder's values.
pub uninterp spec fn builder16_width(builder: BinaryBuilder16) -> i32;

/// `FixedSizeBinaryDictionaryBuilder::new` with 8-bit keys.
#[verifier::external_body]
fn new_builder8(width: i32) -> (r: BinaryBuilder8)
    requires
        width >= 0,
    ensures
        builder8_values(r) == Seq::<Cell>::empty(),
        builder8_width(r) == width,
{
    BinaryBuilder8 { builder: FixedSizeBinaryDictionaryBuilder::new(width) }
}

/// `FixedSizeBinaryDictionaryBuilder::append_value` with 8-bit keys. It panics where a value has
/// another size, and where there are more distinct values than keys.
#[verifier::external_body]
fn append_builder8(builder: &mut BinaryBuilder8, value: &Vec<u8>)
    requires
        value.len() == builder8_width(*old(builder)),
        distinct(builder8_values(*old(builder)).push(Cell::Bytes(value@))).len() <= 256,
    ensures
        builder8_values(*final(builder)) == builder8_values(*old(builder)).push(
            Cell::Bytes(value@),
        ),
        builder8_width(*final(builder)) == builder8_width(*old(builder)),
{
    builder.builder.append_value(value)
}

/// `FixedSizeBinaryDictionaryBuilder::finish` with 8-bit keys.
#[verifier::external_body]
fn finish_builder8(builder: BinaryBuilder8) -> (r: ArrowArray)
    ensures
        is_dictionary(
            r@,
            IndexType::UInt8,
            ElementType::FixedSizeBinary(builder8_width(builder)),
            builder8_values(builder),
        ),
{
    let mut builder = builder.builder;
    ArrowArray { array: Arc::new(builder.finish()) }
}

/// `FixedSizeBinaryDictionaryBuilder::new` with 16-bit keys.
#[verifier::external_body]
fn new_builder16(width: i32) -> (r: BinaryBuilder16)
    requires
        width >= 0,
    ensures
        builder16_values(r) == Seq::<Cell>::empty(),
        builder16_width(r) == width,
{
    BinaryBuilder16 { builder: FixedSizeBinaryDictionaryBuilder::new(width) }
}

/// `FixedSizeBinaryDictionaryBuilder::append_value` with 16-bit keys. It panics where a value has
/// another size, and where there are more distinct values than keys.
#[verifier::external_body]
fn append_builder16(builder: &mut BinaryBuilder16, value: &Vec<u8>)
    requires
        value.len() == builder16_width(*old(builder)),
        distinct(builder16_values(*old(builder)).push(Cell::Bytes(value@))).len() <= 65536,
    ensures
        builder16_values(*final(builder)) == builder16_values(*old(builder)).push(
            Cell::Bytes(value@),
        ),
        builder16_width(*final(builder)) == builder16_width(*old(builder)),
{
    builder.builder.append_value(value)
}

/// `FixedSizeBinaryDictionaryBuilder::finish` with 16-bit keys.
#[verifier::external_body]
fn finish_builder16(builder: BinaryBuilder16) -> (r: ArrowArray)
    ensures
        is_dictionary(
            r@,
            IndexType::UInt16,
            ElementType::FixedSizeBinary(builder16_width(builder)),
            builder16_values(builder),
        ),
{
    let mut builder = builder.builder;
    ArrowArray { array: Arc::new(builder.finish()) }
}

/// A dictionary array of binary values with 8-bit keys.
pub(crate) fn binary_dictionary_u8(values: &Vec<Vec<u8>>, width: i32) -> (r: ArrowArray)
    requires
        width >= 0,
        forall|i: int| 0 <= i < values.len() ==> (#[trigger] values[i]).len() == width,
        distinct(binary_cells(values@)).len() <= 256,
    ensures
        is_dictionary(
            r@,
            IndexType::UInt8,
            ElementType::FixedSizeBinary(width),
            binary_cells(values@),
        ),
{
    let ghost cells = binary_cells(values@);
    let mut builder = new_builder8(width);
    assert(cells.take(0) =~= Seq::<Cell>::empty());
    let mut i: usize = 0;
    while i < values.len()
        invariant
            i <= values.len(),
            cells == binary_cells(values@),
            forall|j: int| 0 <= j < values.len() ==> (#[trigger] values[j]).len() == width,
            distinct(cells).len() <= 256,
            builder8_width(builder) == width,
            builder8_values(builder) == cells.take(i as int),
        decreases values.len() - i,
    {
        proof {
            assert(cells.take(i + 1) =~= cells.take(i as int).push(cells[i as int]));
            lemma_distinct_grows(cells, i + 1);
        }
        append_builder8(&mut builder, &values[i]);
        i += 1;
    }
    assert(cells.take(i as int) =~= cells);
    finish_builder8(builder)
}

/// A dictionary array of binary values with 16-bit keys.
pub(crate) fn binary_dictionary_u16(values: &Vec<Vec<u8>>, width: i32) -> (r: ArrowArray)
    requires
        width >= 0,
        forall|i: int| 0 <= i < values.len() ==> (#[trigger] values[i]).len() == width,
        distinct(binary_cells(values@)).len() <= 65536,
    ensures
        is_dictionary(
            r@,
            IndexType::UInt16,
            ElementType::FixedSizeBinary(width),
            binary_cells(values@),
        ),
{
    let ghost cells = binary_cells(values@);
    let mut builder = new_builder16(width);
    assert(cells.take(0) =~= Seq::<Cell>::empty());
    let mut i: usize = 0;
    while i < values.len()
        invariant
            i <= values.len(),
            cells == binary_cells(values@),
            forall|j: int| 0 <= j < values.len() ==> (#[trigger] values[j]).len() == width,
            distinct(cells).len() <= 65536,
            builder16_width(builder) == width,
            builder16_values(builder) == cells.take(i as int),
        decreases values.len() - i,
    {
        proof {
            assert(cells.take(i + 1) =~= cells.take(i as int).push(cells[i as int]));
            lemma_distinct_grows(cells, i + 1);
        }
        append_builder16(&mut builder, &values[i]);
        i += 1;
    }
    assert(cells.take(i as int) =~= cells);
    finish_builder16(builder)
}

// ---- distinct values -----------------------------------------------------------------------

/// Fewer values have no more distinct ones.
pub proof fn lemma_distinct_grows(values: Seq<Cell>, n: int)
    requires
        0 <= n <= values.len(),
    ensures
        distinct(values.take(n)).len() <= distinct(values).len(),
    decreases values.len() - n,
{
    if n < values.len() {
        lemma_distinct_grows(values, n + 1);
        assert(values.take(n + 1).drop_last() =~= values.take(n));
    } else {
        assert(values.take(n) =~= values);
    }
}

/// The distinct values are values, none of them twice, and every value is among them.
pub proof fn lemma_distinct(values: Seq<Cell>)
    ensures
        distinct(values).len() <= values.len(),
        distinct(values).no_duplicates(),
        forall|i: int| 0 <= i < values.len() ==> distinct(values).contains(#[trigger] values[i]),
        forall|i: int|
            0 <= i < distinct(values).len() ==> values.contains(#[trigger] distinct(values)[i]),
    decreases values.len(),
{
    if values.len() > 0 {
        let d = values.drop_last();
        let f = distinct(d);
        lemma_distinct(d);
        assert forall|i: int| 0 <= i < values.len() implies distinct(values).contains(
            #[trigger] values[i],
        ) by {
            if i < d.len() {
                assert(d[i] == values[i]);
                let j = choose|j: int| 0 <= j < f.len() && f[j] == d[i];
                assert(distinct(values)[j] == f[j]);
            } else if !f.contains(values.last()) {
                assert(distinct(values)[f.len() as int] == values.last());
            }
        }
        assert forall|i: int| 0 <= i < distinct(values).len() implies values.contains(
            #[trigger] distinct(values)[i],
        ) by {
            if i < f.len() {
                assert(d.contains(f[i]));
                let j = choose|j: int| 0 <= j < d.len() && d[j] == f[i];
                assert(values[j] == f[i]);
            } else {
                assert(values[values.len() - 1] == distinct(values)[i]);
            }
        }
    }
}

/// Values that all come from a pool have no more distinct ones than the pool has values.
pub proof fn lemma_distinct_in_pool(values: Seq<Cell>, pool: Seq<Cell>)
    requires
        forall|i: int| 0 <= i < values.len() ==> pool.contains(#[trigger] values[i]),
    ensures
        distinct(values).len() <= pool.len(),
{
    lemma_distinct(values);
    assert forall|i: int| 0 <= i < distinct(values).len() implies pool.contains(
        #[trigger] distinct(values)[i],
    ) by {
        let v = distinct(values)[i];
        assert(values.contains(v));
        let j = choose|j: int| 0 <= j < values.len() && values[j] == v;
        assert(pool.contains(values[j]));
    }
    lemma_distinct_fits(distinct(values), pool);
}

proof fn lemma_distinct_fits(d: Seq<Cell>, pool: Seq<Cell>)
    requires
        d.no_duplicates(),
        forall|i: int| 0 <= i < d.len() ==> pool.contains(#[trigger] d[i]),
    ensures
        d.len() <= pool.len(),
    decreases d.len(),
{
    if d.len() > 0 {
        let last = d.last();
        assert(pool.contains(d[d.len() - 1]));
        let p = choose|p: int| 0 <= p < pool.len() && pool[p] == last;
        let rest = pool.remove(p);
        let e = d.drop_last();
        assert forall|i: int| 0 <= i < e.len() implies rest.contains(#[trigger] e[i]) by {
            assert(e[i] == d[i]);
            assert(pool.contains(d[i]));
            let q = choose|q: int| 0 <= q < pool.len() && pool[q] == d[i];
            assert(q != p);
            if q < p {
                assert(rest[q] == pool[q]);
            } else {
                assert(rest[q - 1] == pool[q]);
            }
        }
        lemma_distinct_fits(e, rest);
    }
}

} // verus!
