//! Arrow arrays, batches and schemas: the calls into the Arrow crates.

use std::sync::Arc;

use vstd::prelude::*;

use arrow_array::cast::AsArray;
use arrow_array::types::{DurationNanosecondType, Int32Type, Int64Type, UInt16Type, UInt8Type};
use arrow_array::{make_array, Array, ArrayRef, DictionaryArray, PrimitiveArray, RecordBatch};
use arrow_schema::TimeUnit::{Microsecond, Millisecond, Nanosecond, Second};
use arrow_schema::{ArrowError, DataType, Schema, SchemaBuilder};

use crate::model::{
    counted, fits_offsets, native_bytes, of_dictionaries, sum_of, ArrayModel, Cell, ColumnType, Element,
    ElementType, FieldModel, IndexType, Kind,
};

verus! {

/// A schema of `arrow_schema`.
#[verifier::external_type_specification]
#[verifier::external_body]
pub struct OutsideSchema(arrow_schema::Schema);

/// A type of `arrow_schema`.
#[verifier::external_type_specification]
#[verifier::external_body]
pub struct OutsideDataType(arrow_schema::DataType);

/// A schema under construction, of `arrow_schema`.
#[verifier::external_type_specification]
#[verifier::external_body]
pub struct OutsideSchemaBuilder(arrow_schema::SchemaBuilder);

/// An error of the Arrow crates.
#[verifier::external_type_specification]
#[verifier::external_body]
pub struct OutsideArrowError(arrow_schema::ArrowError);

/// An Arrow array of any type: `arrow_array::ArrayRef`.
#[verifier::external_body]
pub struct ArrowArray {
    pub array: ArrayRef,
}

/// A record batch: `arrow_array::RecordBatch`.
#[verifier::external_body]
pub struct Batch {
    pub batch: RecordBatch,
}

/// What an array holds.
pub uninterp spec fn array_contents(array: ArrowArray) -> ArrayModel;

/// The columns of a record batch.
pub uninterp spec fn batch_columns(batch: Batch) -> Seq<ArrayModel>;

/// The number of rows of a record batch.
pub uninterp spec fn batch_rows(batch: Batch) -> nat;

/// The fields of a schema.
pub uninterp spec fn schema_fields(schema: Schema) -> Seq<FieldModel>;

/// The metadata of a schema as a whole.
pub uninterp spec fn schema_metadata(schema: Schema) -> Map<Seq<char>, Seq<char>>;

/// The kind of a type.
pub uninterp spec fn type_kind(ty: DataType) -> Kind;

/// The fields of a schema under construction.
pub uninterp spec fn builder_fields(builder: SchemaBuilder) -> Seq<FieldModel>;

/// The metadata of a schema under construction.
pub uninterp spec fn builder_metadata(builder: SchemaBuilder) -> Map<Seq<char>, Seq<char>>;

impl View for ArrowArray {
    type V = ArrayModel;

    open spec fn view(&self) -> ArrayModel {
        array_contents(*self)
    }
}

/// Metadata without entries.
pub open spec fn no_metadata() -> Map<Seq<char>, Seq<char>> {
    Map::empty()
}

/// The schema that is shared.
pub open spec fn schema_of(schema: &Arc<Schema>) -> Schema {
    **schema
}

/// The fields of a schema that is shared.
pub open spec fn fields_of(schema: &Arc<Schema>) -> Seq<FieldModel> {
    schema_fields(**schema)
}

// ---- schemas -------------------------------------------------------------------------------

/// `Schema::fields`: how many fields there are.
#[verifier::external_body]
pub(crate) fn schema_len(schema: &Schema) -> (r: usize)
    ensures
        r == schema_fields(*schema).len(),
{
    schema.fields().len()
}

/// `Schema::field` and `Field::name`.
#[verifier::external_body]
pub(crate) fn field_name(schema: &Schema, i: usize) -> (r: String)
    requires
        i < schema_fields(*schema).len(),
    ensures
        r@ == schema_fields(*schema)[i as int].name,
{
    schema.field(i).name().clone()
}

/// `Schema::field` and `Field::data_type`: the key type, where the field is a dictionary.
#[verifier::external_body]
pub(crate) fn dictionary_key(schema: &Schema, i: usize) -> (r: Option<IndexType>)
    requires
        i < schema_fields(*schema).len(),
    ensures
        r == schema_fields(*schema)[i as int].ty.key(),
{
    match schema.field(i).data_type() {
        DataType::Dictionary(k, _) => Some(match k.as_ref() {
            DataType::Int8 => IndexType::Int8,
            DataType::Int16 => IndexType::Int16,
            DataType::Int32 => IndexType::Int32,
            DataType::Int64 => IndexType::Int64,
            DataType::UInt8 => IndexType::UInt8,
            DataType::UInt16 => IndexType::UInt16,
            DataType::UInt32 => IndexType::UInt32,
            DataType::UInt64 => IndexType::UInt64,
            _ => IndexType::Other,
        }),
        _ => None,
    }
}

/// `Schema::field` and `Field::data_type`: the type of the values of a column, where it is one of
/// the listed types.
#[verifier::external_body]
pub(crate) fn element_type(schema: &Schema, i: usize) -> (r: Option<ElementType>)
    requires
        i < schema_fields(*schema).len(),
    ensures
        r == (match schema_fields(*schema)[i as int].ty.element() {
            Element::Known(t) => Some(t),
            _ => None,
        }),
{
    let ty = match schema.field(i).data_type() {
        DataType::Dictionary(_, v) => v.as_ref(),
        other => other,
    };
    Some(match ty {
        DataType::Utf8 => ElementType::Utf8, DataType::LargeUtf8 => ElementType::LargeUtf8,
        DataType::Binary => ElementType::Binary, DataType::LargeBinary => ElementType::LargeBinary,
        DataType::FixedSizeBinary(n) => ElementType::FixedSizeBinary(*n), DataType::Boolean => ElementType::Boolean,
        DataType::Int8 => ElementType::Int8, DataType::Int16 => ElementType::Int16,
        DataType::Int32 => ElementType::Int32, DataType::Int64 => ElementType::Int64,
        DataType::UInt8 => ElementType::UInt8, DataType::UInt16 => ElementType::UInt16,
        DataType::UInt32 => ElementType::UInt32, DataType::UInt64 => ElementType::UInt64,
        DataType::Timestamp(Nanosecond, None) => ElementType::TimestampNanos,
        DataType::Duration(Nanosecond) => ElementType::DurationNanos, _ => return None,
    })
}

/// The variants of `DataType`, each by its kind. The last arm is for all other variants, whose
/// values hold no further values.
#[verifier::external_body]
pub(crate) fn kind_of(ty: &DataType) -> (r: Kind)
    ensures
        r == type_kind(*ty),
{
    match ty {
        DataType::FixedSizeBinary(n) => Kind::SizedBinary(*n), DataType::Null => Kind::Null,
        DataType::List(_) => Kind::List, DataType::LargeList(_) => Kind::LargeList,
        DataType::FixedSizeList(_, n) => Kind::SizedList(*n), DataType::Struct(_) => Kind::Struct,
        DataType::ListView(_) => Kind::ListView, DataType::LargeListView(_) => Kind::LargeListView,
        DataType::Map(..) => Kind::Pairs, DataType::Union(..) => Kind::Union,
        DataType::RunEndEncoded(..) => Kind::Runs, DataType::Dictionary(..) => Kind::Dictionary,
        DataType::Time32(Microsecond) => Kind::ShortMicroseconds,
        DataType::Time32(Nanosecond) => Kind::ShortNanoseconds,
        DataType::Time64(Second) => Kind::LongSeconds,
        DataType::Time64(Millisecond) => Kind::LongMilliseconds,
        _ => Kind::Single
    }
}

/// `Field::data_type`, and `Schema::flattened_fields` of one field: the type of the values of a
/// column, and those of all fields in it. The first of them is of the kind whose values hold no
/// further values, where the type of the column is listed as such a type; and where it is not, of
/// another kind.
#[verifier::external_body]
pub(crate) fn types_within(schema: &Schema, i: usize) -> (r: Vec<DataType>)
    requires
        i < schema_fields(*schema).len(),
    ensures
        r.len() > 0,
        match schema_fields(*schema)[i as int].ty.element() {
            Element::Known(_) => r.len() == 1,
            Element::Single(_) => r.len() == 1 && type_kind(r[0]) == Kind::Single,
            Element::Nested(_, kinds) => {
                &&& r.len() == kinds.len()
                &&& type_kind(r[0]) != Kind::Single
                &&& forall|k: int| 0 <= k < r.len() ==> type_kind(#[trigger] r[k]) == kinds[k]
            },
        },
{
    let own = match schema.field(i).data_type() {
        DataType::Dictionary(_, v) => v.as_ref(),
        other => other,
    };
    let one = Schema::new(vec![schema.fields()[i].clone()]);
    let inner = one.flattened_fields().into_iter().skip(1).map(|field| field.data_type());
    std::iter::once(own).chain(inner).cloned().collect()
}

/// `SchemaBuilder::new`: a schema without fields and without metadata.
#[verifier::external_body]
pub(crate) fn new_schema() -> (r: SchemaBuilder)
    ensures
        builder_fields(r) == Seq::<FieldModel>::empty(),
        builder_metadata(r) == no_metadata(),
{
    SchemaBuilder::new()
}

/// `SchemaBuilder::push` of a field of another schema as it is.
#[verifier::external_body]
pub(crate) fn push_field(builder: &mut SchemaBuilder, schema: &Schema, i: usize)
    requires
        i < schema_fields(*schema).len(),
    ensures
        builder_fields(*final(builder)) == builder_fields(*old(builder)).push(
            schema_fields(*schema)[i as int],
        ),
        builder_metadata(*final(builder)) == builder_metadata(*old(builder)),
{
    builder.push(schema.fields()[i].clone())
}

/// `Field::with_data_type` on a dictionary field of another schema: the key type is replaced,
/// all else is kept.
#[verifier::external_body]
pub(crate) fn push_rekeyed_field(
    builder: &mut SchemaBuilder,
    schema: &Schema,
    i: usize,
    key: IndexType,
)
    requires
        i < schema_fields(*schema).len(),
        schema_fields(*schema)[i as int].ty is Dictionary,
        key is UInt8 || key is UInt16,
    ensures
        builder_fields(*final(builder)) == builder_fields(*old(builder)).push(
            FieldModel {
                ty: ColumnType::Dictionary(key, schema_fields(*schema)[i as int].ty.element()),
                ..schema_fields(*schema)[i as int]
            },
        ),
        builder_metadata(*final(builder)) == builder_metadata(*old(builder)),
{
    let field = schema.field(i).clone();
    let value = match field.data_type() {
        DataType::Dictionary(_, v) => v.clone(),
        other => Box::new(other.clone()),
    };
    let key = match key {
        IndexType::UInt8 => DataType::UInt8,
        _ => DataType::UInt16,
    };
    builder.push(field.with_data_type(DataType::Dictionary(Box::new(key), value)))
}

/// `Field::with_data_type` on a dictionary field of another schema: the type of the values takes
/// the place of the dictionary type, all else is kept.
#[verifier::external_body]
pub(crate) fn push_native_field(builder: &mut SchemaBuilder, schema: &Schema, i: usize)
    requires
        i < schema_fields(*schema).len(),
        schema_fields(*schema)[i as int].ty is Dictionary,
    ensures
        builder_fields(*final(builder)) == builder_fields(*old(builder)).push(
            FieldModel {
                ty: ColumnType::Plain(schema_fields(*schema)[i as int].ty.element()),
                ..schema_fields(*schema)[i as int]
            },
        ),
        builder_metadata(*final(builder)) == builder_metadata(*old(builder)),
{
    let field = schema.field(i).clone();
    let value = match field.data_type() {
        DataType::Dictionary(_, v) => v.as_ref().clone(),
        other => other.clone(),
    };
    builder.push(field.with_data_type(value))
}

/// `SchemaBuilder::metadata_mut`: the metadata of another schema takes the place of the metadata.
#[verifier::external_body]
pub(crate) fn take_metadata(builder: &mut SchemaBuilder, schema: &Schema)
    ensures
        builder_fields(*final(builder)) == builder_fields(*old(builder)),
        builder_metadata(*final(builder)) == schema_metadata(*schema),
{
    *builder.metadata_mut() = schema.metadata.clone()
}

/// `SchemaBuilder::finish`: the schema of the pushed fields, with the builder's metadata.
#[verifier::external_body]
pub(crate) fn finish_schema(builder: SchemaBuilder) -> (r: Arc<Schema>)
    ensures
        schema_fields(*r) == builder_fields(builder),
        schema_metadata(*r) == builder_metadata(builder),
{
    Arc::new(builder.finish())
}

// ---- record batches ------------------------------------------------------------------------

/// `RecordBatch::num_columns`.
#[verifier::external_body]
pub(crate) fn column_count(batch: &Batch) -> (r: usize)
    ensures
        r == batch_columns(*batch).len(),
{
    batch.batch.num_columns()
}

/// `RecordBatch::num_rows`.
#[verifier::external_body]
pub(crate) fn row_count(batch: &Batch) -> (r: usize)
    ensures
        r == batch_rows(*batch),
{
    batch.batch.num_rows()
}

/// `RecordBatch::column`: one column, which has as many positions as the batch has rows.
#[verifier::external_body]
pub(crate) fn batch_column(batch: &Batch, i: usize) -> (r: ArrowArray)
    requires
        i < batch_columns(*batch).len(),
    ensures
        r@ == batch_columns(*batch)[i as int],
        r@.cells.len() == batch_rows(*batch),
        r@.well_formed(),
{
    ArrowArray { array: batch.batch.column(i).clone() }
}

/// What `RecordBatch::try_new` checks: there is a column, there are as many columns as fields, all
/// columns have one length, each has the type of its field, and one that is not nullable marks
/// no position as null.
pub open spec fn fits_schema(fields: Seq<FieldModel>, columns: Seq<ArrayModel>) -> bool {
    &&& columns.len() > 0
    &&& columns.len() == fields.len()
    &&& forall|i: int|
        0 <= i < columns.len() ==> {
            &&& (#[trigger] columns[i]).cells.len() == columns[0].cells.len()
            &&& columns[i].ty == fields[i].ty
            &&& fields[i].nullable || !columns[i].marks_null()
        }
}

/// The contents of arrays.
pub open spec fn contents_of(arrays: Seq<ArrowArray>) -> Seq<ArrayModel> {
    Seq::new(arrays.len(), |i: int| arrays[i]@)
}

/// `RecordBatch::try_new`. It makes a batch of the columns in their order if they fit the schema,
/// and fails if they do not.
#[verifier::external_body]
pub(crate) fn new_batch(schema: &Arc<Schema>, columns: Vec<ArrowArray>) -> (r: Result<
    Batch,
    ArrowError,
>)
    ensures
        r is Ok <==> fits_schema(schema_fields(**schema), contents_of(columns@)),
        r matches Ok(batch) ==> {
            &&& batch_columns(batch) == contents_of(columns@)
            &&& batch_rows(batch) == columns[0]@.cells.len()
        },
{
    let arrays = columns.into_iter().map(|c| c.array).collect();
    RecordBatch::try_new(schema.clone(), arrays).map(|batch| Batch { batch })
}

// ---- arrays --------------------------------------------------------------------------------

/// `Array::data_type` and `==` on `DataType`: whether an array has the type of a field.
#[verifier::external_body]
pub(crate) fn has_field_type(array: &ArrowArray, schema: &Schema, i: usize) -> (r: bool)
    requires
        i < schema_fields(*schema).len(),
    ensures
        r == (array@.ty == schema_fields(*schema)[i as int].ty),
{
    array.array.data_type() == schema.field(i).data_type()
}

/// `Arc::clone` of an `ArrayRef`: the same array.
#[verifier::external_body]
pub(crate) fn share_array(array: &ArrowArray) -> (r: ArrowArray)
    ensures
        r@ == array@,
{
    ArrowArray { array: Arc::clone(&array.array) }
}

/// `Array::len`.
#[verifier::external_body]
pub(crate) fn array_len(array: &ArrowArray) -> (r: usize)
    ensures
        r == array_contents(*array).cells.len(),
{
    array.array.len()
}

/// `DictionaryArray::values`: the dictionary, as an array of its own. Of one whose values are
/// dictionaries themselves only the values are said.
#[verifier::external_body]
pub(crate) fn dictionary_values(array: &ArrowArray) -> (r: ArrowArray)
    requires
        array@.ty is Dictionary,
    ensures
        r@.cells == array@.dictionary,
        r@.well_formed(),
        !of_dictionaries(array@.ty.element()) ==> {
            &&& r@.ty == ColumnType::Plain(array@.ty.element())
            &&& r@.texts == array@.texts
            &&& r@.widths == array@.widths
            &&& r@.bulk == array@.bulk
        },
{
    ArrowArray { array: array.array.as_any_dictionary().values().clone() }
}

/// `DictionaryArray::keys` of a dictionary with 8-bit keys.
#[verifier::external_body]
pub(crate) fn keys_u8(array: &ArrowArray) -> (r: Vec<Option<u8>>)
    requires
        array@.ty matches ColumnType::Dictionary(IndexType::UInt8, _),
    ensures
        r.len() == array@.keys.len(),
        forall|i: int|
            0 <= i < r.len() ==> array@.keys[i] == (match #[trigger] r[i] {
                Some(k) => Some(k as u64),
                None => None,
            }),
{
    array.array.as_dictionary::<UInt8Type>().keys().iter().collect()
}

/// `DictionaryArray::keys` of a dictionary with 16-bit keys.
#[verifier::external_body]
pub(crate) fn keys_u16(array: &ArrowArray) -> (r: Vec<Option<u16>>)
    requires
        array@.ty matches ColumnType::Dictionary(IndexType::UInt16, _),
    ensures
        r.len() == array@.keys.len(),
        forall|i: int|
            0 <= i < r.len() ==> array@.keys[i] == (match #[trigger] r[i] {
                Some(k) => Some(k as u64),
                None => None,
            }),
{
    array.array.as_dictionary::<UInt16Type>().keys().iter().collect()
}

/// A dictionary array of the given keys and dictionary. Where the values are dictionaries
/// themselves, nothing more is said of their type.
pub open spec fn is_dictionary_of(
    array: ArrayModel,
    key: IndexType,
    keys: Seq<Option<u64>>,
    values: ArrayModel,
) -> bool {
    &&& array.ty.key() == Some(key)
    &&& array.keys == keys
    &&& array.dictionary == values.cells
    &&& array.well_formed()
    &&& values.ty is Plain ==> {
        &&& array.ty == ColumnType::Dictionary(key, values.ty.element())
        &&& array.texts == values.texts
        &&& array.widths == values.widths
    }
}

/// `DictionaryArray::new` with 8-bit keys, which all lie in the dictionary.
#[verifier::external_body]
pub(crate) fn new_dictionary_u8(keys: Vec<Option<u8>>, values: &ArrowArray) -> (r: ArrowArray)
    requires
        forall|i: int| 0 <= i < keys.len() ==> (#[trigger] keys[i] matches Some(k) ==> k < values@.cells.len()),
    ensures
        is_dictionary_of(
            r@,
            IndexType::UInt8,
            Seq::new(
                keys@.len(),
                |i: int|
                    match keys[i] {
                        Some(k) => Some(k as u64),
                        None => None,
                    },
            ),
            values@,
        ),
{
    let keys = PrimitiveArray::<UInt8Type>::from(keys);
    ArrowArray { array: Arc::new(DictionaryArray::new(keys, values.array.clone())) }
}

/// `DictionaryArray::new` with 16-bit keys, which all lie in the dictionary.
#[verifier::external_body]
pub(crate) fn new_dictionary_u16(keys: Vec<Option<u16>>, values: &ArrowArray) -> (r: ArrowArray)
    requires
        forall|i: int| 0 <= i < keys.len() ==> (#[trigger] keys[i] matches Some(k) ==> k < values@.cells.len()),
    ensures
        is_dictionary_of(
            r@,
            IndexType::UInt16,
            Seq::new(
                keys@.len(),
                |i: int|
                    match keys[i] {
                        Some(k) => Some(k as u64),
                        None => None,
                    },
            ),
            values@,
        ),
{
    let keys = PrimitiveArray::<UInt16Type>::from(keys);
    ArrowArray { array: Arc::new(DictionaryArray::new(keys, values.array.clone())) }
}

/// The values of several arrays, one array after the other.
pub open spec fn joined(arrays: Seq<ArrowArray>) -> Seq<Cell>
    decreases arrays.len(),
{
    if arrays.len() == 0 {
        seq![]
    } else {
        joined(arrays.drop_last()) + arrays.last()@.cells
    }
}

/// How many bytes several arrays keep for their positions, one array after the other.
pub open spec fn joined_widths(arrays: Seq<ArrowArray>) -> Seq<nat>
    decreases arrays.len(),
{
    if arrays.len() == 0 {
        seq![]
    } else {
        joined_widths(arrays.drop_last()) + arrays.last()@.widths
    }
}

/// `arrow_select::concat::concat`. It joins arrays of one type; it fails without arrays, or where
/// the types differ, and it may fail where the bytes of all positions outgrow 32-bit offsets. It
/// panics where the positions of nested lists do.
#[verifier::external_body]
pub(crate) fn concat_arrays(arrays: &Vec<ArrowArray>) -> (r: Result<ArrowArray, ArrowError>)
    requires
        forall|i: int|
            0 <= i < arrays.len() ==> (#[trigger] arrays[i])@.ty is Plain && constructible(
                arrays[i]@.ty.element(),
            ),
        arrays.len() > 0 && arrays[0]@.ty.element() is Nested ==> {
            &&& forall|i: int|
                0 <= i < arrays.len() ==> (#[trigger] arrays[i])@.ty == arrays[0]@.ty
            &&& sum_of(joined_widths(arrays@)) <= i32::MAX
        },
    ensures
        r matches Ok(a) ==> {
            &&& arrays.len() > 0
            &&& forall|i: int| 0 <= i < arrays.len() ==> (#[trigger] arrays[i])@.ty == a@.ty
            &&& a@.cells == joined(arrays@)
            &&& a@.well_formed()
        },
        arrays.len() > 0 && (forall|i: int|
            0 <= i < arrays.len() ==> (#[trigger] arrays[i])@.ty == arrays[0]@.ty) && fits_offsets(
            arrays[0]@.ty.element(),
            sum_of(joined_widths(arrays@)),
        ) ==> r is Ok,
{
    let refs: Vec<&dyn Array> = arrays.iter().map(|a| a.array.as_ref()).collect();
    arrow_select::concat::concat(&refs).map(|array| ArrowArray { array })
}

/// `arrow_cast::cast` of a dictionary array to the type of its values. The result has the same
/// value at each position, and keeps bytes for the values alone; it may fail where these, or the
/// positions in nested lists, outgrow 32-bit offsets.
#[verifier::external_body]
pub(crate) fn cast_to_values(array: &ArrowArray) -> (r: Result<ArrowArray, ArrowError>)
    requires
        array@.ty is Dictionary,
        constructible(array@.ty.element()),
        array@.ty.element() is Nested ==> array@.bulk <= i32::MAX,
        array@.well_formed(),
    ensures
        r matches Ok(a) ==> {
            &&& a@.ty == ColumnType::Plain(array@.ty.element())
            &&& a@.cells == array@.cells
            &&& a@.well_formed()
        },
        fits_offsets(array@.ty.element(), native_bytes(array@)) ==> r is Ok,
{
    let to_type = match array.array.data_type() {
        DataType::Dictionary(_, v) => v.as_ref(),
        other => other,
    };
    arrow_cast::cast(&array.array, to_type).map(|array| ArrowArray { array })
}

/// `arrow_array::new_empty_array` for the values of a dictionary field. It panics where binary
/// values or lists of one size have a negative size.
#[verifier::external_body]
pub(crate) fn empty_values(schema: &Schema, i: usize) -> (r: ArrowArray)
    requires
        i < schema_fields(*schema).len(),
        schema_fields(*schema)[i as int].ty is Dictionary,
        constructible(schema_fields(*schema)[i as int].ty.element()),
    ensures
        r@.ty == ColumnType::Plain(schema_fields(*schema)[i as int].ty.element()),
        r@.cells == Seq::<Cell>::empty(),
        r@.well_formed(),
{
    let value_type = match schema.field(i).data_type() {
        DataType::Dictionary(_, v) => v.as_ref(),
        other => other,
    };
    ArrowArray { array: arrow_array::new_empty_array(value_type) }
}

/// Of how many types a type may be made: its arrays are handled type within type, on the stack.
pub const MOST_KINDS: usize = 1000;

/// Whether a type of a kind can be joined, cast and shown: no size is negative, and it is none of
/// dictionaries, list views, maps, unions or runs, nor a time in a unit that there are no arrays
/// for, with which the calls can panic.
pub open spec fn workable(kind: Kind) -> bool {
    match kind {
        Kind::SizedBinary(n) => n >= 0,
        Kind::SizedList(n) => n >= 0,
        Kind::Single => true,
        Kind::Null => true,
        Kind::List => true,
        Kind::LargeList => true,
        Kind::Struct => true,
        _ => false,
    }
}

/// Whether a type has arrays that can be joined, cast and shown. In other types, the type whose
/// only value is null can make the casting panic.
pub open spec fn constructible(e: Element) -> bool {
    match e {
        Element::Known(ElementType::FixedSizeBinary(n)) => n >= 0,
        Element::Known(_) => true,
        Element::Single(_) => true,
        Element::Nested(_, kinds) => {
            &&& kinds.len() <= MOST_KINDS
            &&& forall|k: int| 0 <= k < kinds.len() ==> workable(#[trigger] kinds[k])
            &&& forall|k: int| 0 < k < kinds.len() ==> #[trigger] kinds[k] != Kind::Null
        },
    }
}

/// How many positions arrays have, and what their bulks are, together.
pub open spec fn bulk_within(arrays: Seq<ArrowArray>) -> nat
    decreases arrays.len(),
{
    if arrays.len() == 0 {
        0
    } else {
        bulk_within(arrays.drop_last()) + arrays.last()@.cells.len() + arrays.last()@.bulk
    }
}

/// `ArrayData::child_data`: the arrays in an array.
#[verifier::external_body]
pub(crate) fn child_arrays(array: &ArrowArray) -> (r: Vec<ArrowArray>)
    requires
        array@.ty is Plain,
        constructible(array@.ty.element()),
    ensures
        array@.bulk == array@.stock + bulk_within(r@),
        forall|i: int|
            0 <= i < r.len() ==> {
                &&& (#[trigger] r[i])@.ty is Plain
                &&& constructible(r[i]@.ty.element())
                &&& r[i]@.depth < array@.depth
            },
{
    let data = array.array.to_data();
    data.child_data().iter().map(|d| ArrowArray { array: make_array(d.clone()) }).collect()
}

/// `GenericByteArray::values`: how many bytes an array of texts or binary values keeps that are
/// counted with 32-bit offsets; none for any other array.
#[verifier::external_body]
pub(crate) fn kept_bytes(array: &ArrowArray) -> (r: usize)
    requires
        array@.ty is Plain,
    ensures
        r == array@.stock,
{
    match array.array.data_type() {
        DataType::Utf8 => array.array.as_string::<i32>().values().len(),
        DataType::Binary => array.array.as_binary::<i32>().values().len(),
        _ => 0,
    }
}

/// `Array::slice`: the positions from `offset` on, `length` of them.
#[verifier::external_body]
pub(crate) fn slice_array(array: &ArrowArray, offset: usize, length: usize) -> (r: ArrowArray)
    requires
        array@.ty is Plain,
        offset + length <= array@.cells.len(),
    ensures
        r@.ty == array@.ty,
        r@.cells == array@.cells.subrange(offset as int, offset + length),
        counted(array@.ty.element()) ==> r@.widths == array@.widths.subrange(
            offset as int,
            offset + length,
        ),
        r@.well_formed(),
{
    ArrowArray { array: array.array.slice(offset, length) }
}

// ---- single values -------------------------------------------------------------------------

/// `Array::is_null`.
#[verifier::external_body]
pub(crate) fn is_null(array: &ArrowArray, i: usize) -> (r: bool)
    requires
        array@.ty is Plain,
        i < array@.cells.len(),
    ensures
        r == (array@.cells[i as int] is Null),
{
    array.array.is_null(i)
}

/// `StringArray::value`: the bytes of a text, where the array is one of texts.
#[verifier::external_body]
pub(crate) fn text_bytes(array: &ArrowArray, i: usize) -> (r: Option<Vec<u8>>)
    requires
        array@.ty is Plain,
        i < array@.cells.len(),
        !(array@.cells[i as int] is Null),
    ensures
        r is Some <==> array@.ty == ColumnType::Plain(Element::Known(ElementType::Utf8)),
        r matches Some(b) ==> array@.cells[i as int] == Cell::Bytes(b@),
{
    array.array.as_string_opt::<i32>().map(|a| a.value(i).as_bytes().to_vec())
}

/// `FixedSizeBinaryArray::value`, where the array is one of binary values of one size.
#[verifier::external_body]
pub(crate) fn binary_bytes(array: &ArrowArray, i: usize) -> (r: Option<Vec<u8>>)
    requires
        array@.ty is Plain,
        i < array@.cells.len(),
        !(array@.cells[i as int] is Null),
    ensures
        r is Some <==> (array@.ty matches ColumnType::Plain(
            Element::Known(ElementType::FixedSizeBinary(_)),
        )),
        r matches Some(b) ==> array@.cells[i as int] == Cell::Bytes(b@),
{
    array.array.as_fixed_size_binary_opt().map(|a| a.value(i).to_vec())
}

/// `Int32Array::value`, where the array is one of 32-bit integers.
#[verifier::external_body]
pub(crate) fn int32_value(array: &ArrowArray, i: usize) -> (r: Option<i32>)
    requires
        array@.ty is Plain,
        i < array@.cells.len(),
        !(array@.cells[i as int] is Null),
    ensures
        r is Some <==> array@.ty == ColumnType::Plain(Element::Known(ElementType::Int32)),
        r matches Some(v) ==> array@.cells[i as int] == Cell::Int(v as int),
{
    array.array.as_primitive_opt::<Int32Type>().map(|a| a.value(i))
}

/// `PrimitiveArray::<Int64Type>::value`, where the array is one of 64-bit integers.
#[verifier::external_body]
pub(crate) fn int64_value(array: &ArrowArray, i: usize) -> (r: Option<i64>)
    requires
        array@.ty is Plain,
        i < array@.cells.len(),
        !(array@.cells[i as int] is Null),
    ensures
        r is Some <==> array@.ty == ColumnType::Plain(Element::Known(ElementType::Int64)),
        r matches Some(v) ==> array@.cells[i as int] == Cell::Int(v as int),
{
    array.array.as_primitive_opt::<Int64Type>().map(|a| a.value(i))
}

/// `PrimitiveArray::<DurationNanosecondType>::value`, where the array is one of durations in
/// nanoseconds.
#[verifier::external_body]
pub(crate) fn duration_value(array: &ArrowArray, i: usize) -> (r: Option<i64>)
    requires
        array@.ty is Plain,
        i < array@.cells.len(),
        !(array@.cells[i as int] is Null),
    ensures
        r is Some <==> array@.ty == ColumnType::Plain(Element::Known(ElementType::DurationNanos)),
        r matches Some(v) ==> array@.cells[i as int] == Cell::Int(v as int),
{
    array.array.as_primitive_opt::<DurationNanosecondType>().map(|a| a.value(i))
}

/// The `Debug` text of `Array::slice` of one position, as bytes.
#[verifier::external_body]
pub(crate) fn debug_text(array: &ArrowArray, i: usize) -> (r: Vec<u8>)
    requires
        array@.ty is Plain,
        constructible(array@.ty.element()),
        i < array@.cells.len(),
    ensures
        r@ == array@.texts[i as int],
{
    format!("{:?}", array.array.slice(i, 1)).into_bytes()
}

} // verus!
