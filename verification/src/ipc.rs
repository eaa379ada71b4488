//! Record batches in Arrow's file format.

use std::io::Cursor;
use std::sync::Arc;

use arrow_ipc::reader::FileReader;
use arrow_ipc::writer::{FileWriter, IpcWriteOptions};
use arrow_schema::{ArrowError, Schema};
use vstd::prelude::*;

use crate::arrow::{
    batch_columns, batch_rows, row_count, schema_fields, schema_metadata, Batch,
};
use crate::encoding::{encodable, is_view, schema_weight, READER_LIMIT};
use crate::model::{
    sum_of, ArrayModel, ColumnType, Element, ElementType, FieldModel, IndexType,
};
use crate::unification::rows_list;

verus! {

/// A writer of Arrow files, of `arrow_ipc`.
#[verifier::external_type_specification]
#[verifier::external_body]
#[verifier::reject_recursive_types(W)]
pub struct OutsideFileWriter<W>(arrow_ipc::writer::FileWriter<W>);

/// The fields of the schema that a writer was opened with.
pub uninterp spec fn writer_fields(writer: FileWriter<Vec<u8>>) -> Seq<FieldModel>;

/// The metadata of the schema that a writer was opened with.
pub uninterp spec fn writer_metadata(writer: FileWriter<Vec<u8>>) -> Map<Seq<char>, Seq<char>>;

/// The columns of each batch that a writer has taken.
pub uninterp spec fn writer_columns(writer: FileWriter<Vec<u8>>) -> Seq<Seq<ArrayModel>>;

/// The number of rows of each batch that a writer has taken.
pub uninterp spec fn writer_rows(writer: FileWriter<Vec<u8>>) -> Seq<nat>;

/// The number of rows of each batch of a file; none where the bytes are no Arrow file, or one
/// whose batches do not have the columns that its schema names.
pub uninterp spec fn file_rows(bytes: Seq<u8>) -> Option<Seq<nat>>;

/// The fields of the schema of a file.
pub uninterp spec fn file_fields(bytes: Seq<u8>) -> Seq<FieldModel>;

/// The metadata of the schema of a file.
pub uninterp spec fn file_metadata(bytes: Seq<u8>) -> Map<Seq<char>, Seq<char>>;

/// The columns of each batch of a file, as [`stored`] says.
pub uninterp spec fn file_columns(bytes: Seq<u8>) -> Seq<Seq<ArrayModel>>;

/// Whether a reader takes bytes for an Arrow file.
pub uninterp spec fn reads_back(bytes: Seq<u8>) -> bool;

/// What a file holds of a column: its type, values, keys and dictionary.
pub open spec fn stored(a: ArrayModel) -> ArrayModel {
    ArrayModel { texts: seq![], widths: seq![], stock: 0, bulk: 0, depth: 0, ..a }
}

/// What a file holds of the columns of one batch.
pub open spec fn stored_columns(columns: Seq<ArrayModel>) -> Seq<ArrayModel> {
    Seq::new(columns.len(), |c: int| stored(columns[c]))
}

/// What a file holds of the columns of several batches.
pub open spec fn stored_batches(batches: Seq<Seq<ArrayModel>>) -> Seq<Seq<ArrayModel>> {
    Seq::new(batches.len(), |b: int| stored_columns(batches[b]))
}

/// The columns of several batches.
pub open spec fn columns_list(batches: Seq<Batch>) -> Seq<Seq<ArrayModel>> {
    Seq::new(batches.len(), |b: int| batch_columns(batches[b]))
}

/// Whether columns are those of a schema.
pub open spec fn columns_typed(fields: Seq<FieldModel>, columns: Seq<ArrayModel>) -> bool {
    &&& columns.len() == fields.len()
    &&& forall|c: int| 0 <= c < fields.len() ==> (#[trigger] columns[c]).ty == fields[c].ty
}

/// Whether a file keeps a type as it is: keys are integers, and no time zone is an empty text, which
/// is the same in a file as no time zone. Of types that hold further types nothing is said.
pub open spec fn lasting(ty: ColumnType) -> bool {
    &&& ty.key() != Some(IndexType::Other)
    &&& match ty.element() {
        Element::Known(_) => true,
        Element::Single(name) => {
            &&& name != "Timestamp(s, \"\")"@
            &&& name != "Timestamp(ms, \"\")"@
            &&& name != "Timestamp(µs, \"\")"@
            &&& name != "Timestamp(ns, \"\")"@
        },
        Element::Nested(_, _) => false,
    }
}

/// Whether a file keeps the types of all columns as they are.
pub open spec fn all_lasting(fields: Seq<FieldModel>) -> bool {
    forall|c: int| 0 <= c < fields.len() ==> lasting((#[trigger] fields[c]).ty)
}

/// Whether no column comes with another dictionary than it came with first.
pub open spec fn same_dictionaries(
    fields: Seq<FieldModel>,
    first: Seq<ArrayModel>,
    columns: Seq<ArrayModel>,
) -> bool {
    forall|c: int|
        0 <= c < fields.len() && fields[c].ty is Dictionary ==> (
        #[trigger] columns[c]).dictionary == first[c].dictionary
}

/// Whether a batch has the dictionaries of the first of those that were taken before.
pub open spec fn dictionaries_agree(
    fields: Seq<FieldModel>,
    taken: Seq<Seq<ArrayModel>>,
    batch: Batch,
) -> bool {
    taken.len() > 0 ==> same_dictionaries(fields, taken[0], batch_columns(batch))
}

/// Whether a reader takes a column of a type: its values hold no further values and are no views,
/// sizes are not negative, and keys are integers.
pub open spec fn reader_takes(ty: ColumnType) -> bool {
    &&& ty.single()
    &&& !is_view(ty.element())
    &&& ty.key() != Some(IndexType::Other)
    &&& ty.element() matches Element::Known(ElementType::FixedSizeBinary(n)) ==> n >= 0
}

/// Whether columns show null at most where the fields allow it.
pub open spec fn nulls_allowed(fields: Seq<FieldModel>, columns: Seq<ArrayModel>) -> bool {
    forall|c: int|
        0 <= c < fields.len() ==> fields[c].nullable || !(#[trigger] columns[c]).marks_null()
}

/// Whether a schema is one that a reader takes: there is a column, a reader takes the types of all
/// of them, and the schema is within the reader's limits.
pub open spec fn reader_knows(
    fields: Seq<FieldModel>,
    metadata: Map<Seq<char>, Seq<char>>,
) -> bool {
    &&& fields.len() > 0
    &&& forall|c: int| 0 <= c < fields.len() ==> reader_takes((#[trigger] fields[c]).ty)
    &&& schema_weight(fields, metadata) <= READER_LIMIT
}

/// Whether a file that a writer has written can be read: a reader takes the schema, and the
/// batches have the columns that it names, with nulls at most where it allows them.
pub open spec fn reader_accepts(
    fields: Seq<FieldModel>,
    metadata: Map<Seq<char>, Seq<char>>,
    batches: Seq<Seq<ArrayModel>>,
) -> bool {
    &&& reader_knows(fields, metadata)
    &&& forall|b: int|
        0 <= b < batches.len() ==> columns_typed(fields, #[trigger] batches[b]) && nulls_allowed(
            fields,
            batches[b],
        )
}

/// `FileWriter::try_new_with_options` into a vector, with the default options. It fails only where
/// the values of a dictionary are dictionaries themselves, which hold further values. It panics
/// where the description of the schema is too large.
#[verifier::external_body]
fn open_file(schema: &Schema) -> (r: Result<FileWriter<Vec<u8>>, ArrowError>)
    requires
        encodable(schema_fields(*schema), schema_metadata(*schema), 0),
    ensures
        r is Ok,
        r matches Ok(writer) ==> {
            &&& writer_fields(writer) == schema_fields(*schema)
            &&& writer_metadata(writer) == schema_metadata(*schema)
            &&& writer_columns(writer).len() == 0
            &&& writer_rows(writer).len() == 0
        },
{
    FileWriter::try_new_with_options(Vec::new(), schema, IpcWriteOptions::default())
}

/// `FileWriter::write`. The writer takes one more batch. It refuses the batch exactly if a dictionary
/// is another one than the column came with in the first batch. It panics where the description of
/// the columns is too large.
#[verifier::external_body]
fn write_batch(writer: &mut FileWriter<Vec<u8>>, batch: &Batch) -> (r: Result<(), ArrowError>)
    requires
        encodable(writer_fields(*old(writer)), writer_metadata(*old(writer)), 0),
        columns_typed(writer_fields(*old(writer)), batch_columns(*batch)),
        writer_columns(*old(writer)).len() > 0 ==> columns_typed(
            writer_fields(*old(writer)),
            writer_columns(*old(writer))[0],
        ),
    ensures
        r is Ok ==> {
            &&& writer_fields(*final(writer)) == writer_fields(*old(writer))
            &&& writer_metadata(*final(writer)) == writer_metadata(*old(writer))
            &&& writer_columns(*final(writer)) == writer_columns(*old(writer)).push(
                batch_columns(*batch),
            )
            &&& writer_rows(*final(writer)) == writer_rows(*old(writer)).push(batch_rows(*batch))
        },
        r is Ok <==> dictionaries_agree(
            writer_fields(*old(writer)),
            writer_columns(*old(writer)),
            *batch,
        ),
{
    writer.write(&batch.batch)
}

/// `FileWriter::into_inner` on a vector: the file, with all batches that the writer has taken. A
/// reader takes it where [`reader_accepts`] says so. It has the metadata of the schema, and the
/// fields and the columns where it keeps their types, as [`lasting`] says; where it does not keep
/// one of them, only the number of rows is said. The call panics where the description of the schema
/// and of the places of the batches is too large.
#[verifier::external_body]
fn finish_file(writer: FileWriter<Vec<u8>>) -> (r: Result<Vec<u8>, ArrowError>)
    requires
        encodable(writer_fields(writer), writer_metadata(writer), writer_columns(writer).len()),
        forall|b: int|
            0 <= b < writer_columns(writer).len() ==> columns_typed(
                writer_fields(writer),
                #[trigger] writer_columns(writer)[b],
            ),
    ensures
        r is Ok,
        r matches Ok(bytes) ==> {
            &&& file_rows(bytes@) == Some(writer_rows(writer))
            &&& file_metadata(bytes@) == writer_metadata(writer)
            &&& all_lasting(writer_fields(writer)) ==> {
                &&& file_fields(bytes@) == writer_fields(writer)
                &&& file_columns(bytes@) == stored_batches(writer_columns(writer))
            }
            &&& reader_accepts(
                writer_fields(writer),
                writer_metadata(writer),
                writer_columns(writer),
            ) ==> reads_back(bytes@)
        },
{
    writer.into_inner()
}

/// `FileReader::try_new`, and the batches that the reader gives: those of the file, as far as their
/// rows go, where the reader takes it.
#[verifier::external_body]
fn read_file(bytes: Vec<u8>) -> (r: Result<Vec<Batch>, ArrowError>)
    requires
        file_rows(bytes@) is Some,
    ensures
        r is Ok <==> reads_back(bytes@),
        r matches Ok(batches) ==> Some(rows_list(batches@)) == file_rows(bytes@),
{
    let reader = FileReader::try_new(Cursor::new(bytes), None)?;
    reader.map(|batch| batch.map(|batch| Batch { batch })).collect()
}

/// Why batches could not be written or read, with the error of the Arrow crates.
#[derive(Debug)]
pub enum IpcError {
    /// The file could not be begun.
    Writer(ArrowError),
    /// A batch could not be written.
    WriteBatch(ArrowError),
    /// The file could not be ended.
    Finish(ArrowError),
    /// The file could not be read.
    Read(ArrowError),
}

impl IpcError {
    /// The failure in words.
    pub fn message(&self) -> (r: &'static str)
        ensures
            r@ == (match *self {
                IpcError::Writer(_) => "writer"@,
                IpcError::WriteBatch(_) => "write batch"@,
                IpcError::Finish(_) => "finish"@,
                IpcError::Read(_) => "valid IPC"@,
            }),
    {
        match self {
            IpcError::Writer(_) => "writer",
            IpcError::WriteBatch(_) => "write batch",
            IpcError::Finish(_) => "finish",
            IpcError::Read(_) => "valid IPC",
        }
    }
}

/// Whether the columns of all batches are those of a schema.
pub open spec fn batches_typed(fields: Seq<FieldModel>, batches: Seq<Batch>) -> bool {
    forall|b: int|
        0 <= b < batches.len() ==> columns_typed(fields, batch_columns(#[trigger] batches[b]))
}

/// Whether each column has one dictionary in all batches.
pub open spec fn one_dictionary_each(fields: Seq<FieldModel>, batches: Seq<Batch>) -> bool {
    forall|b: int, c: int|
        0 <= b < batches.len() && 0 <= c < fields.len() && fields[c].ty is Dictionary ==> (
        #[trigger] batch_columns(batches[b])[c]).dictionary == batch_columns(
            batches[0],
        )[c].dictionary
}

/// Whether bytes are a file of batches: it has their rows, and the metadata of their schema; and
/// where a file keeps all types, it has the fields of the schema, and the columns of the batches.
pub open spec fn is_file_of(
    fields: Seq<FieldModel>,
    metadata: Map<Seq<char>, Seq<char>>,
    batches: Seq<Batch>,
    bytes: Seq<u8>,
) -> bool {
    &&& file_rows(bytes) == Some(rows_list(batches))
    &&& file_metadata(bytes) == metadata
    &&& all_lasting(fields) ==> {
        &&& file_fields(bytes) == fields
        &&& file_columns(bytes) == stored_batches(columns_list(batches))
    }
}

/// Whether batches can be handed to a writer: a file can describe their schema and all of them,
/// and they have the columns of the schema.
pub open spec fn writable(
    fields: Seq<FieldModel>,
    metadata: Map<Seq<char>, Seq<char>>,
    batches: Seq<Batch>,
) -> bool {
    encodable(fields, metadata, batches.len()) && batches_typed(fields, batches)
}

/// Writes the batches to a file. They are written exactly if each column has one dictionary in all
/// of them; and a reader takes the file where [`reader_accepts`] says so.
pub fn ipc_file(schema: &Arc<Schema>, batches: &[Batch]) -> (r: Result<Vec<u8>, IpcError>)
    requires
        writable(schema_fields(**schema), schema_metadata(**schema), batches@),
    ensures
        r matches Ok(bytes) ==> {
            &&& is_file_of(
                schema_fields(**schema),
                schema_metadata(**schema),
                batches@,
                bytes@,
            )
            &&& reader_accepts(
                schema_fields(**schema),
                schema_metadata(**schema),
                columns_list(batches@),
            ) ==> reads_back(bytes@)
        },
        r is Ok <==> one_dictionary_each(schema_fields(**schema), batches@),
        r matches Err(error) ==> error is WriteBatch,
{
    let mut writer = match open_file(schema) {
        Ok(writer) => writer,
        Err(error) => {
            return Err(IpcError::Writer(error));
        },
    };
    let ghost fields = writer_fields(writer);
    let ghost metadata = writer_metadata(writer);
    let mut b: usize = 0;
    while b < batches.len()
        invariant
            b <= batches.len(),
            batches@.len() == batches.len(),
            fields == schema_fields(**schema),
            fields == writer_fields(writer),
            metadata == schema_metadata(**schema),
            metadata == writer_metadata(writer),
            writable(fields, metadata, batches@),
            writer_columns(writer).len() == b,
            forall|i: int|
                0 <= i < b ==> #[trigger] writer_columns(writer)[i] == batch_columns(batches@[i]),
            writer_rows(writer).len() == b,
            forall|i: int|
                0 <= i < b ==> #[trigger] writer_rows(writer)[i] == batch_rows(batches@[i]),
            forall|i: int, c: int|
                0 <= i < b && 0 <= c < fields.len() && fields[c].ty is Dictionary ==> (
                #[trigger] batch_columns(batches@[i])[c]).dictionary == batch_columns(
                    batches@[0],
                )[c].dictionary,
        decreases batches.len() - b,
    {
        proof {
            assert(columns_typed(fields, batch_columns(batches@[b as int])));
            if b > 0 {
                assert(writer_columns(writer)[0] == batch_columns(batches@[0]));
                assert(columns_typed(fields, batch_columns(batches@[0])));
            }
        }
        match write_batch(&mut writer, &batches[b]) {
            Ok(_) => {},
            Err(error) => {
                return Err(IpcError::WriteBatch(error));
            },
        }
        b += 1;
    }
    proof {
        assert(writer_rows(writer) =~= rows_list(batches@));
        assert(writer_columns(writer) =~= columns_list(batches@));
        assert forall|i: int| 0 <= i < writer_columns(writer).len() implies columns_typed(
            fields,
            #[trigger] writer_columns(writer)[i],
        ) by {
            assert(columns_typed(fields, batch_columns(batches@[i])));
        }
    }
    match finish_file(writer) {
        Ok(bytes) => Ok(bytes),
        Err(error) => Err(IpcError::Finish(error)),
    }
}

/// How many bytes the file of the batches has.
pub fn ipc_file_size(schema: &Arc<Schema>, batches: &[Batch]) -> (r: Result<usize, IpcError>)
    requires
        writable(schema_fields(**schema), schema_metadata(**schema), batches@),
    ensures
        r matches Ok(n) ==> exists|bytes: Seq<u8>|
            bytes.len() == n && #[trigger] is_file_of(
                schema_fields(**schema),
                schema_metadata(**schema),
                batches@,
                bytes,
            ),
        r is Ok <==> one_dictionary_each(schema_fields(**schema), batches@),
        r matches Err(error) ==> error is WriteBatch,
{
    match ipc_file(schema, batches) {
        Ok(bytes) => {
            assert(is_file_of(
                schema_fields(**schema),
                schema_metadata(**schema),
                batches@,
                bytes@,
            ));
            Ok(bytes.len())
        },
        Err(error) => Err(error),
    }
}

proof fn lemma_sum_grows(s: Seq<nat>, n: int)
    requires
        0 <= n <= s.len(),
    ensures
        sum_of(s.take(n)) <= sum_of(s),
    decreases s.len() - n,
{
    if n < s.len() {
        lemma_sum_grows(s, n + 1);
        assert(s.take(n + 1).drop_last() =~= s.take(n));
    } else {
        assert(s.take(n) =~= s);
    }
}

/// How many rows batches have together.
pub fn count_rows(batches: &[Batch]) -> (r: usize)
    requires
        sum_of(rows_list(batches@)) <= usize::MAX,
    ensures
        r == sum_of(rows_list(batches@)),
{
    let ghost rows = rows_list(batches@);
    let mut total_rows: usize = 0;
    let mut b: usize = 0;
    assert(rows.take(0) =~= Seq::<nat>::empty());
    while b < batches.len()
        invariant
            b <= batches.len(),
            batches@.len() == batches.len(),
            rows == rows_list(batches@),
            sum_of(rows) <= usize::MAX,
            total_rows == sum_of(rows.take(b as int)),
        decreases batches.len() - b,
    {
        proof {
            lemma_sum_grows(rows, b + 1);
            assert(rows.take(b + 1).drop_last() =~= rows.take(b as int));
        }
        total_rows += row_count(&batches[b]);
        b += 1;
    }
    assert(rows.take(b as int) =~= rows);
    total_rows
}

/// Writes the batches to a file, reads it back, and counts the rows: as many as went in. It
/// succeeds only where a reader takes a file of the batches, and it fails in the reading only where
/// a reader does not take one. It succeeds where each column has one dictionary in all batches, and
/// [`reader_accepts`] says that a reader takes the file.
pub fn verify_ipc(schema: &Arc<Schema>, batches: &[Batch]) -> (r: Result<usize, IpcError>)
    requires
        writable(schema_fields(**schema), schema_metadata(**schema), batches@),
        sum_of(rows_list(batches@)) <= usize::MAX,
    ensures
        r matches Ok(n) ==> n == sum_of(rows_list(batches@)),
        r is Ok ==> exists|bytes: Seq<u8>| #[trigger]
            is_file_of(schema_fields(**schema), schema_metadata(**schema), batches@, bytes)
                && reads_back(bytes),
        reader_accepts(
            schema_fields(**schema),
            schema_metadata(**schema),
            columns_list(batches@),
        ) && one_dictionary_each(schema_fields(**schema), batches@) ==> r is Ok,
        !one_dictionary_each(schema_fields(**schema), batches@) ==> r matches Err(
            IpcError::WriteBatch(_),
        ),
        r matches Err(error) ==> match error {
            IpcError::Writer(_) => false,
            IpcError::WriteBatch(_) => !one_dictionary_each(schema_fields(**schema), batches@),
            IpcError::Finish(_) => false,
            IpcError::Read(_) => exists|bytes: Seq<u8>| #[trigger]
                is_file_of(schema_fields(**schema), schema_metadata(**schema), batches@, bytes)
                    && !reads_back(bytes),
        },
{
    let bytes = match ipc_file(schema, batches) {
        Ok(bytes) => bytes,
        Err(error) => {
            return Err(error);
        },
    };
    let ghost written = bytes@;
    assert(is_file_of(schema_fields(**schema), schema_metadata(**schema), batches@, written));
    match read_file(bytes) {
        Ok(back) => {
            assert(rows_list(back@) == rows_list(batches@));
            Ok(count_rows(&back))
        },
        Err(error) => Err(IpcError::Read(error)),
    }
}

} // verus!
