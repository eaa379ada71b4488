//! What the batches of logs, metrics and traces have in common.

use vstd::prelude::*;
use vstd::utf8::encode_utf8;

use crate::arrow::no_metadata;
use crate::building::{distinct, lemma_distinct_in_pool, moderate, text_cells};
use crate::model::{Cell, ColumnType, Element, ElementType, FieldModel, IndexType};
use crate::text::{le_bytes, to_le_bytes};

verus! {

/// The time of the first row, in nanoseconds.
pub const BASE_TIME: i64 = 1_700_000_000_000_000_000;

/// The time from one row to the next, in nanoseconds.
pub const ROW_TIME: i64 = 1_000_000;

/// How long after its time a row was observed, in nanoseconds.
pub const OBSERVATION_LAG: i64 = 500_000;

/// The time of a row.
pub open spec fn row_time(b: nat, rows: nat, row: nat) -> int {
    BASE_TIME + (b * rows + row) * ROW_TIME
}

/// The time of a row, where all rows of all batches have times.
pub(crate) fn time_of_row(b: usize, rows: usize, row: usize, Ghost(num_batches): Ghost<nat>) -> (r:
    i64)
    requires
        b < num_batches,
        row < rows,
        num_batches * rows <= usize::MAX,
        BASE_TIME + (num_batches * rows) * ROW_TIME <= i64::MAX,
    ensures
        r == row_time(b as nat, rows as nat, row as nat),
        r <= BASE_TIME + (num_batches * rows) * ROW_TIME,
{
    proof {
        assert(b * rows + rows <= num_batches * rows) by (nonlinear_arith)
            requires
                b + 1 <= num_batches,
        ;
        assert(0 <= b * rows) by (nonlinear_arith);
    }
    let index: usize = b * rows + row;
    assert(index <= num_batches * rows);
    BASE_TIME + index as i64 * ROW_TIME
}

/// Fewer batches have no more rows.
pub proof fn lemma_fewer_rows(m: nat, n: nat, rows: nat)
    requires
        m <= n,
    ensures
        m * rows <= n * rows,
{
    assert(m * rows <= n * rows) by (nonlinear_arith)
        requires
            m <= n,
    ;
}

/// A field without a dictionary and without metadata.
pub open spec fn plain_field(name: Seq<char>, e: ElementType, nullable: bool) -> FieldModel {
    FieldModel {
        name,
        ty: ColumnType::Plain(Element::Known(e)),
        nullable,
        metadata: no_metadata(),
    }
}

/// A dictionary field without metadata.
pub open spec fn dictionary_field(
    name: Seq<char>,
    key: IndexType,
    e: ElementType,
    nullable: bool,
) -> FieldModel {
    FieldModel {
        name,
        ty: ColumnType::Dictionary(key, Element::Known(e)),
        nullable,
        metadata: no_metadata(),
    }
}

/// The address of the schema that all rows have.
pub const SCHEMA_URL: &'static str = "https://opentelemetry.io/schemas/1.21.0";

/// The value that a text is.
pub open spec fn text_cell(s: Seq<char>) -> Cell {
    Cell::Bytes(encode_utf8(s))
}

/// Four and four bytes, one after the other.
pub(crate) fn two_words(a: usize, b: usize) -> (r: Vec<u8>)
    ensures
        r@ == le_bytes(a as nat) + le_bytes(b as nat),
        r.len() == 8,
{
    let x = to_le_bytes(a as u64);
    let y = to_le_bytes(b as u64);
    let r: Vec<u8> = vec![x[0], x[1], x[2], x[3], y[0], y[1], y[2], y[3]];
    assert(r@ =~= le_bytes(a as nat) + le_bytes(b as nat));
    r
}

/// An owned copy of a text.
pub(crate) fn owned(s: &str) -> (r: String)
    ensures
        r@ == s@,
{
    let mut r: String = String::new();
    r.push_str(s);
    assert(r@ =~= s@);
    r
}

/// Few texts have few distinct ones, and all of them are short.
pub proof fn lemma_few_texts(values: Seq<String>, pool: Seq<Seq<char>>)
    requires
        forall|i: int| 0 <= i < values.len() ==> pool.contains((#[trigger] values[i])@),
        pool.len() <= 256,
        forall|i: int| 0 <= i < pool.len() ==> (#[trigger] pool[i]).len() <= 8191,
    ensures
        moderate(values),
        distinct(text_cells(values)).len() <= 256,
{
    let cells = text_cells(values);
    let choices = Seq::new(pool.len(), |i: int| text_cell(pool[i]));
    assert forall|i: int| 0 <= i < values.len() implies (#[trigger] values[i])@.len() <= 8191
        && choices.contains(cells[i]) by {
        assert(pool.contains(values[i]@));
        let j = choose|j: int| 0 <= j < pool.len() && pool[j] == values[i]@;
        assert(choices[j] == cells[i]);
    }
    lemma_distinct_in_pool(cells, choices);
}

/// The address of the schema is short.
pub proof fn lemma_url()
    ensures
        SCHEMA_URL@.len() <= 250,
{
    reveal_strlit("https://opentelemetry.io/schemas/1.21.0");
}

} // verus!
