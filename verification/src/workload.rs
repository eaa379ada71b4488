//! Record batches with one dictionary column whose values overlap to a chosen degree.

use std::sync::Arc;

use arrow_schema::{ArrowError, Schema};
use rand::rngs::StdRng;
use vstd::prelude::*;
use vstd::string::StrSliceExecFns;
use vstd::utf8::{encode_utf8, encode_utf8_valid_utf8};

use crate::arrow::{
    batch_columns, batch_rows, constructible, contents_of, finish_schema, fits_schema, new_batch,
    new_schema, no_metadata, schema_fields, schema_metadata, ArrowArray, Batch,
};
use crate::building::{
    binary_cells, binary_dictionary_u16, binary_dictionary_u8, distinct, int32_cells,
    int32_dictionary_u16, int32_dictionary_u8, is_dictionary, lemma_distinct,
    lemma_distinct_in_pool, push_dictionary_field, text_cells, text_dictionary_u16,
    text_dictionary_u8,
};
use crate::columns::supported;
use crate::draws::{
    all_alphanumeric, append_alphanumeric, belows_run, chars_run, draw_belows, gave_bytes,
    gave_small, seeded, seeded_rng, Generator, BENCH_SEED,
};
use crate::entries::dictionaries;
use crate::index_type::capacity;
use crate::model::{ArrayModel, Cell, ColumnType, Element, ElementType, FieldModel, IndexType};
use crate::text::{
    decimal, decimal_is_injective, from_le_bytes, is_digit, le_bytes, lemma_decimal_digits,
    lemma_decimal_len, lemma_le_bytes, lemma_utf8_injective, push_decimal, text_from_utf8,
    to_le_bytes,
};
use crate::unification::{column_of, conforming, total_lens};

verus! {

/// The type of the dictionary's values.
#[derive(Debug, Clone, Copy, PartialEq, Eq, Structural)]
pub enum ValueType {
    Utf8,
    FixedSizeBinary16,
    Int32,
}

impl ValueType {
    /// The short name.
    pub fn name(&self) -> (r: &'static str)
        ensures
            r@ == (match *self {
                ValueType::Utf8 => "Utf8"@,
                ValueType::FixedSizeBinary16 => "FSB16"@,
                ValueType::Int32 => "Int32"@,
            }),
    {
        match self {
            ValueType::Utf8 => "Utf8",
            ValueType::FixedSizeBinary16 => "FSB16",
            ValueType::Int32 => "Int32",
        }
    }

    /// The type that Arrow has for the values.
    pub open spec fn element_type(self) -> ElementType {
        match self {
            ValueType::Utf8 => ElementType::Utf8,
            ValueType::FixedSizeBinary16 => ElementType::FixedSizeBinary(16),
            ValueType::Int32 => ElementType::Int32,
        }
    }

    /// The type that Arrow has for the values.
    pub fn element(&self) -> (r: ElementType)
        ensures
            r == self.element_type(),
    {
        match self {
            ValueType::Utf8 => ElementType::Utf8,
            ValueType::FixedSizeBinary16 => ElementType::FixedSizeBinary(16),
            ValueType::Int32 => ElementType::Int32,
        }
    }
}

/// The type of the dictionary's keys.
#[derive(Debug, Clone, Copy, PartialEq, Eq, Structural)]
pub enum KeyType {
    UInt8,
    UInt16,
}

impl KeyType {
    /// The name.
    pub fn name(&self) -> (r: &'static str)
        ensures
            r@ == (match *self {
                KeyType::UInt8 => "UInt8"@,
                KeyType::UInt16 => "UInt16"@,
            }),
    {
        match self {
            KeyType::UInt8 => "UInt8",
            KeyType::UInt16 => "UInt16",
        }
    }

    /// The type that Arrow has for the keys.
    pub open spec fn index_type(self) -> IndexType {
        match self {
            KeyType::UInt8 => IndexType::UInt8,
            KeyType::UInt16 => IndexType::UInt16,
        }
    }

    /// The type that Arrow has for the keys.
    pub fn to_arrow(&self) -> (r: IndexType)
        ensures
            r == self.index_type(),
    {
        match self {
            KeyType::UInt8 => IndexType::UInt8,
            KeyType::UInt16 => IndexType::UInt16,
        }
    }
}

/// What the batches of a measurement are made of.
#[derive(Debug, Clone)]
pub struct TestCase {
    pub name: String,
    pub num_batches: usize,
    /// How many values each batch chooses from.
    pub per_batch_cardinality: usize,
    /// How many of them all batches have in common.
    pub shared_count: usize,
    pub value_type: ValueType,
    pub key_type: KeyType,
    pub rows_per_batch: usize,
}

/// How many values there are to choose from in all batches together.
pub open spec fn pool_size(
    num_batches: nat,
    per_batch_cardinality: nat,
    shared_count: nat,
) -> nat {
    (shared_count + (per_batch_cardinality - shared_count) * num_batches) as nat
}

/// How many values there are to choose from in all batches together.
pub fn total_possible(
    num_batches: usize,
    per_batch_cardinality: usize,
    shared_count: usize,
) -> (r: Option<usize>)
    requires
        shared_count <= per_batch_cardinality,
    ensures
        r == (if pool_size(
            num_batches as nat,
            per_batch_cardinality as nat,
            shared_count as nat,
        ) <= usize::MAX {
            Some(
                pool_size(
                    num_batches as nat,
                    per_batch_cardinality as nat,
                    shared_count as nat,
                ) as usize,
            )
        } else {
            None
        }),
{
    let unique_per_batch: usize = per_batch_cardinality - shared_count;
    match unique_per_batch.checked_mul(num_batches) {
        Some(unique) => shared_count.checked_add(unique),
        None => None,
    }
}

impl TestCase {
    /// How many values there are to choose from in all batches together.
    pub open spec fn pool_size(self) -> nat {
        pool_size(
            self.num_batches as nat,
            self.per_batch_cardinality as nat,
            self.shared_count as nat,
        )
    }

    /// What can be built: no more values are shared than there are, there is a value for each
    /// row, the keys suffice whatever is drawn, and all counts can be counted.
    pub open spec fn buildable(self) -> bool {
        &&& self.shared_count <= self.per_batch_cardinality
        &&& self.rows_per_batch > 0 ==> self.per_batch_cardinality > 0
        &&& self.per_batch_cardinality <= capacity(self.key_type.index_type())
            || self.rows_per_batch <= capacity(self.key_type.index_type())
        &&& self.pool_size() <= usize::MAX
        &&& self.num_batches * self.rows_per_batch <= usize::MAX
    }
}

/// Whether a test case can be built: see [`TestCase::buildable`].
pub fn can_build(tc: &TestCase) -> (r: bool)
    ensures
        r == tc.buildable(),
{
    let limit: u64 = match tc.key_type {
        KeyType::UInt8 => 256,
        KeyType::UInt16 => 65536,
    };
    if tc.shared_count > tc.per_batch_cardinality {
        return false;
    }
    if tc.rows_per_batch > 0 && tc.per_batch_cardinality == 0 {
        return false;
    }
    if tc.per_batch_cardinality as u64 > limit && tc.rows_per_batch as u64 > limit {
        return false;
    }
    match total_possible(tc.num_batches, tc.per_batch_cardinality, tc.shared_count) {
        Some(_) => {},
        None => {
            return false;
        },
    }
    match tc.num_batches.checked_mul(tc.rows_per_batch) {
        Some(_) => true,
        None => false,
    }
}

// ---- the values ----------------------------------------------------------------------------

/// The text of the value at one place of the pool.
pub open spec fn pool_text(i: nat, suffix: Seq<char>) -> Seq<char> {
    "val_"@ + decimal(i) + "_"@ + suffix
}

/// Whether letters and digits can end a text of the pool.
pub open spec fn is_suffix(suffix: Seq<char>) -> bool {
    5 <= suffix.len() < 30 && all_alphanumeric(suffix)
}

/// Whether bytes can be the value at one place of the pool: a text with the place in it, sixteen
/// bytes that begin with the place, or the place itself in four bytes.
pub open spec fn is_pool_value(vtype: ValueType, i: nat, bytes: Seq<u8>) -> bool {
    match vtype {
        ValueType::Utf8 => exists|suffix: Seq<char>|
            is_suffix(suffix) && bytes == encode_utf8(#[trigger] pool_text(i, suffix)),
        ValueType::FixedSizeBinary16 => bytes.len() == 16 && bytes.take(4) == le_bytes(i),
        ValueType::Int32 => bytes == le_bytes(i),
    }
}

/// Whether values can be a pool.
pub open spec fn is_pool(vtype: ValueType, pool: Seq<Vec<u8>>) -> bool {
    forall|i: int| 0 <= i < pool.len() ==> is_pool_value(vtype, i as nat, (#[trigger] pool[i])@)
}

/// The values of a pool are different from each other, as long as their places fit in thirty-two
/// bits.
pub proof fn pool_values_are_unique(
    vtype: ValueType,
    i: nat,
    j: nat,
    a: Seq<u8>,
    b: Seq<u8>,
)
    requires
        is_pool_value(vtype, i, a),
        is_pool_value(vtype, j, b),
        i != j,
        i < 0x1_0000_0000,
        j < 0x1_0000_0000,
    ensures
        a != b,
{
    if a == b {
        match vtype {
            ValueType::Utf8 => {
                let s = choose|s: Seq<char>|
                    is_suffix(s) && a == encode_utf8(#[trigger] pool_text(i, s));
                let t = choose|t: Seq<char>|
                    is_suffix(t) && b == encode_utf8(#[trigger] pool_text(j, t));
                lemma_utf8_injective(pool_text(i, s), pool_text(j, t));
                lemma_pool_text(i, s, j, t);
            },
            _ => {
                lemma_le_bytes(i);
                lemma_le_bytes(j);
                assert(i % 0x1_0000_0000 == i);
                assert(j % 0x1_0000_0000 == j);
            },
        }
    }
}

proof fn lemma_pool_text(i: nat, s: Seq<char>, j: nat, t: Seq<char>)
    requires
        pool_text(i, s) == pool_text(j, t),
    ensures
        i == j,
{
    reveal_strlit("val_");
    reveal_strlit("_");
    lemma_decimal_digits(i);
    lemma_decimal_digits(j);
    let x = pool_text(i, s);
    let di = decimal(i);
    let dj = decimal(j);
    assert(x[4 + di.len() as int] == '_');
    assert(pool_text(j, t)[4 + dj.len() as int] == '_');
    assert forall|k: int| 0 <= k < di.len() implies x[4 + k] == #[trigger] di[k] by {}
    assert forall|k: int| 0 <= k < dj.len() implies x[4 + k] == #[trigger] dj[k] by {}
    if di.len() < dj.len() {
        assert(is_digit(dj[di.len() as int]));
        assert(x[4 + di.len() as int] == dj[di.len() as int]);
    } else if dj.len() < di.len() {
        assert(is_digit(di[dj.len() as int]));
        assert(x[4 + dj.len() as int] == di[dj.len() as int]);
    }
    assert forall|k: int| 0 <= k < di.len() implies #[trigger] di[k] == dj[k] by {
        assert(x[4 + k] == di[k]);
        assert(x[4 + k] == dj[k]);
    }
    assert(di =~= dj);
    decimal_is_injective(i, j);
}

/// The text at one place of the pool.
pub fn text_value(i: usize, suffix: &str) -> (r: String)
    ensures
        r@ == pool_text(i as nat, suffix@),
{
    let mut s: String = String::new();
    s.push_str("val_");
    push_decimal(&mut s, i as u64);
    s.push_str("_");
    s.push_str(suffix);
    assert(s@ =~= pool_text(i as nat, suffix@));
    s
}

/// The binary value at one place of the pool: the place takes the first four of sixteen bytes.
pub fn binary_value(i: usize, bytes: Vec<u8>) -> (r: Vec<u8>)
    requires
        bytes.len() == 16,
    ensures
        r@ == le_bytes(i as nat) + bytes@.skip(4),
{
    let mut buf: Vec<u8> = bytes;
    let head = to_le_bytes(i as u64);
    buf.set(0, head[0]);
    buf.set(1, head[1]);
    buf.set(2, head[2]);
    buf.set(3, head[3]);
    assert(buf@ =~= head@ + bytes@.skip(4));
    buf
}

/// The number at one place of the pool, in four bytes.
pub fn int_value(i: usize) -> (r: Vec<u8>)
    ensures
        r@ == le_bytes(i as nat),
{
    let b = to_le_bytes(i as u64);
    let v: Vec<u8> = vec![b[0], b[1], b[2], b[3]];
    assert(v@ =~= b@);
    v
}

/// Whether a text's ending is one that a generator gives: a length from five to below thirty, and so
/// many letters and digits.
pub open spec fn suffix_run(before: StdRng, len: i32, mid: StdRng, suffix: Seq<char>, after: StdRng) -> bool {
    &&& gave_small(before, 5, 30, len, mid)
    &&& suffix.len() == len
    &&& chars_run(mid, suffix, after)
}

/// Whether a value of the pool is the one that what a generator gives for it makes.
pub open spec fn pool_value_run(
    vtype: ValueType,
    before: StdRng,
    i: nat,
    value: Seq<u8>,
    after: StdRng,
) -> bool {
    match vtype {
        ValueType::Utf8 => exists|len: i32, mid: StdRng, suffix: Seq<char>|
            #[trigger] suffix_run(before, len, mid, suffix, after) && value == encode_utf8(
                pool_text(i, suffix),
            ),
        ValueType::FixedSizeBinary16 => exists|bytes: Vec<u8>| #[trigger]
            gave_bytes(before, 16, bytes, after) && value == le_bytes(i) + bytes@.skip(4),
        ValueType::Int32 => before == after && value == le_bytes(i),
    }
}

/// Whether a pool is the one that what a generator gives makes, where it stands at these places.
pub open spec fn pool_drawn(vtype: ValueType, states: Seq<StdRng>, pool: Seq<Vec<u8>>) -> bool {
    &&& states.len() == pool.len() + 1
    &&& forall|i: int|
        0 <= i < pool.len() ==> pool_value_run(
            vtype,
            states[i],
            i as nat,
            (#[trigger] pool[i])@,
            states[i + 1],
        )
}

/// Whether a pool is the one that what a generator gives makes.
pub open spec fn pool_run(
    vtype: ValueType,
    before: StdRng,
    pool: Seq<Vec<u8>>,
    after: StdRng,
) -> bool {
    exists|states: Seq<StdRng>| #[trigger]
        pool_drawn(vtype, states, pool) && states.first() == before && states.last() == after
}

/// One more value goes on where the values before it end.
proof fn lemma_pool_extended(
    vtype: ValueType,
    states: Seq<StdRng>,
    pool: Seq<Vec<u8>>,
    value: Vec<u8>,
    after: StdRng,
)
    requires
        pool_drawn(vtype, states, pool),
        pool_value_run(vtype, states.last(), pool.len(), value@, after),
    ensures
        pool_drawn(vtype, states.push(after), pool.push(value)),
{
    let (s, all) = (states.push(after), pool.push(value));
    assert forall|i: int| 0 <= i < all.len() implies pool_value_run(
        vtype,
        s[i],
        i as nat,
        (#[trigger] all[i])@,
        s[i + 1],
    ) by {
        if i < pool.len() {
            assert(all[i] == pool[i]);
            assert(s[i] == states[i] && s[i + 1] == states[i + 1]);
        }
    }
}

/// Draws a pool of values that are different from each other.
fn draw_pool(vtype: ValueType, count: usize, rng: &mut Generator) -> (r: Vec<Vec<u8>>)
    requires
        old(rng).well_formed(),
    ensures
        final(rng).well_formed(),
        r.len() == count,
        is_pool(vtype, r@),
        vtype is Int32 ==> final(rng)@ == old(rng)@,
        pool_run(vtype, old(rng)@, r@, final(rng)@),
{
    let mut pool: Vec<Vec<u8>> = Vec::new();
    let ghost mut states: Seq<StdRng> = seq![rng@];
    let mut i: usize = 0;
    while i < count
        invariant
            i <= count,
            rng.well_formed(),
            pool.len() == i,
            is_pool(vtype, pool@),
            vtype is Int32 ==> rng@ == old(rng)@,
            pool_drawn(vtype, states, pool@),
            states.first() == old(rng)@,
            states.last() == rng@,
        decreases count - i,
    {
        let ghost before = rng@;
        let value: Vec<u8> = match vtype {
            ValueType::Utf8 => {
                let len: i32 = rng.small(5, 30);
                let ghost mid = rng@;
                let mut suffix: String = String::new();
                append_alphanumeric(&mut suffix, rng, len as usize);
                assert(suffix@.skip(0) =~= suffix@);
                assert(is_suffix(suffix@));
                assert(suffix_run(before, len, mid, suffix@, rng@));
                text_value(i, suffix.as_str()).as_str().as_bytes_vec()
            },
            ValueType::FixedSizeBinary16 => {
                let bytes = rng.bytes(16);
                assert(gave_bytes(before, 16, bytes, rng@));
                let value = binary_value(i, bytes);
                assert(value@.take(4) =~= le_bytes(i as nat));
                value
            },
            ValueType::Int32 => int_value(i),
        };
        assert(is_pool_value(vtype, i as nat, value@));
        proof {
            lemma_pool_extended(vtype, states, pool@, value, rng@);
            states = states.push(rng@);
        }
        pool.push(value);
        i += 1;
    }
    pool
}

/// A pool of values that are different from each other. For numbers nothing is drawn.
pub fn generate_value_pool(vtype: ValueType, count: usize, rng: &mut StdRng) -> (r: Vec<Vec<u8>>)
    ensures
        r.len() == count,
        is_pool(vtype, r@),
        vtype is Int32 ==> *final(rng) == *old(rng),
        pool_run(vtype, *old(rng), r@, *final(rng)),
{
    let mut taken = seeded_rng(BENCH_SEED);
    std::mem::swap(rng, &mut taken);
    let mut generator = Generator::new(taken);
    let pool = draw_pool(vtype, count, &mut generator);
    *rng = generator.into_inner();
    pool
}

// ---- the columns ---------------------------------------------------------------------------

/// The 32-bit integer that four bytes in two's complement stand for.
pub open spec fn signed32(n: nat) -> int {
    if n < 0x8000_0000 {
        n as int
    } else {
        n - 0x1_0000_0000
    }
}

/// The value that the bytes of a pool value stand for.
pub open spec fn value_cell(vtype: ValueType, bytes: Seq<u8>) -> Cell {
    match vtype {
        ValueType::Int32 => Cell::Int(signed32(from_le_bytes(bytes))),
        _ => Cell::Bytes(bytes),
    }
}

/// The values that the bytes of pool values stand for.
pub open spec fn value_cells(vtype: ValueType, values: Seq<Vec<u8>>) -> Seq<Cell> {
    Seq::new(values.len(), |i: int| value_cell(vtype, values[i]@))
}

fn int_of_bytes(b: &Vec<u8>) -> (r: i32)
    requires
        b.len() == 4,
    ensures
        r == signed32(from_le_bytes(b@)),
{
    let n: u64 = b[0] as u64 + 256 * b[1] as u64 + 65536 * b[2] as u64 + 16777216 * b[3] as u64;
    assert(n == from_le_bytes(b@));
    if n < 0x8000_0000 {
        n as i32
    } else {
        (n as i64 - 0x1_0000_0000) as i32
    }
}

/// Whether bytes are a value of some place of the pool.
pub open spec fn from_pool(vtype: ValueType, bytes: Seq<u8>) -> bool {
    exists|i: usize| #[trigger] is_pool_value(vtype, i as nat, bytes)
}

/// A dictionary column of pool values.
fn value_column(vtype: ValueType, ktype: KeyType, values: &Vec<Vec<u8>>) -> (r: ArrowArray)
    requires
        forall|i: int| 0 <= i < values.len() ==> from_pool(vtype, (#[trigger] values[i])@),
        distinct(value_cells(vtype, values@)).len() <= capacity(ktype.index_type()),
    ensures
        is_dictionary(
            r@,
            ktype.index_type(),
            vtype.element_type(),
            value_cells(vtype, values@),
        ),
{
    match vtype {
        ValueType::Utf8 => {
            let mut texts: Vec<String> = Vec::new();
            let mut i: usize = 0;
            while i < values.len()
                invariant
                    i <= values.len(),
                    forall|j: int|
                        0 <= j < values.len() ==> from_pool(
                            ValueType::Utf8,
                            (#[trigger] values[j])@,
                        ),
                    texts.len() == i,
                    forall|j: int|
                        0 <= j < i ==> encode_utf8((#[trigger] texts[j])@) == values[j]@
                            && texts[j]@.len() <= 8191,
                decreases values.len() - i,
            {
                let ghost bytes = values[i as int]@;
                proof {
                    lemma_pool_bytes(bytes);
                }
                let text = text_from_utf8(&values[i]);
                proof {
                    let chars = choose|chars: Seq<char>|
                        bytes == #[trigger] encode_utf8(chars) && chars.len() <= 8191;
                    lemma_utf8_injective(chars, text@);
                }
                texts.push(text);
                i += 1;
            }
            assert(text_cells(texts@) =~= value_cells(vtype, values@));
            match ktype {
                KeyType::UInt8 => text_dictionary_u8(&texts),
                KeyType::UInt16 => text_dictionary_u16(&texts),
            }
        },
        ValueType::FixedSizeBinary16 => {
            proof {
                assert(binary_cells(values@) =~= value_cells(vtype, values@));
                assert forall|i: int| 0 <= i < values.len() implies (
                #[trigger] values[i]).len() == 16 by {
                    assert(from_pool(vtype, values[i]@));
                }
            }
            match ktype {
                KeyType::UInt8 => binary_dictionary_u8(values, 16),
                KeyType::UInt16 => binary_dictionary_u16(values, 16),
            }
        },
        ValueType::Int32 => {
            let mut ints: Vec<i32> = Vec::new();
            let mut i: usize = 0;
            while i < values.len()
                invariant
                    i <= values.len(),
                    forall|j: int|
                        0 <= j < values.len() ==> from_pool(
                            ValueType::Int32,
                            (#[trigger] values[j])@,
                        ),
                    ints.len() == i,
                    forall|j: int|
                        0 <= j < i ==> #[trigger] ints[j] == signed32(from_le_bytes(values[j]@)),
                decreases values.len() - i,
            {
                assert(values[i as int].len() == 4) by {
                    assert(from_pool(ValueType::Int32, values[i as int]@));
                }
                ints.push(int_of_bytes(&values[i]));
                i += 1;
            }
            assert(int32_cells(ints@) =~= value_cells(vtype, values@));
            match ktype {
                KeyType::UInt8 => int32_dictionary_u8(ints),
                KeyType::UInt16 => int32_dictionary_u16(ints),
            }
        },
    }
}

proof fn lemma_pool_bytes(bytes: Seq<u8>)
    requires
        from_pool(ValueType::Utf8, bytes),
    ensures
        vstd::utf8::valid_utf8(bytes),
        exists|chars: Seq<char>|
            bytes == #[trigger] encode_utf8(chars) && chars.len() <= 8191,
{
    let i = choose|i: usize| #[trigger] is_pool_value(ValueType::Utf8, i as nat, bytes);
    let suffix = choose|s: Seq<char>|
        is_suffix(s) && bytes == encode_utf8(#[trigger] pool_text(i as nat, s));
    let chars = pool_text(i as nat, suffix);
    encode_utf8_valid_utf8(chars);
    lemma_decimal_len(i as u64);
    reveal_strlit("val_");
    reveal_strlit("_");
    assert(chars.len() <= 8191);
}

/// Where in the pool the value stands that a batch has at one place: the shared values come
/// first, then the batch's own.
pub open spec fn pool_place(tc: TestCase, b: nat, idx: nat) -> nat {
    if idx < tc.shared_count {
        idx
    } else {
        (tc.shared_count + b * (tc.per_batch_cardinality - tc.shared_count) + (idx
            - tc.shared_count)) as nat
    }
}

/// Whether a column is one that a batch can draw from a pool: each row has a value that the batch
/// chooses from, and the dictionary is made of the distinct ones.
pub open spec fn drawn_column(tc: TestCase, pool: Seq<Vec<u8>>, b: nat, a: ArrayModel) -> bool {
    exists|draws: Seq<usize>|
        {
            &&& draws.len() == tc.rows_per_batch
            &&& forall|r: int|
                0 <= r < draws.len() ==> #[trigger] draws[r] < tc.per_batch_cardinality
            &&& #[trigger] is_drawn(tc, pool, b, draws, a)
        }
}

/// Whether a column is the one that given draws from a pool make.
pub open spec fn is_drawn(
    tc: TestCase,
    pool: Seq<Vec<u8>>,
    b: nat,
    draws: Seq<usize>,
    a: ArrayModel,
) -> bool {
    is_dictionary(
        a,
        tc.key_type.index_type(),
        tc.value_type.element_type(),
        Seq::new(
            draws.len(),
            |r: int|
                value_cell(tc.value_type, pool[pool_place(tc, b, draws[r] as nat) as int]@),
        ),
    )
}

/// Whether a batch is one that can be drawn from a pool.
pub open spec fn drawn_batch(tc: TestCase, pool: Seq<Vec<u8>>, b: nat, batch: Batch) -> bool {
    &&& batch_rows(batch) == tc.rows_per_batch
    &&& batch_columns(batch).len() == 1
    &&& drawn_column(tc, pool, b, batch_columns(batch)[0])
}

/// The fields of a test case's schema: one nullable dictionary column.
pub open spec fn case_fields(tc: TestCase) -> Seq<FieldModel> {
    seq![
        FieldModel {
            name: "col"@,
            ty: ColumnType::Dictionary(
                tc.key_type.index_type(),
                Element::Known(tc.value_type.element_type()),
            ),
            nullable: true,
            metadata: no_metadata(),
        },
    ]
}

/// The values of a batch stand in the pool.
pub proof fn lemma_pool_place(tc: TestCase, b: nat, idx: nat)
    requires
        tc.buildable(),
        b < tc.num_batches,
        idx < tc.per_batch_cardinality,
    ensures
        pool_place(tc, b, idx) < tc.pool_size(),
{
    let unique = (tc.per_batch_cardinality - tc.shared_count) as nat;
    assert(b * unique + unique <= unique * tc.num_batches) by (nonlinear_arith)
        requires
            b + 1 <= tc.num_batches,
    ;
    assert(0 <= b * unique) by (nonlinear_arith);
}

/// Two batches choose from the same values exactly as far as these are shared: a value of one batch
/// is a value of the other only at the same place among the shared ones. With all values shared all
/// batches choose from the same values, with none shared no two batches have one in common.
pub proof fn batches_overlap_in_shared_values(
    tc: TestCase,
    pool: Seq<Vec<u8>>,
    b1: nat,
    i1: nat,
    b2: nat,
    i2: nat,
)
    requires
        tc.buildable(),
        is_pool(tc.value_type, pool),
        pool.len() == tc.pool_size(),
        pool.len() <= 0x1_0000_0000,
        b1 < tc.num_batches,
        b2 < tc.num_batches,
        i1 < tc.per_batch_cardinality,
        i2 < tc.per_batch_cardinality,
    ensures
        pool[pool_place(tc, b1, i1) as int]@ == pool[pool_place(tc, b2, i2) as int]@ <==> i1 == i2
            && (b1 == b2 || i1 < tc.shared_count),
{
    let p1 = pool_place(tc, b1, i1);
    let p2 = pool_place(tc, b2, i2);
    lemma_pool_place(tc, b1, i1);
    lemma_pool_place(tc, b2, i2);
    let own = tc.per_batch_cardinality - tc.shared_count;
    if p1 == p2 && i1 >= tc.shared_count {
        assert(0 <= b1 * own && 0 <= b2 * own) by (nonlinear_arith)
            requires
                own >= 0,
        ;
        if b1 < b2 {
            assert(b1 * own + own <= b2 * own) by (nonlinear_arith)
                requires
                    b1 + 1 <= b2,
                    own >= 0,
            ;
        } else if b2 < b1 {
            assert(b2 * own + own <= b1 * own) by (nonlinear_arith)
                requires
                    b2 + 1 <= b1,
                    own >= 0,
            ;
        }
    }
    if p1 == p2 && i1 < tc.shared_count && i2 >= tc.shared_count {
        assert(0 <= b2 * own) by (nonlinear_arith)
            requires
                own >= 0,
        ;
    }
    if p1 != p2 {
        pool_values_are_unique(
            tc.value_type,
            p1,
            p2,
            pool[p1 as int]@,
            pool[p2 as int]@,
        );
    }
}

/// Makes the column of one batch of the choices that were drawn.
pub fn case_column(tc: &TestCase, pool: &Vec<Vec<u8>>, b: usize, draws: &Vec<usize>) -> (r:
    ArrowArray)
    requires
        tc.buildable(),
        pool.len() == tc.pool_size(),
        is_pool(tc.value_type, pool@),
        b < tc.num_batches,
        draws.len() == tc.rows_per_batch,
        forall|r: int| 0 <= r < draws.len() ==> #[trigger] draws[r] < tc.per_batch_cardinality,
    ensures
        is_drawn(*tc, pool@, b as nat, draws@, r@),
{
    let unique_per_batch: usize = tc.per_batch_cardinality - tc.shared_count;
    let mut values: Vec<Vec<u8>> = Vec::new();
    let mut row: usize = 0;
    while row < draws.len()
        invariant
            row <= draws.len(),
            tc.buildable(),
            pool.len() == tc.pool_size(),
            is_pool(tc.value_type, pool@),
            b < tc.num_batches,
            unique_per_batch == tc.per_batch_cardinality - tc.shared_count,
            forall|r: int|
                0 <= r < draws.len() ==> #[trigger] draws[r] < tc.per_batch_cardinality,
            values.len() == row,
            forall|r: int|
                0 <= r < values.len() ==> (#[trigger] values[r])@ == pool[pool_place(
                    *tc,
                    b as nat,
                    draws[r] as nat,
                ) as int]@,
            forall|r: int| 0 <= r < values.len() ==> from_pool(tc.value_type, (#[trigger] values[r])@),
        decreases draws.len() - row,
    {
        let idx: usize = draws[row];
        proof {
            lemma_pool_place(*tc, b as nat, idx as nat);
        }
        let place: usize = if idx < tc.shared_count {
            idx
        } else {
            proof {
                assert(b * unique_per_batch <= usize::MAX) by {
                    assert(pool_place(*tc, b as nat, idx as nat) <= usize::MAX);
                    assert(0 <= b * unique_per_batch) by (nonlinear_arith);
                }
            }
            tc.shared_count + b * unique_per_batch + (idx - tc.shared_count)
        };
        let value: Vec<u8> = pool[place].clone();
        assert(value@ =~= pool[place as int]@);
        assert(from_pool(tc.value_type, value@)) by {
            assert(is_pool_value(tc.value_type, place as nat, pool[place as int]@));
        }
        values.push(value);
        row += 1;
    }
    proof {
        let cells = value_cells(tc.value_type, values@);
        lemma_distinct(cells);
        let choices = Seq::new(
            tc.per_batch_cardinality as nat,
            |i: int|
                value_cell(tc.value_type, pool[pool_place(*tc, b as nat, i as nat) as int]@),
        );
        assert forall|r: int| 0 <= r < cells.len() implies choices.contains(#[trigger] cells[r]) by {
            assert(values[r]@ == pool[pool_place(*tc, b as nat, draws[r] as nat) as int]@);
            assert(choices[draws[r] as int] == cells[r]);
        }
        lemma_distinct_in_pool(cells, choices);
        assert(cells =~= Seq::new(
            draws@.len(),
            |r: int|
                value_cell(
                    tc.value_type,
                    pool[pool_place(*tc, b as nat, draws[r] as nat) as int]@,
                ),
        ));
    }
    value_column(tc.value_type, tc.key_type, &values)
}

/// Whether a batch is the one that the numbers make that a generator gives for it.
pub open spec fn drawn_case_batch(
    before: StdRng,
    tc: TestCase,
    pool: Seq<Vec<u8>>,
    b: nat,
    batch: Batch,
    after: StdRng,
) -> bool {
    exists|draws: Seq<usize>|
        {
            &&& #[trigger] belows_run(before, tc.per_batch_cardinality, draws, after)
            &&& draws.len() == tc.rows_per_batch
            &&& batch_rows(batch) == tc.rows_per_batch
            &&& batch_columns(batch).len() == 1
            &&& is_drawn(tc, pool, b, draws, batch_columns(batch)[0])
        }
}

/// Whether batches are those that the generator of the seed makes, one after the other, after a pool
/// of values.
pub open spec fn case_run(
    tc: TestCase,
    start: StdRng,
    pool: Seq<Vec<u8>>,
    batches: Seq<Batch>,
    states: Seq<StdRng>,
) -> bool {
    &&& seeded(BENCH_SEED, start)
    &&& pool.len() == tc.pool_size()
    &&& pool_run(tc.value_type, start, pool, states[0])
    &&& states.len() == batches.len() + 1
    &&& forall|b: int|
        0 <= b < batches.len() ==> drawn_case_batch(
            states[b],
            tc,
            pool,
            b as nat,
            #[trigger] batches[b],
            states[b + 1],
        )
}

/// One more batch goes on where the batches before it end.
proof fn lemma_case_extended(
    tc: TestCase,
    start: StdRng,
    pool: Seq<Vec<u8>>,
    batches: Seq<Batch>,
    states: Seq<StdRng>,
    batch: Batch,
    after: StdRng,
)
    requires
        case_run(tc, start, pool, batches, states),
        drawn_case_batch(states.last(), tc, pool, batches.len(), batch, after),
    ensures
        case_run(tc, start, pool, batches.push(batch), states.push(after)),
{
    let (all, s) = (batches.push(batch), states.push(after));
    assert forall|b: int| 0 <= b < all.len() implies drawn_case_batch(
        s[b],
        tc,
        pool,
        b as nat,
        #[trigger] all[b],
        s[b + 1],
    ) by {
        if b < batches.len() {
            assert(all[b] == batches[b]);
            assert(s[b] == states[b] && s[b + 1] == states[b + 1]);
        }
    }
}

/// Draws the column of one batch.
fn draw_column(tc: &TestCase, pool: &Vec<Vec<u8>>, b: usize, rng: &mut Generator) -> (r: (
    ArrowArray,
    Ghost<Seq<usize>>,
))
    requires
        old(rng).well_formed(),
        tc.buildable(),
        pool.len() == tc.pool_size(),
        is_pool(tc.value_type, pool@),
        b < tc.num_batches,
    ensures
        final(rng).well_formed(),
        belows_run(old(rng)@, tc.per_batch_cardinality, r.1@, final(rng)@),
        r.1@.len() == tc.rows_per_batch,
        is_drawn(*tc, pool@, b as nat, r.1@, r.0@),
        drawn_column(*tc, pool@, b as nat, r.0@),
        r.0@.cells.len() == tc.rows_per_batch,
        r.0@.dictionary.len() <= tc.rows_per_batch,
        r.0@.ty == ColumnType::Dictionary(
            tc.key_type.index_type(),
            Element::Known(tc.value_type.element_type()),
        ),
{
    let draws = draw_belows(rng, tc.per_batch_cardinality, tc.rows_per_batch);
    let column = case_column(tc, pool, b, &draws);
    proof {
        assert(is_drawn(*tc, pool@, b as nat, draws@, column@));
        lemma_distinct(column@.cells);
    }
    (column, Ghost(draws@))
}

/// Dictionaries that are no longer than the rows of their batches have together at most as many
/// values as there are rows, column by column.
pub proof fn lemma_total_bound(
    fields: Seq<FieldModel>,
    batches: Seq<Batch>,
    rows: nat,
    n: nat,
)
    requires
        n <= fields.len(),
        forall|b: int, c: int|
            0 <= b < batches.len() && 0 <= c < fields.len() && fields[c].ty is Dictionary ==> (
            #[trigger] batch_columns(batches[b])[c]).dictionary.len() <= rows,
    ensures
        total_lens(fields, batches, n) <= n * (batches.len() * rows),
    decreases n,
{
    if n > 0 {
        let c = n - 1;
        lemma_total_bound(fields, batches, rows, c as nat);
        let column = column_of(batches, c);
        if fields[c].ty is Dictionary {
            assert forall|b: int| 0 <= b < column.len() implies (
            #[trigger] column[b]).dictionary.len() <= rows by {
                assert(column[b] == batch_columns(batches[b])[c]);
            }
            lemma_dictionaries_bound(column, rows);
        }
        let area = batches.len() * rows;
        assert(c * area + area == n * area) by (nonlinear_arith)
            requires
                c + 1 == n,
        ;
        assert(0 <= area) by (nonlinear_arith)
            requires
                area == batches.len() * rows,
        ;
    } else {
        assert(0 * (batches.len() * rows) == 0);
    }
}

/// Dictionaries of a bounded length have together at most so many times that length.
pub proof fn lemma_dictionaries_bound(column: Seq<ArrayModel>, rows: nat)
    requires
        forall|b: int| 0 <= b < column.len() ==> (#[trigger] column[b]).dictionary.len() <= rows,
    ensures
        dictionaries(column).len() <= column.len() * rows,
    decreases column.len(),
{
    if column.len() > 0 {
        let before = column.drop_last();
        assert forall|b: int| 0 <= b < before.len() implies (
        #[trigger] before[b]).dictionary.len() <= rows by {
            assert(before[b] == column[b]);
        }
        lemma_dictionaries_bound(before, rows);
        assert(column[column.len() - 1].dictionary.len() <= rows);
        assert(before.len() * rows + rows == column.len() * rows) by (nonlinear_arith)
            requires
                before.len() + 1 == column.len(),
        ;
    } else {
        assert(0 * rows == 0);
    }
}

/// What is enough for batches to conform: each has the columns of the schema, all dictionaries can
/// be read and are no longer than the rows, and all rows of all columns can be counted.
pub proof fn lemma_conforming(fields: Seq<FieldModel>, batches: Seq<Batch>, rows: nat)
    requires
        forall|c: int|
            0 <= c < fields.len() ==> ((#[trigger] fields[c]).ty matches ColumnType::Dictionary(
                k,
                e,
            ) ==> constructible(e) && !(e is Nested) && supported(k)),
        forall|b: int|
            0 <= b < batches.len() ==> batch_columns(#[trigger] batches[b]).len() == fields.len(),
        forall|b: int, c: int|
            0 <= b < batches.len() && 0 <= c < fields.len() ==> {
                &&& (#[trigger] batch_columns(batches[b])[c]).ty == fields[c].ty
                &&& fields[c].ty is Dictionary ==> batch_columns(batches[b])[c].dictionary.len()
                    <= rows
            },
        fields.len() * (batches.len() * rows) <= usize::MAX,
    ensures
        conforming(fields, batches),
{
    lemma_total_bound(fields, batches, rows, fields.len());
}

/// Builds the batches of a test case, all from one pool of values. The batches can be unified.
pub fn build_test_batches(tc: &TestCase) -> (r: Result<(Arc<Schema>, Vec<Batch>), ArrowError>)
    requires
        tc.buildable(),
    ensures
        r is Ok,
        r matches Ok((schema, batches)) ==> {
            &&& schema_fields(*schema) == case_fields(*tc)
            &&& schema_metadata(*schema) == no_metadata()
            &&& batches.len() == tc.num_batches
            &&& exists|pool: Seq<Vec<u8>>|
                {
                    &&& pool.len() == tc.pool_size()
                    &&& #[trigger] is_pool(tc.value_type, pool)
                    &&& forall|b: int|
                        0 <= b < batches.len() ==> drawn_batch(
                            *tc,
                            pool,
                            b as nat,
                            #[trigger] batches[b],
                        )
                }
            &&& conforming(schema_fields(*schema), batches@)
            &&& exists|start: StdRng, pool: Seq<Vec<u8>>, states: Seq<StdRng>| #[trigger]
                case_run(*tc, start, pool, batches@, states)
        },
{
    let mut builder = new_schema();
    push_dictionary_field(
        &mut builder,
        "col",
        tc.key_type.to_arrow(),
        tc.value_type.element(),
        true,
    );
    let schema: Arc<Schema> = finish_schema(builder);
    proof {
        assert(schema_fields(*schema) =~= case_fields(*tc));
    }
    let total_unique: usize = match total_possible(
        tc.num_batches,
        tc.per_batch_cardinality,
        tc.shared_count,
    ) {
        Some(n) => n,
        None => 0,
    };
    let mut rng = Generator::from_seed(BENCH_SEED);
    let ghost start = rng@;
    let pool = draw_pool(tc.value_type, total_unique, &mut rng);
    let ghost mut states: Seq<StdRng> = seq![rng@];
    let mut batches: Vec<Batch> = Vec::new();
    let mut b: usize = 0;
    while b < tc.num_batches
        invariant
            b <= tc.num_batches,
            tc.buildable(),
            schema_fields(*schema) == case_fields(*tc),
            pool.len() == tc.pool_size(),
            is_pool(tc.value_type, pool@),
            rng.well_formed(),
            case_run(*tc, start, pool@, batches@, states),
            states.last() == rng@,
            batches.len() == b,
            forall|i: int|
                0 <= i < b ==> drawn_batch(*tc, pool@, i as nat, #[trigger] batches[i]),
            forall|i: int|
                0 <= i < b ==> {
                    &&& batch_columns(#[trigger] batches[i])[0].ty == case_fields(*tc)[0].ty
                    &&& batch_columns(batches[i])[0].dictionary.len() <= tc.rows_per_batch
                },
        decreases tc.num_batches - b,
    {
        let (column, draws) = draw_column(tc, &pool, b, &mut rng);
        let mut columns: Vec<ArrowArray> = Vec::new();
        columns.push(column);
        let ghost contents = contents_of(columns@);
        proof {
            assert(contents.len() == 1);
            assert(contents[0] == column@);
            assert(fits_schema(schema_fields(*schema), contents));
        }
        match new_batch(&schema, columns) {
            Ok(batch) => {
                proof {
                    assert(batch_columns(batch)[0] == column@);
                    assert(belows_run(states.last(), tc.per_batch_cardinality, draws@, rng@));
                    lemma_case_extended(*tc, start, pool@, batches@, states, batch, rng@);
                    states = states.push(rng@);
                }
                batches.push(batch);
            },
            Err(error) => {
                return Err(error);
            },
        }
        b += 1;
    }
    proof {
        let fields = case_fields(*tc);
        assert forall|i: int, c: int| 0 <= i < batches@.len() && 0 <= c < fields.len() implies {
            &&& (#[trigger] batch_columns(batches@[i])[c]).ty == fields[c].ty
            &&& fields[c].ty is Dictionary ==> batch_columns(batches@[i])[c].dictionary.len()
                <= tc.rows_per_batch
        } by {
            assert(batch_columns(batches[i])[0].ty == case_fields(*tc)[0].ty);
        }
        assert forall|i: int| 0 <= i < batches@.len() implies batch_columns(
            #[trigger] batches@[i],
        ).len() == fields.len() by {
            assert(drawn_batch(*tc, pool@, i as nat, batches[i]));
        }
        assert(1 * (batches@.len() * tc.rows_per_batch) == tc.num_batches * tc.rows_per_batch);
        lemma_conforming(fields, batches@, tc.rows_per_batch as nat);
        assert(conforming(fields, batches@));
    }
    Ok((schema, batches))
}

} // verus!
