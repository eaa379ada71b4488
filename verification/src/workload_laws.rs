//! What holds of the batches of every test case.

use vstd::prelude::*;
use vstd::utf8::encode_utf8;

use crate::arrow::{batch_columns, Batch};
use crate::building::{distinct, lemma_distinct, lemma_distinct_in_pool};
use crate::entries::dictionaries;
use crate::feasible::{brief, brief_batch, modest_field, short};
use crate::model::{ArrayModel, Cell};
use crate::text::{from_le_bytes, lemma_decimal_len, lemma_utf8_len};
use crate::unification::column_of;
use crate::workload::{
    batches_overlap_in_shared_values, case_fields, drawn_batch, drawn_column, is_drawn, is_pool,
    is_pool_value, is_suffix, lemma_pool_place, pool_place, pool_text, value_cell,
    TestCase, ValueType,
};

verus! {

/// The values that a batch chooses from.
pub open spec fn choices(tc: TestCase, pool: Seq<Vec<u8>>, b: nat) -> Seq<Cell> {
    Seq::new(
        tc.per_batch_cardinality as nat,
        |i: int| value_cell(tc.value_type, pool[pool_place(tc, b, i as nat) as int]@),
    )
}

/// Each value of a column is one that its batch chooses from.
proof fn lemma_chosen(tc: TestCase, pool: Seq<Vec<u8>>, b: nat, a: ArrayModel)
    requires
        drawn_column(tc, pool, b, a),
    ensures
        forall|r: int| 0 <= r < a.cells.len() ==> choices(tc, pool, b).contains(#[trigger] a.cells[r]),
        a.dictionary == distinct(a.cells),
        a.cells.len() == tc.rows_per_batch,
{
    let draws = choose|draws: Seq<usize>|
        {
            &&& draws.len() == tc.rows_per_batch
            &&& forall|r: int|
                0 <= r < draws.len() ==> #[trigger] draws[r] < tc.per_batch_cardinality
            &&& #[trigger] is_drawn(tc, pool, b, draws, a)
        };
    assert forall|r: int| 0 <= r < a.cells.len() implies choices(tc, pool, b).contains(
        #[trigger] a.cells[r],
    ) by {
        assert(draws[r] < tc.per_batch_cardinality);
        assert(choices(tc, pool, b)[draws[r] as int] == a.cells[r]);
    }
}

/// The dictionary of a batch has at most as many values as the batch chooses from.
pub proof fn batch_has_few_values(tc: TestCase, pool: Seq<Vec<u8>>, b: nat, batch: Batch)
    requires
        drawn_batch(tc, pool, b, batch),
    ensures
        batch_columns(batch)[0].dictionary.len() <= tc.per_batch_cardinality,
{
    let a = batch_columns(batch)[0];
    lemma_chosen(tc, pool, b, a);
    lemma_distinct_in_pool(a.cells, choices(tc, pool, b));
}

/// The values that two dictionaries have in common.
pub open spec fn common(a: Seq<Cell>, b: Seq<Cell>) -> Set<Cell> {
    a.to_set().intersect(b.to_set())
}

/// Pool values of one type that stand for one value have the same bytes.
proof fn lemma_value_cell(vtype: ValueType, i: nat, j: nat, a: Seq<u8>, b: Seq<u8>)
    requires
        is_pool_value(vtype, i, a),
        is_pool_value(vtype, j, b),
        value_cell(vtype, a) == value_cell(vtype, b),
    ensures
        a == b,
{
    if vtype is Int32 {
        assert(a.len() == 4 && b.len() == 4);
        let (a0, a1, a2, a3) = (a[0] as int, a[1] as int, a[2] as int, a[3] as int);
        let (b0, b1, b2, b3) = (b[0] as int, b[1] as int, b[2] as int, b[3] as int);
        assert(from_le_bytes(a) == a0 + 256 * a1 + 65536 * a2 + 16777216 * a3);
        assert(from_le_bytes(b) == b0 + 256 * b1 + 65536 * b2 + 16777216 * b3);
        assert(from_le_bytes(a) == from_le_bytes(b));
        lemma_same_digits(a0, a1, a2, a3, b0, b1, b2, b3);
        assert(a =~= b);
    }
}

/// Numbers with four digits to the base 256 are the same only where their digits are.
proof fn lemma_same_digits(
    a0: int,
    a1: int,
    a2: int,
    a3: int,
    b0: int,
    b1: int,
    b2: int,
    b3: int,
)
    requires
        0 <= a0 < 256,
        0 <= a1 < 256,
        0 <= a2 < 256,
        0 <= a3 < 256,
        0 <= b0 < 256,
        0 <= b1 < 256,
        0 <= b2 < 256,
        0 <= b3 < 256,
        a0 + 256 * a1 + 65536 * a2 + 16777216 * a3 == b0 + 256 * b1 + 65536 * b2 + 16777216 * b3,
    ensures
        a0 == b0,
        a1 == b1,
        a2 == b2,
        a3 == b3,
{
    assert(a3 == b3);
    assert(a2 == b2);
    assert(a1 == b1);
}

/// The dictionaries of two batches have at most the shared values in common, as long as there are
/// no more values than thirty-two bits count.
pub proof fn batches_share_few_values(
    tc: TestCase,
    pool: Seq<Vec<u8>>,
    b1: nat,
    b2: nat,
    first: Batch,
    second: Batch,
)
    requires
        tc.buildable(),
        is_pool(tc.value_type, pool),
        pool.len() == tc.pool_size(),
        pool.len() <= 0x1_0000_0000,
        b1 < tc.num_batches,
        b2 < tc.num_batches,
        b1 != b2,
        drawn_batch(tc, pool, b1, first),
        drawn_batch(tc, pool, b2, second),
    ensures
        common(batch_columns(first)[0].dictionary, batch_columns(second)[0].dictionary).finite(),
        common(batch_columns(first)[0].dictionary, batch_columns(second)[0].dictionary).len()
            <= tc.shared_count,
{
    let x = batch_columns(first)[0];
    let y = batch_columns(second)[0];
    let both = common(x.dictionary, y.dictionary);
    let shared = choices(tc, pool, b1).take(tc.shared_count as int);
    lemma_chosen(tc, pool, b1, x);
    lemma_chosen(tc, pool, b2, y);
    lemma_distinct(x.cells);
    lemma_distinct(y.cells);
    assert forall|cell: Cell| both.contains(cell) implies shared.to_set().contains(cell) by {
        assert(x.dictionary.contains(cell));
        assert(y.dictionary.contains(cell));
        let v = choose|v: int| 0 <= v < x.dictionary.len() && x.dictionary[v] == cell;
        let w = choose|w: int| 0 <= w < y.dictionary.len() && y.dictionary[w] == cell;
        assert(x.cells.contains(x.dictionary[v]));
        assert(y.cells.contains(y.dictionary[w]));
        let r1 = choose|r: int| 0 <= r < x.cells.len() && x.cells[r] == cell;
        let r2 = choose|r: int| 0 <= r < y.cells.len() && y.cells[r] == cell;
        assert(choices(tc, pool, b1).contains(x.cells[r1]));
        assert(choices(tc, pool, b2).contains(y.cells[r2]));
        let own1 = choices(tc, pool, b1);
        let own2 = choices(tc, pool, b2);
        let i1 = choose|i: int| 0 <= i < own1.len() && own1[i] == cell;
        let i2 = choose|i: int| 0 <= i < own2.len() && own2[i] == cell;
        let p1 = pool_place(tc, b1, i1 as nat);
        let p2 = pool_place(tc, b2, i2 as nat);
        lemma_pool_place(tc, b1, i1 as nat);
        lemma_pool_place(tc, b2, i2 as nat);
        assert(is_pool_value(tc.value_type, p1, pool[p1 as int]@));
        assert(is_pool_value(tc.value_type, p2, pool[p2 as int]@));
        lemma_value_cell(tc.value_type, p1, p2, pool[p1 as int]@, pool[p2 as int]@);
        batches_overlap_in_shared_values(tc, pool, b1, i1 as nat, b2, i2 as nat);
        assert(shared[i1] == cell);
    }
    vstd::seq_lib::seq_to_set_is_finite(shared);
    shared.lemma_cardinality_of_set();
    vstd::set_lib::lemma_len_subset(both, shared.to_set());
}

/// All batches together have at most as many values as the pool.
pub proof fn all_batches_have_few_values(
    tc: TestCase,
    pool: Seq<Vec<u8>>,
    batches: Seq<Batch>,
)
    requires
        tc.buildable(),
        pool.len() == tc.pool_size(),
        batches.len() <= tc.num_batches,
        forall|b: int|
            0 <= b < batches.len() ==> drawn_batch(tc, pool, b as nat, #[trigger] batches[b]),
    ensures
        distinct(dictionaries(column_of(batches, 0))).len() <= tc.pool_size(),
{
    let column = column_of(batches, 0);
    let values = Seq::new(pool.len(), |i: int| value_cell(tc.value_type, pool[i]@));
    lemma_all_from_pool(tc, pool, column, values);
    lemma_distinct_in_pool(dictionaries(column), values);
}

proof fn lemma_all_from_pool(
    tc: TestCase,
    pool: Seq<Vec<u8>>,
    column: Seq<ArrayModel>,
    values: Seq<Cell>,
)
    requires
        tc.buildable(),
        pool.len() == tc.pool_size(),
        column.len() <= tc.num_batches,
        forall|b: int|
            0 <= b < column.len() ==> drawn_column(tc, pool, b as nat, #[trigger] column[b]),
        values == Seq::new(pool.len(), |i: int| value_cell(tc.value_type, pool[i]@)),
    ensures
        forall|i: int|
            0 <= i < dictionaries(column).len() ==> values.contains(
                #[trigger] dictionaries(column)[i],
            ),
    decreases column.len(),
{
    if column.len() > 0 {
        let before = column.drop_last();
        let b = column.len() - 1;
        let last = column[b];
        assert forall|k: int| 0 <= k < before.len() implies drawn_column(
            tc,
            pool,
            k as nat,
            #[trigger] before[k],
        ) by {
            assert(before[k] == column[k]);
        }
        lemma_all_from_pool(tc, pool, before, values);
        lemma_chosen(tc, pool, b as nat, last);
        lemma_distinct(last.cells);
        assert forall|i: int| 0 <= i < dictionaries(column).len() implies values.contains(
            #[trigger] dictionaries(column)[i],
        ) by {
            let n = dictionaries(before).len();
            if i < n {
                assert(dictionaries(column)[i] == dictionaries(before)[i]);
            } else {
                let cell = last.dictionary[i - n];
                assert(last.cells.contains(cell));
                let r = choose|r: int| 0 <= r < last.cells.len() && last.cells[r] == cell;
                assert(choices(tc, pool, b as nat).contains(last.cells[r]));
                let own = choices(tc, pool, b as nat);
                let k = choose|k: int| 0 <= k < own.len() && own[k] == cell;
                lemma_pool_place(tc, b as nat, k as nat);
                assert(values[pool_place(tc, b as nat, k as nat) as int] == cell);
            }
        }
    }
}

/// The field of a test case has a short name, and a type that a reader takes.
pub proof fn lemma_case_modest(tc: TestCase)
    ensures
        case_fields(tc).len() == 1,
        modest_field(case_fields(tc)[0]),
{
    reveal_strlit("col");
}

/// The column of a batch of a test case holds short values.
pub proof fn lemma_case_brief(tc: TestCase, pool: Seq<Vec<u8>>, b: nat, batch: Batch)
    requires
        tc.buildable(),
        is_pool(tc.value_type, pool),
        pool.len() == tc.pool_size(),
        b < tc.num_batches,
        drawn_batch(tc, pool, b, batch),
    ensures
        brief_batch(case_fields(tc), tc.rows_per_batch as nat, batch),
{
    let a = batch_columns(batch)[0];
    lemma_chosen(tc, pool, b, a);
    lemma_distinct(a.cells);
    assert forall|r: int| 0 <= r < a.cells.len() implies short(#[trigger] a.cells[r]) by {
        assert(choices(tc, pool, b).contains(a.cells[r]));
        let own = choices(tc, pool, b);
        let i = choose|i: int| 0 <= i < own.len() && own[i] == a.cells[r];
        let p = pool_place(tc, b, i as nat);
        lemma_pool_place(tc, b, i as nat);
        let bytes = pool[p as int]@;
        assert(is_pool_value(tc.value_type, p, bytes));
        if tc.value_type is Utf8 {
            let suffix = choose|suffix: Seq<char>|
                is_suffix(suffix) && bytes == encode_utf8(#[trigger] pool_text(p, suffix));
            reveal_strlit("val_");
            reveal_strlit("_");
            lemma_decimal_len(p as u64);
            lemma_utf8_len(pool_text(p, suffix));
        }
    }
    assert(brief(a));
}

/// The pool of a test case has the shared values once, and for each batch the values that are its
/// own.
pub proof fn pool_has_shared_and_own_values(tc: TestCase)
    requires
        tc.shared_count <= tc.per_batch_cardinality,
    ensures
        tc.pool_size() == tc.shared_count + tc.num_batches * (tc.per_batch_cardinality
            - tc.shared_count),
        tc.shared_count == tc.per_batch_cardinality ==> tc.pool_size() == tc.per_batch_cardinality,
        tc.shared_count == 0 ==> tc.pool_size() == tc.num_batches * tc.per_batch_cardinality,
{
    let own = tc.per_batch_cardinality - tc.shared_count;
    assert(own * tc.num_batches == tc.num_batches * own) by (nonlinear_arith);
    if own == 0 {
        assert(tc.num_batches * own == 0) by (nonlinear_arith)
            requires
                own == 0,
        ;
    }
}

} // verus!
