//! Values that hold further values: which types of them can be handled, and how much they hold.

use arrow_schema::Schema;
use vstd::prelude::*;

use crate::arrow::{
    array_len, bulk_within, child_arrays, constructible, element_type, kept_bytes, kind_of,
    schema_fields, type_kind, types_within, workable, ArrowArray, MOST_KINDS,
};
use crate::entries::{all_entries, entries, firsts, has_key, widths_of, Entry};
use crate::model::{sum_of, ArrayModel, Element, ElementType, Kind};
use crate::unification::bulks;

verus! {

/// A sum of numbers is that of their first part and of the rest.
pub proof fn lemma_sum_joined(a: Seq<nat>, b: Seq<nat>)
    ensures
        sum_of(a + b) == sum_of(a) + sum_of(b),
    decreases b.len(),
{
    if b.len() > 0 {
        lemma_sum_joined(a, b.drop_last());
        assert((a + b).drop_last() =~= a + b.drop_last());
    } else {
        assert(a + b =~= a);
    }
}

/// The distinct values keep no more than all values.
pub proof fn lemma_firsts_keep_less(s: Seq<Entry>)
    ensures
        sum_of(widths_of(firsts(s))) <= sum_of(widths_of(s)),
    decreases s.len(),
{
    if s.len() > 0 {
        let d = s.drop_last();
        let f = firsts(d);
        lemma_firsts_keep_less(d);
        assert(widths_of(s).drop_last() =~= widths_of(d));
        if !has_key(f, s.last().key) {
            assert(widths_of(firsts(s)).drop_last() =~= widths_of(f));
        }
    } else {
        assert(widths_of(firsts(s)) =~= widths_of(s));
    }
}

/// One more array adds what its values keep.
pub proof fn lemma_bulk_step(column: Seq<ArrayModel>, b: int)
    requires
        0 <= b < column.len(),
        column[b].widths.len() == column[b].dictionary.len(),
        sum_of(column[b].widths) <= column[b].bulk,
        sum_of(widths_of(all_entries(column.take(b)))) <= bulks(column.take(b)),
    ensures
        sum_of(widths_of(all_entries(column.take(b + 1)))) <= bulks(column.take(b + 1)),
{
    let before = all_entries(column.take(b));
    let here = entries(column[b]);
    assert(column.take(b + 1).drop_last() =~= column.take(b));
    assert(widths_of(here) =~= column[b].widths);
    assert(widths_of(before + here) =~= widths_of(before) + widths_of(here));
    lemma_sum_joined(widths_of(before), widths_of(here));
}

/// One array has no more than all of a column.
pub proof fn lemma_bulk_of_one(column: Seq<ArrayModel>, b: int)
    requires
        0 <= b < column.len(),
    ensures
        column[b].bulk <= bulks(column),
    decreases column.len(),
{
    if b < column.len() - 1 {
        lemma_bulk_of_one(column.drop_last(), b);
    }
}

/// Fewer arrays of a column have no more than all.
pub proof fn lemma_bulks_grow(column: Seq<ArrayModel>, n: int)
    requires
        0 <= n <= column.len(),
    ensures
        bulks(column.take(n)) <= bulks(column),
    decreases column.len() - n,
{
    if n < column.len() {
        lemma_bulks_grow(column, n + 1);
        assert(column.take(n + 1).drop_last() =~= column.take(n));
    } else {
        assert(column.take(n) =~= column);
    }
}

proof fn lemma_bulk_within_grows(arrays: Seq<ArrowArray>, n: int)
    requires
        0 <= n <= arrays.len(),
    ensures
        bulk_within(arrays.take(n)) <= bulk_within(arrays),
    decreases arrays.len() - n,
{
    if n < arrays.len() {
        lemma_bulk_within_grows(arrays, n + 1);
        assert(arrays.take(n + 1).drop_last() =~= arrays.take(n));
    } else {
        assert(arrays.take(n) =~= arrays);
    }
}

/// How many positions the arrays in an array have, and how many bytes they keep that are counted
/// with 32-bit offsets; none where that cannot be counted.
pub fn bulk_of(array: &ArrowArray) -> (r: Option<usize>)
    requires
        array@.ty is Plain,
        constructible(array@.ty.element()),
    ensures
        match r {
            Some(n) => n == array@.bulk,
            None => array@.bulk > usize::MAX,
        },
    decreases array@.depth,
{
    let arrays = child_arrays(array);
    let mut sum: usize = kept_bytes(array);
    let mut i: usize = 0;
    assert(arrays@.take(0) =~= Seq::<ArrowArray>::empty());
    while i < arrays.len()
        invariant
            i <= arrays.len(),
            array@.bulk == array@.stock + bulk_within(arrays@),
            sum == array@.stock + bulk_within(arrays@.take(i as int)),
            forall|k: int|
                0 <= k < arrays.len() ==> {
                    &&& (#[trigger] arrays[k])@.ty is Plain
                    &&& constructible(arrays[k]@.ty.element())
                    &&& arrays[k]@.depth < array@.depth
                },
        decreases arrays.len() - i,
    {
        proof {
            lemma_bulk_within_grows(arrays@, i + 1);
            assert(arrays@.take(i + 1).drop_last() =~= arrays@.take(i as int));
        }
        let positions: usize = array_len(&arrays[i]);
        let below: usize = match bulk_of(&arrays[i]) {
            Some(n) => n,
            None => {
                return None;
            },
        };
        sum = match sum.checked_add(positions) {
            Some(s) => match s.checked_add(below) {
                Some(s) => s,
                None => {
                    return None;
                },
            },
            None => {
                return None;
            },
        };
        i += 1;
    }
    assert(arrays@.take(i as int) =~= arrays@);
    Some(sum)
}

/// Whether a type of a kind can be joined, cast and shown: see [`workable`].
fn is_workable(kind: Kind) -> (r: bool)
    ensures
        r == workable(kind),
{
    match kind {
        Kind::SizedBinary(n) => n >= 0,
        Kind::SizedList(n) => n >= 0,
        Kind::Single => true,
        Kind::Null => true,
        Kind::List => true,
        Kind::LargeList => true,
        Kind::Struct => true,
        _ => false,
    }
}

/// Whether the values of a column are of a type that is not listed and whose values hold no further
/// values.
pub(crate) fn single_valued(schema: &Schema, c: usize) -> (r: bool)
    requires
        c < schema_fields(*schema).len(),
    ensures
        r == (schema_fields(*schema)[c as int].ty.element() is Single),
{
    if element_type(schema, c).is_some() {
        return false;
    }
    let types = types_within(schema, c);
    kind_of(&types[0]) == Kind::Single
}

/// Whether the type of the values of a column has arrays that can be joined, cast and shown: see
/// [`constructible`].
pub(crate) fn can_construct(schema: &Schema, c: usize) -> (r: bool)
    requires
        c < schema_fields(*schema).len(),
    ensures
        r == constructible(schema_fields(*schema)[c as int].ty.element()),
{
    match element_type(schema, c) {
        Some(ElementType::FixedSizeBinary(n)) => {
            return n >= 0;
        },
        Some(_) => {
            return true;
        },
        None => {},
    }
    if single_valued(schema, c) {
        return true;
    }
    let types = types_within(schema, c);
    let ghost element = schema_fields(*schema)[c as int].ty.element();
    assert(element is Nested);
    if types.len() > MOST_KINDS {
        return false;
    }
    let mut k: usize = 0;
    while k < types.len()
        invariant
            k <= types.len(),
            element == schema_fields(*schema)[c as int].ty.element(),
            types.len() <= MOST_KINDS,
            element matches Element::Nested(_, kinds) && {
                &&& types.len() == kinds.len()
                &&& forall|j: int|
                    0 <= j < types.len() ==> type_kind(#[trigger] types[j])
                        == kinds[j]
                &&& forall|j: int| 0 <= j < k ==> workable(#[trigger] kinds[j])
                &&& forall|j: int| 0 < j < k ==> #[trigger] kinds[j] != Kind::Null
            },
        decreases types.len() - k,
    {
        let kind: Kind = kind_of(&types[k]);
        proof {
            assert(type_kind(types[k as int]) == element->Nested_1[k as int]);
        }
        if !is_workable(kind) {
            assert(!workable(element->Nested_1[k as int]));
            return false;
        }
        if k > 0 && kind == Kind::Null {
            assert(element->Nested_1[k as int] == Kind::Null);
            return false;
        }
        k += 1;
    }
    true
}

} // verus!
