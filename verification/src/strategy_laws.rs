//! What the strategies choose, and what comes of the choice, in the numbers of the dictionaries'
//! values.

use arrow_schema::Schema;
use vstd::prelude::*;

use crate::arrow::{batch_columns, schema_fields, Batch};
use crate::columns::supported;
use crate::entries::{
    all_entries, cells_of, dictionaries, firsts, has_key, lemma_entries_are_dictionaries,
    lemma_firsts, lemma_offset_locates, lemma_offset_step, offset_of, Entry,
};
use crate::laws::{lemma_entries_typed, self_keyed_columns_tell_apart, tells_apart};
use crate::model::{
    sum_of, ArrayModel, Cell, ColumnType, Element, ElementType, FieldModel, IndexType,
};
use crate::nested::lemma_sum_joined;
use crate::unification::{
    array_unified, average_len, batch_unified, column_native, column_of, column_widened,
    conforming, same_path, selective_path, selective_paths, threshold_path, threshold_paths,
    unified_dictionary, unified_field, unified_lens, Path,
};
use crate::unify::UnifyResult;
use crate::value_key::{key_of, keys_tell_values_apart};

verus! {

/// How many values the dictionary of each array of a column has.
pub open spec fn lens(column: Seq<ArrayModel>) -> Seq<nat> {
    Seq::new(column.len(), |b: int| column[b].dictionary.len())
}

/// The joined dictionaries have as many values as the dictionaries together; those of one array
/// begin after as many as the arrays before it have, and stand there in their order.
pub proof fn joining_keeps_all_values(column: Seq<ArrayModel>, b: int, v: int)
    ensures
        dictionaries(column).len() == sum_of(lens(column)),
        0 <= b < column.len() ==> offset_of(column, b) == sum_of(lens(column).take(b)),
        0 <= b < column.len() && 0 <= v < column[b].dictionary.len() ==> {
            &&& sum_of(lens(column).take(b)) + v < dictionaries(column).len()
            &&& dictionaries(column)[sum_of(lens(column).take(b)) + v] == column[b].dictionary[v]
        },
{
    lemma_total(column, column.len() as int);
    assert(column.take(column.len() as int) =~= column);
    assert(lens(column).take(column.len() as int) =~= lens(column));
    if 0 <= b < column.len() {
        lemma_total(column, b);
        if 0 <= v < column[b].dictionary.len() {
            lemma_offset_locates(column, b, v);
        }
    }
}

proof fn lemma_total(column: Seq<ArrayModel>, n: int)
    requires
        0 <= n <= column.len(),
    ensures
        dictionaries(column.take(n)).len() == sum_of(lens(column).take(n)),
    decreases n,
{
    if n > 0 {
        lemma_total(column, n - 1);
        lemma_offset_step(column, n - 1);
        assert(lens(column).take(n).drop_last() =~= lens(column).take(n - 1));
        assert(lens(column).take(n).last() == column[n - 1].dictionary.len());
    }
}

/// The average length of the dictionaries of a column is the sum of their lengths over their
/// number, rounded down, whatever the single lengths are.
pub proof fn average_is_taken_over_all_batches(column: Seq<ArrayModel>)
    requires
        column.len() > 0,
    ensures
        average_len(column) * column.len() <= sum_of(lens(column)),
        sum_of(lens(column)) < (average_len(column) + 1) * column.len(),
{
    joining_keeps_all_values(column, 0, 0);
    let n = column.len() as int;
    let total = sum_of(lens(column)) as int;
    vstd::arithmetic::div_mod::lemma_fundamental_div_mod(total, n);
    let q = total / n;
    assert(n * q == q * n) by (nonlinear_arith);
    assert((q + 1) * n == q * n + n) by (nonlinear_arith);
}

/// The selective strategy takes the distinct values of a dictionary column exactly if the
/// dictionaries of all batches together have fewer values than one more than the threshold for
/// each batch; else it joins them.
pub proof fn selective_choice(threshold: nat, field: FieldModel, column: Seq<ArrayModel>)
    requires
        field.ty is Dictionary,
        column.len() > 0,
    ensures
        sum_of(lens(column)) < (threshold + 1) * column.len() <==> selective_path(
            threshold,
            field,
            column,
        ) == Path::Dedup,
        sum_of(lens(column)) >= (threshold + 1) * column.len() <==> selective_path(
            threshold,
            field,
            column,
        ) == Path::Concat,
{
    average_is_taken_over_all_batches(column);
    let n = column.len();
    let a = average_len(column);
    if a <= threshold {
        assert((a + 1) * n <= (threshold + 1) * n) by (nonlinear_arith)
            requires
                a <= threshold,
        ;
    } else {
        assert((threshold + 1) * n <= a * n) by (nonlinear_arith)
            requires
                threshold + 1 <= a,
        ;
    }
}

/// The sum of numbers is that of all but one of them, and that one.
proof fn lemma_sum_without(s: Seq<nat>, i: int)
    requires
        0 <= i < s.len(),
    ensures
        sum_of(s) == sum_of(s.remove(i)) + s[i],
{
    let (a, b) = (s.take(i), s.skip(i + 1));
    lemma_sum_joined(a, b);
    lemma_sum_joined(a.push(s[i]), b);
    assert(a.push(s[i]).drop_last() =~= a);
    assert(s.remove(i) =~= a + b);
    assert(s =~= a.push(s[i]) + b);
}

/// Numbers have one sum in every order.
proof fn lemma_sum_in_any_order(s: Seq<nat>, t: Seq<nat>)
    requires
        s.to_multiset() == t.to_multiset(),
    ensures
        sum_of(s) == sum_of(t),
        s.len() == t.len(),
    decreases s.len(),
{
    broadcast use vstd::seq_lib::group_to_multiset_ensures;

    if s.len() > 0 {
        let x = s[s.len() - 1];
        assert(s.contains(x));
        assert(t.to_multiset().count(x) > 0);
        assert(t.contains(x));
        let i = choose|i: int| 0 <= i < t.len() && t[i] == x;
        assert(s.remove(s.len() - 1) =~= s.drop_last());
        assert(s.drop_last().to_multiset() =~= s.to_multiset().remove(x));
        assert(t.remove(i).to_multiset() =~= t.to_multiset().remove(x));
        lemma_sum_in_any_order(s.drop_last(), t.remove(i));
        lemma_sum_without(t, i);
    } else {
        assert(t.to_multiset().len() == 0);
    }
}

/// In whatever order the batches come, the strategies choose the same.
pub proof fn choices_in_any_order(
    threshold: nat,
    field: FieldModel,
    column: Seq<ArrayModel>,
    other: Seq<ArrayModel>,
)
    requires
        lens(column).to_multiset() == lens(other).to_multiset(),
    ensures
        selective_path(threshold, field, column) == selective_path(threshold, field, other),
        threshold_path(field, column) == threshold_path(field, other),
{
    lemma_sum_in_any_order(lens(column), lens(other));
    joining_keeps_all_values(column, 0, 0);
    joining_keeps_all_values(other, 0, 0);
    if column.len() > 0 && field.ty is Dictionary {
        selective_choice(threshold, field, column);
        selective_choice(threshold, field, other);
    }
}

/// How many values keys of eight or sixteen bits tell apart.
pub open spec fn places(k: IndexType) -> nat {
    if k is UInt8 {
        256
    } else {
        65536
    }
}

/// The threshold strategy joins the dictionaries of a column as they are, and keeps its keys,
/// exactly if all values together are no more than the keys tell apart; else it takes the distinct
/// values.
pub proof fn threshold_choice(field: FieldModel, column: Seq<ArrayModel>)
    requires
        field.ty matches ColumnType::Dictionary(k, _) && supported(k),
    ensures
        ({
            let k = field.ty->Dictionary_0;
            let path = threshold_path(field, column);
            &&& sum_of(lens(column)) <= places(k) ==> {
                &&& unified_dictionary(path, column) == dictionaries(column)
                &&& unified_dictionary(path, column).len() == sum_of(lens(column))
                &&& !column_widened(path, field, column)
                &&& !column_native(path, field, column)
            }
            &&& sum_of(lens(column)) > places(k) ==> path == Path::Dedup
        }),
{
    joining_keeps_all_values(column, 0, 0);
}

/// Keys are widened, and dictionaries lost, as the number of the shared values says: 8-bit keys tell
/// 256 values apart, 16-bit keys 65,536, and no wider keys are taken.
pub proof fn keys_follow_the_number_of_values(
    path: Path,
    field: FieldModel,
    column: Seq<ArrayModel>,
)
    requires
        !(path is Keep),
        field.ty matches ColumnType::Dictionary(k, _) && supported(k),
    ensures
        ({
            let k = field.ty->Dictionary_0;
            let e = field.ty->Dictionary_1;
            let n = unified_dictionary(path, column).len();
            let new = unified_field(path, field, column);
            &&& column_native(path, field, column) <==> n > 65536
            &&& column_widened(path, field, column) <==> k is UInt8 && 256 < n <= 65536
            &&& n > 65536 ==> new.ty == ColumnType::Plain(e)
            &&& n <= places(k) ==> new.ty == ColumnType::Dictionary(k, e)
            &&& places(k) < n <= 65536 ==> new.ty == ColumnType::Dictionary(IndexType::UInt16, e)
        }),
{
}

/// Whether a column of the batches of a unification is joined: one dictionary with the values of
/// all batches after each other, and each key moved by as many values as the batches before have.
pub open spec fn joined(column: Seq<ArrayModel>, new: Seq<ArrayModel>) -> bool {
    &&& new.len() == column.len()
    &&& forall|b: int|
        0 <= b < column.len() ==> {
            &&& (#[trigger] new[b]).dictionary.len() == sum_of(lens(column))
            &&& new[b].keys.len() == column[b].keys.len()
        }
    &&& forall|b: int, i: int|
        0 <= b < column.len() && 0 <= i < column[b].keys.len() ==> #[trigger] new[b].keys[i] == (
        match column[b].keys[i] {
            Some(k) => Some((k + sum_of(lens(column).take(b))) as u64),
            None => None,
        })
    &&& forall|a: int, b: int, v: int|
        0 <= a < column.len() && 0 <= b < column.len() && 0 <= v < column[b].dictionary.len()
            ==> #[trigger] new[a].dictionary[sum_of(lens(column).take(b)) + v]
            == #[trigger] column[b].dictionary[v]
}

/// A dictionary column that is joined and does not lose its dictionary is joined in every batch.
proof fn lemma_joined(
    schema: Schema,
    batches: Seq<Batch>,
    paths: Seq<Path>,
    result: UnifyResult,
    c: int,
)
    requires
        result.is_unification(schema, batches, paths),
        0 <= c < schema_fields(schema).len(),
        schema_fields(schema)[c].ty is Dictionary,
        !(paths[c] is Dedup),
        !column_native(paths[c], schema_fields(schema)[c], column_of(batches, c)),
    ensures
        joined(column_of(batches, c), column_of(result.batches@, c)),
{
    let fields = schema_fields(schema);
    let column = column_of(batches, c);
    let new = column_of(result.batches@, c);
    joining_keeps_all_values(column, 0, 0);
    assert forall|b: int| 0 <= b < column.len() implies array_unified(
        paths[c],
        fields[c],
        column,
        b,
        #[trigger] new[b],
    ) by {
        assert(batch_unified(fields, batches, paths, b, result.batches@[b]));
        assert(new[b] == batch_columns(result.batches@[b])[c]);
    }
    assert forall|b: int, i: int|
        0 <= b < column.len() && 0 <= i < column[b].keys.len() implies #[trigger] new[b].keys[i] == (
    match column[b].keys[i] {
        Some(k) => Some((k + sum_of(lens(column).take(b))) as u64),
        None => None,
    }) by {
        assert(array_unified(paths[c], fields[c], column, b, new[b]));
        joining_keeps_all_values(column, b, 0);
    }
    assert forall|a: int, b: int, v: int|
        0 <= a < column.len() && 0 <= b < column.len() && 0 <= v
            < column[b].dictionary.len() implies #[trigger] new[a].dictionary[sum_of(
        lens(column).take(b),
    ) + v] == #[trigger] column[b].dictionary[v] by {
        assert(array_unified(paths[c], fields[c], column, a, new[a]));
        joining_keeps_all_values(column, b, v);
    }
}

/// Where the dictionaries of a column have more values on average than the threshold, the selective
/// strategy joins them, unless there are more than 65,536 of them in all.
pub proof fn selective_joins_long_dictionaries(
    schema: Schema,
    batches: Seq<Batch>,
    threshold: nat,
    result: UnifyResult,
    c: int,
)
    requires
        conforming(schema_fields(schema), batches),
        result.is_unification(
            schema,
            batches,
            selective_paths(threshold, schema_fields(schema), batches),
        ),
        0 <= c < schema_fields(schema).len(),
        schema_fields(schema)[c].ty is Dictionary,
        batches.len() > 0,
        (threshold + 1) * batches.len() <= sum_of(lens(column_of(batches, c))) <= 65536,
    ensures
        joined(column_of(batches, c), column_of(result.batches@, c)),
{
    let fields = schema_fields(schema);
    let column = column_of(batches, c);
    let paths = selective_paths(threshold, fields, batches);
    selective_choice(threshold, fields[c], column);
    joining_keeps_all_values(column, 0, 0);
    keys_follow_the_number_of_values(paths[c], fields[c], column);
    lemma_joined(schema, batches, paths, result, c);
}

/// Where the keys of a column tell all values of all batches apart, the threshold strategy joins
/// the dictionaries.
pub proof fn threshold_joins_what_fits(
    schema: Schema,
    batches: Seq<Batch>,
    result: UnifyResult,
    c: int,
)
    requires
        conforming(schema_fields(schema), batches),
        result.is_unification(schema, batches, threshold_paths(schema_fields(schema), batches)),
        0 <= c < schema_fields(schema).len(),
        schema_fields(schema)[c].ty matches ColumnType::Dictionary(k, _) && sum_of(
            lens(column_of(batches, c)),
        ) <= places(k),
        batches.len() > 0,
    ensures
        joined(column_of(batches, c), column_of(result.batches@, c)),
{
    let fields = schema_fields(schema);
    let column = column_of(batches, c);
    let paths = threshold_paths(fields, batches);
    threshold_choice(fields[c], column);
    lemma_joined(schema, batches, paths, result, c);
}

/// Joining joins every dictionary column that has at most 65,536 values in all.
pub proof fn concat_joins_every_column(
    schema: Schema,
    batches: Seq<Batch>,
    result: UnifyResult,
    c: int,
)
    requires
        conforming(schema_fields(schema), batches),
        result.is_unification(schema, batches, same_path(schema_fields(schema), Path::Concat)),
        0 <= c < schema_fields(schema).len(),
        schema_fields(schema)[c].ty is Dictionary,
        sum_of(lens(column_of(batches, c))) <= 65536,
        batches.len() > 0,
    ensures
        joined(column_of(batches, c), column_of(result.batches@, c)),
{
    let fields = schema_fields(schema);
    let column = column_of(batches, c);
    let paths = same_path(fields, Path::Concat);
    joining_keeps_all_values(column, 0, 0);
    keys_follow_the_number_of_values(Path::Concat, fields[c], column);
    lemma_joined(schema, batches, paths, result, c);
}

/// Whether places are those at which the entries of a sequence that come with a new key stand, in
/// their order.
spec fn first_places(s: Seq<Entry>, at: Seq<int>) -> bool {
    &&& at.len() == firsts(s).len()
    &&& forall|i: int|
        0 <= i < at.len() ==> {
            &&& 0 <= #[trigger] at[i] < s.len()
            &&& firsts(s)[i] == s[at[i]]
        }
    &&& forall|i: int, j: int| 0 <= i < j < at.len() ==> #[trigger] at[i] < #[trigger] at[j]
    &&& forall|i: int, p: int|
        0 <= i < at.len() && 0 <= p < at[i] ==> (#[trigger] s[p]).key != s[#[trigger] at[i]].key
}

proof fn lemma_first_places(s: Seq<Entry>)
    ensures
        exists|at: Seq<int>| first_places(s, at),
    decreases s.len(),
{
    if s.len() == 0 {
        assert(first_places(s, Seq::empty()));
    } else {
        let d = s.drop_last();
        let f = firsts(d);
        lemma_first_places(d);
        lemma_firsts(d);
        let at = choose|at: Seq<int>| first_places(d, at);
        if has_key(f, s.last().key) {
            assert(first_places(s, at)) by {
                assert forall|i: int, p: int| 0 <= i < at.len() && 0 <= p < at[i] implies (
                #[trigger] s[p]).key != s[#[trigger] at[i]].key by {
                    assert(d[p].key != d[at[i]].key);
                }
            }
        } else {
            let last = s.len() - 1;
            let more = at.push(last);
            assert forall|i: int, p: int| 0 <= i < more.len() && 0 <= p < more[i] implies (
            #[trigger] s[p]).key != s[#[trigger] more[i]].key by {
                if i < at.len() {
                    assert(more[i] == at[i]);
                    assert(d[p].key != d[at[i]].key);
                } else {
                    assert(d[p] == s[p]);
                    assert(has_key(f, d[p].key));
                }
            }
            assert(first_places(s, more));
        }
    }
}

/// The distinct values are those of the joined dictionaries that come with a new key, in the order
/// in which they come: there are places in the joined dictionaries, one after the other, at which
/// they stand, and at none of which a value has the key of an earlier one.
pub proof fn distinct_values_come_in_order(column: Seq<ArrayModel>)
    ensures
        exists|at: Seq<int>|
            {
                let d = unified_dictionary(Path::Dedup, column);
                let all = all_entries(column);
                &&& #[trigger] at.len() == d.len()
                &&& forall|i: int|
                    0 <= i < at.len() ==> {
                        &&& 0 <= #[trigger] at[i] < dictionaries(column).len()
                        &&& d[i] == dictionaries(column)[at[i]]
                    }
                &&& forall|i: int, j: int|
                    0 <= i < j < at.len() ==> #[trigger] at[i] < #[trigger] at[j]
                &&& forall|i: int, p: int|
                    0 <= i < at.len() && 0 <= p < at[i] ==> (#[trigger] all[p]).key
                        != all[#[trigger] at[i]].key
            },
{
    let all = all_entries(column);
    lemma_entries_are_dictionaries(column);
    lemma_first_places(all);
    let at = choose|at: Seq<int>| first_places(all, at);
    let d = unified_dictionary(Path::Dedup, column);
    assert(at.len() == d.len());
    assert forall|i: int| 0 <= i < at.len() implies {
        &&& 0 <= #[trigger] at[i] < dictionaries(column).len()
        &&& d[i] == dictionaries(column)[at[i]]
    } by {
        assert(cells_of(all)[at[i]] == dictionaries(column)[at[i]]);
    }
}

/// Of texts, binary values of one size, 32-bit and 64-bit integers and durations, the distinct
/// values are each value of each dictionary once, and no other.
pub proof fn distinct_values_are_a_set(column: Seq<ArrayModel>, e: ElementType)
    requires
        e is Utf8 || e is FixedSizeBinary || e is Int32 || e is Int64 || e is DurationNanos,
        forall|b: int|
            0 <= b < column.len() ==> (#[trigger] column[b]).well_formed() && column[b].ty is Dictionary
                && column[b].ty.element() == Element::Known(e),
    ensures
        unified_dictionary(Path::Dedup, column).no_duplicates(),
        unified_dictionary(Path::Dedup, column).to_set() == dictionaries(column).to_set(),
{
    let all = all_entries(column);
    let f = firsts(all);
    let d = unified_dictionary(Path::Dedup, column);
    lemma_entries_are_dictionaries(column);
    lemma_firsts(all);
    lemma_entries_typed(column, e);
    self_keyed_columns_tell_apart(column, e);
    assert(tells_apart(column));
    assert forall|i: int, j: int| 0 <= i < j < d.len() implies d[i] != d[j] by {
        assert(all.contains(f[i]) && all.contains(f[j]));
        let p = choose|p: int| 0 <= p < all.len() && all[p] == f[i];
        let q = choose|q: int| 0 <= q < all.len() && all[q] == f[j];
        let s = choose|s: Seq<u8>| all[p].key == #[trigger] key_of(Element::Known(e), all[p].cell, s);
        let t = choose|t: Seq<u8>| all[q].key == #[trigger] key_of(Element::Known(e), all[q].cell, t);
        keys_tell_values_apart(e, all[p].cell, all[q].cell, s, t);
        assert(f[i].key != f[j].key);
    }
    assert forall|x: Cell| d.to_set().contains(x) <==> dictionaries(column).to_set().contains(x) by {
        if d.contains(x) {
            let i = choose|i: int| 0 <= i < d.len() && d[i] == x;
            assert(all.contains(f[i]));
            let p = choose|p: int| 0 <= p < all.len() && all[p] == f[i];
            assert(cells_of(all)[p] == x);
            assert(dictionaries(column)[p] == x);
        }
        if dictionaries(column).contains(x) {
            let p = choose|p: int| 0 <= p < dictionaries(column).len() && dictionaries(column)[p]
                == x;
            assert(cells_of(all)[p] == x);
            assert(has_key(f, all[p].key));
            let i = choose|i: int| 0 <= i < f.len() && (#[trigger] f[i]).key == all[p].key;
            assert(all.contains(f[i]));
            let q = choose|q: int| 0 <= q < all.len() && all[q] == f[i];
            assert(all[q].cell == all[p].cell);
            assert(d[i] == x);
        }
    }
    assert(d.to_set() =~= dictionaries(column).to_set());
}

/// How many values the shared dictionary of a column has, where it has one.
pub open spec fn shared_len(path: Path, field: FieldModel, column: Seq<ArrayModel>) -> nat {
    if field.ty is Dictionary {
        unified_dictionary(path, column).len()
    } else {
        0
    }
}

proof fn lemma_lens_add_up(
    fields: Seq<FieldModel>,
    batches: Seq<Batch>,
    paths: Seq<Path>,
    n: nat,
)
    requires
        n <= fields.len(),
    ensures
        unified_lens(fields, batches, paths, n) == sum_of(
            Seq::new(n, |c: int| shared_len(paths[c], fields[c], column_of(batches, c))),
        ),
    decreases n,
{
    let all = Seq::new(n, |c: int| shared_len(paths[c], fields[c], column_of(batches, c)));
    if n > 0 {
        lemma_lens_add_up(fields, batches, paths, (n - 1) as nat);
        assert(all.drop_last() =~= Seq::new(
            (n - 1) as nat,
            |c: int| shared_len(paths[c], fields[c], column_of(batches, c)),
        ));
    }
}

/// What a unification reports is what can be seen of its schema: a key type was widened exactly if a
/// dictionary column has another key type than before, and a dictionary was lost exactly if a
/// dictionary column has become one without. The values that it reports are those of the shared
/// dictionaries of all columns.
pub proof fn reports_follow_the_schema(
    schema: Schema,
    batches: Seq<Batch>,
    paths: Seq<Path>,
    result: UnifyResult,
)
    requires
        paths.len() == schema_fields(schema).len(),
        result.is_unification(schema, batches, paths),
    ensures
        result.key_widened <==> exists|c: int|
            {
                &&& 0 <= c < schema_fields(schema).len()
                &&& (#[trigger] schema_fields(schema)[c]).ty is Dictionary
                &&& schema_fields(*result.schema)[c].ty is Dictionary
                &&& schema_fields(*result.schema)[c].ty.key() != schema_fields(schema)[c].ty.key()
            },
        result.native_fallback <==> exists|c: int|
            {
                &&& 0 <= c < schema_fields(schema).len()
                &&& (#[trigger] schema_fields(schema)[c]).ty is Dictionary
                &&& schema_fields(*result.schema)[c].ty is Plain
            },
        result.unified_dict_len == sum_of(
            Seq::new(
                schema_fields(schema).len(),
                |c: int|
                    shared_len(paths[c], schema_fields(schema)[c], column_of(batches, c)),
            ),
        ),
{
    let fields = schema_fields(schema);
    let new = result.fields();
    lemma_lens_add_up(fields, batches, paths, fields.len());
    assert forall|c: int| 0 <= c < fields.len() implies #[trigger] new[c] == unified_field(
        paths[c],
        fields[c],
        column_of(batches, c),
    ) by {}
    if result.key_widened {
        let c = choose|c: int|
            0 <= c < fields.len() && column_widened(
                #[trigger] paths[c],
                fields[c],
                column_of(batches, c),
            );
        assert(new[c] == unified_field(paths[c], fields[c], column_of(batches, c)));
        assert(fields[c].ty is Dictionary);
    }
    if exists|c: int|
        {
            &&& 0 <= c < fields.len()
            &&& (#[trigger] fields[c]).ty is Dictionary
            &&& new[c].ty is Dictionary
            &&& new[c].ty.key() != fields[c].ty.key()
        } {
        let c = choose|c: int|
            {
                &&& 0 <= c < fields.len()
                &&& (#[trigger] fields[c]).ty is Dictionary
                &&& new[c].ty is Dictionary
                &&& new[c].ty.key() != fields[c].ty.key()
            };
        assert(new[c] == unified_field(paths[c], fields[c], column_of(batches, c)));
        assert(column_widened(paths[c], fields[c], column_of(batches, c)));
    }
    if result.native_fallback {
        let c = choose|c: int|
            0 <= c < fields.len() && column_native(
                #[trigger] paths[c],
                fields[c],
                column_of(batches, c),
            );
        assert(new[c] == unified_field(paths[c], fields[c], column_of(batches, c)));
        assert(fields[c].ty is Dictionary);
    }
    if exists|c: int|
        {
            &&& 0 <= c < fields.len()
            &&& (#[trigger] fields[c]).ty is Dictionary
            &&& new[c].ty is Plain
        } {
        let c = choose|c: int|
            {
                &&& 0 <= c < fields.len()
                &&& (#[trigger] fields[c]).ty is Dictionary
                &&& new[c].ty is Plain
            };
        assert(new[c] == unified_field(paths[c], fields[c], column_of(batches, c)));
        assert(column_native(paths[c], fields[c], column_of(batches, c)));
    }
}

} // verus!
