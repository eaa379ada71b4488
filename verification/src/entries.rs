//! The dictionary values of one column over several batches: all of them in their order, and the
//! distinct ones among them.

use vstd::prelude::*;

use crate::model::{ArrayModel, Cell};
use crate::value_key::{key_of, KeyModel};

verus! {

/// A dictionary value with its key, and with how many bytes its dictionary keeps for it.
pub struct Entry {
    pub key: KeyModel,
    pub cell: Cell,
    pub width: nat,
}

/// The dictionary of one array, value by value.
pub open spec fn entries(a: ArrayModel) -> Seq<Entry> {
    Seq::new(
        a.dictionary.len(),
        |v: int|
            Entry {
                key: key_of(a.ty.element(), a.dictionary[v], a.texts[v]),
                cell: a.dictionary[v],
                width: a.widths[v],
            },
    )
}

/// The dictionaries of all arrays of a column, one after the other.
pub open spec fn all_entries(column: Seq<ArrayModel>) -> Seq<Entry>
    decreases column.len(),
{
    if column.len() == 0 {
        seq![]
    } else {
        all_entries(column.drop_last()) + entries(column.last())
    }
}

/// Whether a key occurs.
pub open spec fn has_key(s: Seq<Entry>, key: KeyModel) -> bool {
    exists|i: int| 0 <= i < s.len() && (#[trigger] s[i]).key == key
}

/// The first entry of each key, in their order.
pub open spec fn firsts(s: Seq<Entry>) -> Seq<Entry>
    decreases s.len(),
{
    if s.len() == 0 {
        seq![]
    } else if has_key(firsts(s.drop_last()), s.last().key) {
        firsts(s.drop_last())
    } else {
        firsts(s.drop_last()).push(s.last())
    }
}

/// Where a key occurs.
pub open spec fn position(s: Seq<Entry>, key: KeyModel) -> int {
    choose|i: int| 0 <= i < s.len() && (#[trigger] s[i]).key == key
}

/// No key occurs twice.
pub open spec fn distinct_keys(s: Seq<Entry>) -> bool {
    forall|i: int, j: int|
        0 <= i < j < s.len() ==> (#[trigger] s[i]).key != (#[trigger] s[j]).key
}

/// The values of entries.
pub open spec fn cells_of(s: Seq<Entry>) -> Seq<Cell> {
    Seq::new(s.len(), |i: int| s[i].cell)
}

/// How many bytes are kept for entries.
pub open spec fn widths_of(s: Seq<Entry>) -> Seq<nat> {
    Seq::new(s.len(), |i: int| s[i].width)
}

/// The dictionaries of all arrays of a column, one after the other.
pub open spec fn dictionaries(column: Seq<ArrayModel>) -> Seq<Cell>
    decreases column.len(),
{
    if column.len() == 0 {
        seq![]
    } else {
        dictionaries(column.drop_last()) + column.last().dictionary
    }
}

/// How many dictionary values come before those of one array.
pub open spec fn offset_of(column: Seq<ArrayModel>, b: int) -> nat {
    dictionaries(column.take(b)).len()
}

/// The entries of a column are its dictionaries' values.
pub proof fn lemma_entries_are_dictionaries(column: Seq<ArrayModel>)
    ensures
        all_entries(column).len() == dictionaries(column).len(),
        cells_of(all_entries(column)) == dictionaries(column),
    decreases column.len(),
{
    if column.len() > 0 {
        lemma_entries_are_dictionaries(column.drop_last());
        let before = all_entries(column.drop_last());
        let d = dictionaries(column);
        assert(cells_of(all_entries(column)).len() == d.len());
        assert forall|i: int| 0 <= i < d.len() implies cells_of(all_entries(column))[i]
            == d[i] by {
            if i < before.len() {
                assert(all_entries(column)[i] == before[i]);
                assert(cells_of(before)[i] == dictionaries(column.drop_last())[i]);
            }
        }
        assert(cells_of(all_entries(column)) =~= d);
    } else {
        assert(cells_of(all_entries(column)) =~= dictionaries(column));
    }
}

/// Later arrays leave the offsets of earlier ones alone.
pub proof fn lemma_offset_step(column: Seq<ArrayModel>, b: int)
    requires
        0 <= b < column.len(),
    ensures
        offset_of(column, b + 1) == offset_of(column, b) + column[b].dictionary.len(),
        dictionaries(column.take(b + 1)) == dictionaries(column.take(b)) + column[b].dictionary,
        all_entries(column.take(b + 1)) == all_entries(column.take(b)) + entries(column[b]),
{
    assert(column.take(b + 1).drop_last() =~= column.take(b));
}

/// A part of the dictionaries is no longer than the whole.
pub proof fn lemma_offset_bound(column: Seq<ArrayModel>, b: int)
    requires
        0 <= b <= column.len(),
    ensures
        offset_of(column, b) <= dictionaries(column).len(),
        forall|i: int|
            0 <= i < offset_of(column, b) ==> #[trigger] dictionaries(column)[i] == dictionaries(
                column.take(b),
            )[i],
    decreases column.len() - b,
{
    if b < column.len() {
        lemma_offset_step(column, b);
        lemma_offset_bound(column, b + 1);
        assert forall|i: int| 0 <= i < offset_of(column, b) implies #[trigger] dictionaries(
            column,
        )[i] == dictionaries(column.take(b))[i] by {
            assert(dictionaries(column.take(b + 1))[i] == dictionaries(column.take(b))[i]);
        }
    } else {
        assert(column.take(b) =~= column);
    }
}

/// In the joined dictionaries, the values of each array begin at its offset.
pub proof fn lemma_offset_locates(column: Seq<ArrayModel>, b: int, v: int)
    requires
        0 <= b < column.len(),
        0 <= v < column[b].dictionary.len(),
    ensures
        offset_of(column, b) + v < dictionaries(column).len(),
        dictionaries(column)[offset_of(column, b) + v] == column[b].dictionary[v],
{
    lemma_offset_step(column, b);
    lemma_offset_bound(column, b + 1);
}

/// Each entry of an array is an entry of its column.
pub proof fn lemma_entry_occurs(column: Seq<ArrayModel>, b: int, v: int)
    requires
        0 <= b < column.len(),
        0 <= v < entries(column[b]).len(),
    ensures
        exists|i: int|
            0 <= i < all_entries(column).len() && #[trigger] all_entries(column)[i] == entries(
                column[b],
            )[v],
    decreases column.len(),
{
    let last = column.len() - 1;
    let before = all_entries(column.drop_last());
    if b == last {
        assert(all_entries(column)[before.len() + v] == entries(column[b])[v]);
    } else {
        lemma_entry_occurs(column.drop_last(), b, v);
        let i = choose|i: int|
            0 <= i < before.len() && #[trigger] before[i] == entries(column.drop_last()[b])[v];
        assert(all_entries(column)[i] == before[i]);
    }
}

/// The first entries have each key once, and all keys that occur.
pub proof fn lemma_firsts(s: Seq<Entry>)
    ensures
        distinct_keys(firsts(s)),
        firsts(s).len() <= s.len(),
        forall|i: int| 0 <= i < s.len() ==> has_key(firsts(s), (#[trigger] s[i]).key),
        forall|i: int| 0 <= i < firsts(s).len() ==> s.contains(#[trigger] firsts(s)[i]),
    decreases s.len(),
{
    if s.len() > 0 {
        let d = s.drop_last();
        let f = firsts(d);
        lemma_firsts(d);
        assert forall|i: int| 0 <= i < s.len() implies has_key(firsts(s), (#[trigger] s[i]).key) by {
            if i < d.len() {
                assert(d[i] == s[i]);
                let j = choose|j: int| 0 <= j < f.len() && (#[trigger] f[j]).key == d[i].key;
                assert(firsts(s)[j] == f[j]);
            } else if !has_key(f, s.last().key) {
                assert(firsts(s)[f.len() as int] == s.last());
            }
        }
        assert forall|i: int| 0 <= i < firsts(s).len() implies s.contains(#[trigger] firsts(s)[i]) by {
            if i < f.len() {
                assert(d.contains(f[i]));
                let j = choose|j: int| 0 <= j < d.len() && d[j] == f[i];
                assert(s[j] == f[i]);
            } else {
                assert(s[s.len() - 1] == firsts(s)[i]);
            }
        }
    }
}

/// A key that occurs among entries of distinct keys occurs at one place.
pub proof fn lemma_position(s: Seq<Entry>, i: int)
    requires
        distinct_keys(s),
        0 <= i < s.len(),
    ensures
        position(s, s[i].key) == i,
{
    let p = position(s, s[i].key);
    assert(0 <= p < s.len() && s[p].key == s[i].key);
}

/// The first entries of a longer sequence begin with those of the shorter.
pub proof fn lemma_firsts_grow(s: Seq<Entry>, e: Entry)
    ensures
        firsts(s.push(e)) == (if has_key(firsts(s), e.key) {
            firsts(s)
        } else {
            firsts(s).push(e)
        }),
{
    assert(s.push(e).drop_last() =~= s);
}

} // verus!
