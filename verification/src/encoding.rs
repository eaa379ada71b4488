//! How many bytes a schema takes where an Arrow file describes it.

use std::sync::Arc;

use arrow_schema::{DataType, Schema};
use vstd::prelude::*;

use crate::arrow::{element_type, field_name, schema_fields, schema_len, schema_metadata};
use crate::model::{Element, FieldModel};
use crate::nested::single_valued;

verus! {

broadcast use vstd::set::group_set_axioms;

/// How many bytes one description in a file may take. The encoder doubles its buffer as it grows,
/// and panics where that would pass two gibibytes.
pub const MESSAGE_LIMIT: usize = 0x4000_0000;

/// How many bytes the description of a schema may take for a reader to take it. A reader takes at
/// most a million tables, and no table is shorter than sixty-four bytes by this count.
pub const READER_LIMIT: usize = 60_000_000;

/// Whether the values of a type are views, which an array may keep in any number of pieces.
pub open spec fn is_view(e: Element) -> bool {
    e == Element::Single("Utf8View"@) || e == Element::Single("BinaryView"@)
}

/// How many bytes the description of a type takes at most, beyond a fixed number: those of the
/// time zone, which is part of the type's name.
pub open spec fn type_weight(e: Element) -> nat {
    match e {
        Element::Single(name) => 4 * name.len(),
        _ => 0,
    }
}

/// How many bytes one entry of metadata takes at most.
pub open spec fn entry_weight(key: Seq<char>, value: Seq<char>) -> nat {
    64 + 4 * key.len() + 4 * value.len()
}

/// How many bytes metadata takes at most.
pub open spec fn metadata_weight(m: Map<Seq<char>, Seq<char>>) -> nat {
    m.dom().fold(0nat, entry_adder(m))
}

/// Adds the bytes of one entry of metadata.
pub open spec fn entry_adder(m: Map<Seq<char>, Seq<char>>) -> spec_fn(nat, Seq<char>) -> nat {
    |sum: nat, key: Seq<char>| sum + entry_weight(key, m[key])
}

/// How many bytes the description of a field takes at most. The fixed number has room for the
/// tables of the field, of its type, of its dictionary and of the keys, and for what is noted of
/// the field in each batch.
pub open spec fn field_weight(f: FieldModel) -> nat {
    256 + 4 * f.name.len() + type_weight(f.ty.element()) + metadata_weight(f.metadata)
}

/// How many bytes the descriptions of fields take at most.
pub open spec fn fields_weight(fields: Seq<FieldModel>) -> nat
    decreases fields.len(),
{
    if fields.len() == 0 {
        0
    } else {
        fields_weight(fields.drop_last()) + field_weight(fields.last())
    }
}

/// How many bytes the description of a schema takes at most.
pub open spec fn schema_weight(
    fields: Seq<FieldModel>,
    metadata: Map<Seq<char>, Seq<char>>,
) -> nat {
    fields_weight(fields) + metadata_weight(metadata)
}

/// Whether a schema and so many batches can be described in a file: no type holds further types
/// or is one of views, and the description is not too large.
pub open spec fn encodable(
    fields: Seq<FieldModel>,
    metadata: Map<Seq<char>, Seq<char>>,
    num_batches: nat,
) -> bool {
    &&& forall|c: int|
        0 <= c < fields.len() ==> (#[trigger] fields[c]).ty.single() && !is_view(
            fields[c].ty.element(),
        )
    &&& schema_weight(fields, metadata) + 32 * num_batches <= MESSAGE_LIMIT
}

/// Whether a list has the entries of metadata, each once.
pub open spec fn lists(entries: Seq<(String, String)>, m: Map<Seq<char>, Seq<char>>) -> bool {
    &&& forall|i: int|
        0 <= i < entries.len() ==> m.contains_key((#[trigger] entries[i]).0@) && m[entries[i].0@]
            == entries[i].1@
    &&& forall|i: int, j: int|
        0 <= i < j < entries.len() ==> (#[trigger] entries[i]).0@ != (#[trigger] entries[j]).0@
    &&& forall|k: Seq<char>| #[trigger]
        m.contains_key(k) ==> exists|i: int|
            0 <= i < entries.len() && (#[trigger] entries[i]).0@ == k
}

/// `Field::metadata`: its entries.
#[verifier::external_body]
fn field_metadata(schema: &Schema, i: usize) -> (r: Vec<(String, String)>)
    requires
        i < schema_fields(*schema).len(),
    ensures
        lists(r@, schema_fields(*schema)[i as int].metadata),
{
    schema.field(i).metadata().iter().map(|(k, v)| (k.clone(), v.clone())).collect()
}

/// `Schema::metadata`: its entries.
#[verifier::external_body]
fn metadata_entries(schema: &Schema) -> (r: Vec<(String, String)>)
    ensures
        lists(r@, schema_metadata(*schema)),
{
    schema.metadata.iter().map(|(k, v)| (k.clone(), v.clone())).collect()
}

/// `Field::data_type` and its `Display` text: the name of the type of the values of a column, where
/// that is not listed and holds no further values.
#[verifier::external_body]
fn value_type_text(schema: &Schema, i: usize) -> (r: String)
    requires
        i < schema_fields(*schema).len(),
    ensures
        schema_fields(*schema)[i as int].ty.element() matches Element::Single(name) ==> r@ == name,
{
    match schema.field(i).data_type() {
        DataType::Dictionary(_, v) => v.to_string(),
        other => other.to_string(),
    }
}

/// Whether the values of a column are text views or binary views.
fn views(schema: &Schema, i: usize) -> (r: bool)
    requires
        i < schema_fields(*schema).len(),
    ensures
        r == is_view(schema_fields(*schema)[i as int].ty.element()),
{
    if !single_valued(schema, i) {
        return false;
    }
    let name: String = value_type_text(schema, i);
    name == "Utf8View".to_owned() || name == "BinaryView".to_owned()
}

/// Metadata without entries takes no bytes.
pub proof fn lemma_no_metadata(m: Map<Seq<char>, Seq<char>>)
    requires
        m.dom() =~= Set::<Seq<char>>::empty(),
    ensures
        metadata_weight(m) == 0,
{
    vstd::set::fold::lemma_fold_empty(0nat, entry_adder(m));
    assert(m.dom() == Set::<Seq<char>>::empty());
}

/// A sum of bytes that stops at the limit.
fn bounded_sum(a: usize, b: usize) -> (r: usize)
    ensures
        r == a + b || (r > MESSAGE_LIMIT && a + b > MESSAGE_LIMIT),
        a + b <= MESSAGE_LIMIT ==> r == a + b,
{
    match a.checked_add(b) {
        Some(sum) => sum,
        None => usize::MAX,
    }
}

/// Four times a length, unless that passes the limit.
fn text_bytes_bound(s: &String) -> (r: usize)
    ensures
        r == 4 * s@.len() || (r > MESSAGE_LIMIT && 4 * s@.len() > MESSAGE_LIMIT),
{
    let len: usize = s.as_str().unicode_len();
    match len.checked_mul(4) {
        Some(bytes) => bytes,
        None => usize::MAX,
    }
}

/// Whether a number is a sum, or both pass the limit.
spec fn counts(r: usize, sum: nat) -> bool {
    r == sum || (r > MESSAGE_LIMIT && sum > MESSAGE_LIMIT)
}

/// How many bytes listed metadata takes at most, unless that passes the limit.
fn listed_weight(
    entries: &Vec<(String, String)>,
    Ghost(m): Ghost<Map<Seq<char>, Seq<char>>>,
) -> (r: usize)
    requires
        lists(entries@, m),
    ensures
        counts(r, metadata_weight(m)),
{
    let ghost adder = entry_adder(m);
    let ghost mut done: Set<Seq<char>> = Set::empty();
    let mut sum: usize = 0;
    let mut i: usize = 0;
    proof {
        vstd::set::fold::lemma_fold_empty(0nat, adder);
    }
    while i < entries.len()
        invariant
            i <= entries.len(),
            lists(entries@, m),
            adder == entry_adder(m),
            done.finite(),
            forall|j: int| 0 <= j < i ==> done.contains((#[trigger] entries[j]).0@),
            forall|k: Seq<char>| #[trigger]
                done.contains(k) ==> exists|j: int| 0 <= j < i && (#[trigger] entries[j]).0@ == k,
            counts(sum, done.fold(0nat, adder)),
        decreases entries.len() - i,
    {
        let ghost key = entries[i as int].0@;
        proof {
            if done.contains(key) {
                let j = choose|j: int| 0 <= j < i && (#[trigger] entries[j]).0@ == key;
                assert(entries[j].0@ != entries[i as int].0@);
            }
            assert(vstd::set::fold::is_fun_commutative(adder));
            vstd::set::fold::lemma_fold_insert(done, 0nat, adder, key);
            assert(m[key] == entries[i as int].1@);
            done = done.insert(key);
        }
        let here: usize = bounded_sum(
            64,
            bounded_sum(text_bytes_bound(&entries[i].0), text_bytes_bound(&entries[i].1)),
        );
        sum = bounded_sum(sum, here);
        i += 1;
    }
    proof {
        assert(done =~= m.dom());
    }
    sum
}

/// How many bytes the description of a schema takes at most, unless that passes the limit.
fn weigh_schema(schema: &Schema) -> (r: usize)
    ensures
        counts(r, schema_weight(schema_fields(*schema), schema_metadata(*schema))),
{
    let ghost fields = schema_fields(*schema);
    let num_cols: usize = schema_len(schema);
    let entries = metadata_entries(schema);
    let mut sum: usize = listed_weight(&entries, Ghost(schema_metadata(*schema)));
    let ghost base = metadata_weight(schema_metadata(*schema));
    let mut c: usize = 0;
    assert(fields.take(0) =~= Seq::<FieldModel>::empty());
    while c < num_cols
        invariant
            c <= num_cols,
            fields == schema_fields(*schema),
            num_cols == fields.len(),
            counts(sum, base + fields_weight(fields.take(c as int))),
        decreases num_cols - c,
    {
        let ghost field = fields[c as int];
        let name = field_name(schema, c);
        let of_type: usize = if single_valued(schema, c) {
            let text = value_type_text(schema, c);
            text_bytes_bound(&text)
        } else {
            0
        };
        let entries = field_metadata(schema, c);
        let of_metadata: usize = listed_weight(&entries, Ghost(field.metadata));
        let here: usize = bounded_sum(
            bounded_sum(256, text_bytes_bound(&name)),
            bounded_sum(of_type, of_metadata),
        );
        proof {
            assert(counts(here, field_weight(field)));
            assert(fields.take(c + 1).drop_last() =~= fields.take(c as int));
        }
        sum = bounded_sum(sum, here);
        c += 1;
    }
    assert(fields.take(c as int) =~= fields);
    sum
}

/// Whether a schema and so many batches can be described in a file: see [`encodable`].
pub fn can_encode(schema: &Arc<Schema>, num_batches: usize) -> (r: bool)
    ensures
        r == encodable(schema_fields(**schema), schema_metadata(**schema), num_batches as nat),
{
    let num_cols: usize = schema_len(schema);
    let mut c: usize = 0;
    while c < num_cols
        invariant
            c <= num_cols,
            num_cols == schema_fields(**schema).len(),
            forall|i: int|
                0 <= i < c ==> (#[trigger] schema_fields(**schema)[i]).ty.single() && !is_view(
                    schema_fields(**schema)[i].ty.element(),
                ),
        decreases num_cols - c,
    {
        if element_type(schema, c).is_none() && !single_valued(schema, c) {
            return false;
        }
        if views(schema, c) {
            return false;
        }
        c += 1;
    }
    let of_batches: usize = match num_batches.checked_mul(32) {
        Some(bytes) => bytes,
        None => usize::MAX,
    };
    bounded_sum(weigh_schema(schema), of_batches) <= MESSAGE_LIMIT
}

} // verus!
