//! Keys by which the values of dictionaries are told apart.

use vstd::prelude::*;

use crate::arrow::{
    binary_bytes, constructible, debug_text, duration_value, int32_value, int64_value, is_null, text_bytes,
    ArrowArray,
};
use crate::model::{is_of, Cell, Element, ElementType};

verus! {

/// What tells a value apart from others of its type.
pub enum ValueKey {
    Null,
    Bytes(Vec<u8>),
    /// For numbers: eight bytes, as a little-endian word.
    Inline(u64),
}

/// The mathematical model of a [`ValueKey`].
pub enum KeyModel {
    Null,
    Bytes(Seq<u8>),
    Inline(u64),
}

impl View for ValueKey {
    type V = KeyModel;

    open spec fn view(&self) -> KeyModel {
        match *self {
            ValueKey::Null => KeyModel::Null,
            ValueKey::Bytes(b) => KeyModel::Bytes(b@),
            ValueKey::Inline(w) => KeyModel::Inline(w),
        }
    }
}

/// The types whose values make their own keys; the keys of other types are debug texts.
pub open spec fn self_keyed(e: ElementType) -> bool {
    e is Utf8 || e is FixedSizeBinary || e is Int32 || e is Int64 || e is DurationNanos
}

/// The key of a value: its bytes; for a 32-bit number its four bytes in two's complement, then a
/// one; for a 64-bit number its eight bytes; for any other type the debug text.
pub open spec fn key_of(e: Element, cell: Cell, text: Seq<u8>) -> KeyModel {
    match (e, cell) {
        (_, Cell::Null) => KeyModel::Null,
        (Element::Known(ElementType::Utf8), Cell::Bytes(b)) => KeyModel::Bytes(b),
        (Element::Known(ElementType::FixedSizeBinary(_)), Cell::Bytes(b)) => KeyModel::Bytes(b),
        (Element::Known(ElementType::Int32), Cell::Int(v)) => KeyModel::Inline(
            (0x1_0000_0000 + v % 0x1_0000_0000) as u64,
        ),
        (Element::Known(ElementType::Int64), Cell::Int(v)) => KeyModel::Inline(
            (v % 0x1_0000_0000_0000_0000) as u64,
        ),
        (Element::Known(ElementType::DurationNanos), Cell::Int(v)) => KeyModel::Inline(
            (v % 0x1_0000_0000_0000_0000) as u64,
        ),
        _ => KeyModel::Bytes(text),
    }
}

/// The key of one value of an array.
pub fn value_key(array: &ArrowArray, idx: usize) -> (r: ValueKey)
    requires
        array@.ty is Plain,
        constructible(array@.ty.element()),
        idx < array@.cells.len(),
    ensures
        r@ == key_of(array@.ty.element(), array@.cells[idx as int], array@.texts[idx as int]),
{
    if is_null(array, idx) {
        return ValueKey::Null;
    }
    if let Some(bytes) = text_bytes(array, idx) {
        return ValueKey::Bytes(bytes);
    }
    if let Some(bytes) = binary_bytes(array, idx) {
        return ValueKey::Bytes(bytes);
    }
    if let Some(v) = int32_value(array, idx) {
        let low: u64 = (v as u32) as u64;
        proof {
            lemma_low_word(v);
        }
        return ValueKey::Inline(low + 0x1_0000_0000);
    }
    if let Some(v) = int64_value(array, idx) {
        proof {
            lemma_word(v);
        }
        return ValueKey::Inline(v as u64);
    }
    if let Some(v) = duration_value(array, idx) {
        proof {
            lemma_word(v);
        }
        return ValueKey::Inline(v as u64);
    }
    ValueKey::Bytes(debug_text(array, idx))
}

proof fn lemma_low_word(v: i32)
    ensures
        (v as u32) == (v as int) % 0x1_0000_0000,
{
    if v >= 0 {
        assert(v as u32 == v) by (bit_vector)
            requires
                v >= 0,
        ;
    } else {
        assert(v as u32 == v + 0x1_0000_0000) by (bit_vector)
            requires
                v < 0,
        ;
    }
}

proof fn lemma_word(v: i64)
    ensures
        (v as u64) == (v as int) % 0x1_0000_0000_0000_0000,
{
    if v >= 0 {
        assert(v as u64 == v) by (bit_vector)
            requires
                v >= 0,
        ;
    } else {
        assert(v as u64 == v + 0x1_0000_0000_0000_0000) by (bit_vector)
            requires
                v < 0,
        ;
    }
}

/// Two values of a type that makes its own keys have one key exactly if they are one value: the
/// texts have no part in it, and null is told apart from every value.
pub proof fn keys_tell_values_apart(
    e: ElementType,
    a: Cell,
    b: Cell,
    text_a: Seq<u8>,
    text_b: Seq<u8>,
)
    requires
        self_keyed(e),
        is_of(e, a),
        is_of(e, b),
    ensures
        key_of(Element::Known(e), a, text_a) == key_of(Element::Known(e), b, text_b) <==> a == b,
{
}

/// Two values of a type whose values do not make their own keys have one key exactly if their debug
/// texts are the same; and null is told apart from every value.
pub proof fn texts_tell_other_values_apart(
    e: Element,
    a: Cell,
    b: Cell,
    text_a: Seq<u8>,
    text_b: Seq<u8>,
)
    requires
        e matches Element::Known(t) ==> !(t is Utf8) && !(t is FixedSizeBinary) && !(t is Int32)
            && !(t is Int64) && !(t is DurationNanos),
    ensures
        !(a is Null) && !(b is Null) ==> (key_of(e, a, text_a) == key_of(e, b, text_b) <==> text_a
            == text_b),
        a is Null && b is Null ==> key_of(e, a, text_a) == key_of(e, b, text_b),
        a is Null && !(b is Null) ==> key_of(e, a, text_a) != key_of(e, b, text_b),
{
}

/// Whether two sequences of bytes are the same.
pub fn same_bytes(a: &Vec<u8>, b: &Vec<u8>) -> (r: bool)
    ensures
        r == (a@ == b@),
{
    if a.len() != b.len() {
        return false;
    }
    let mut i: usize = 0;
    while i < a.len()
        invariant
            i <= a.len(),
            a.len() == b.len(),
            forall|j: int| 0 <= j < i ==> a[j] == b[j],
        decreases a.len() - i,
    {
        if a[i] != b[i] {
            return false;
        }
        i += 1;
    }
    assert(a@ =~= b@);
    true
}

/// Whether two keys are the same.
pub fn same_key(a: &ValueKey, b: &ValueKey) -> (r: bool)
    ensures
        r == (a@ == b@),
{
    match (a, b) {
        (ValueKey::Null, ValueKey::Null) => true,
        (ValueKey::Bytes(x), ValueKey::Bytes(y)) => same_bytes(x, y),
        (ValueKey::Inline(x), ValueKey::Inline(y)) => *x == *y,
        _ => false,
    }
}

/// A number that equal keys share.
pub closed spec fn digest(k: KeyModel) -> u64 {
    match k {
        KeyModel::Null => 0,
        KeyModel::Bytes(b) => digest_bytes(b),
        KeyModel::Inline(w) => w,
    }
}

/// The FNV-1a hash of bytes.
spec fn digest_bytes(b: Seq<u8>) -> u64
    decreases b.len(),
{
    if b.len() == 0 {
        0xcbf2_9ce4_8422_2325
    } else {
        ((digest_bytes(b.drop_last()) ^ (b.last() as u64)) as u64).wrapping_mul(0x100_0000_01b3)
    }
}

pub(crate) fn digest_key(k: &ValueKey) -> (r: u64)
    ensures
        r == digest(k@),
{
    match k {
        ValueKey::Null => 0,
        ValueKey::Inline(w) => *w,
        ValueKey::Bytes(b) => {
            let mut h: u64 = 0xcbf2_9ce4_8422_2325;
            let mut i: usize = 0;
            while i < b.len()
                invariant
                    i <= b.len(),
                    h == digest_bytes(b@.take(i as int)),
                decreases b.len() - i,
            {
                proof {
                    assert(b@.take(i + 1).drop_last() =~= b@.take(i as int));
                }
                h = (h ^ (b[i] as u64)).wrapping_mul(0x100_0000_01b3);
                i += 1;
            }
            assert(b@.take(i as int) =~= b@);
            h
        },
    }
}

} // verus!
