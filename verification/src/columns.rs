//! Dictionary columns: reading their keys and values, and building them anew.

use vstd::prelude::*;

use crate::arrow::{
    dictionary_values, is_dictionary_of, keys_u16, keys_u8, new_dictionary_u16, new_dictionary_u8,
    ArrowArray,
};
use crate::index_type::capacity;
use crate::model::{of_dictionaries, ArrayModel, ColumnType, IndexType};

verus! {

/// The key types that dictionaries are read and built with.
pub open spec fn supported(t: IndexType) -> bool {
    t is UInt8 || t is UInt16
}

/// Whether an array is a dictionary with a supported key type.
pub open spec fn readable(array: ArrayModel) -> bool {
    array.ty matches ColumnType::Dictionary(t, _) && supported(t)
}

/// The values of a dictionary column. Of values that are dictionaries themselves the type is not
/// said.
pub fn dict_values(col: &ArrowArray, key_type: IndexType) -> (r: ArrowArray)
    requires
        readable(col@),
        col@.ty.key() == Some(key_type),
    ensures
        r@.cells == col@.dictionary,
        r@.well_formed(),
        !of_dictionaries(col@.ty.element()) ==> {
            &&& r@.ty == ColumnType::Plain(col@.ty.element())
            &&& r@.texts == col@.texts
            &&& r@.widths == col@.widths
            &&& r@.bulk == col@.bulk
        },
{
    dictionary_values(col)
}

/// A key moved up by an offset.
pub open spec fn moved(key: Option<u64>, offset: nat) -> Option<u64> {
    match key {
        Some(k) => Some((k + offset) as u64),
        None => None,
    }
}

/// The keys of a dictionary column, each moved up by an offset; null stays null.
pub fn extract_offset_keys(col: &ArrowArray, key_type: IndexType, offset: usize) -> (r: Vec<
    Option<u64>,
>)
    requires
        readable(col@),
        col@.ty.key() == Some(key_type),
        forall|i: int|
            0 <= i < col@.keys.len() ==> (#[trigger] col@.keys[i] matches Some(k) ==> k + offset
                <= u64::MAX),
    ensures
        r.len() == col@.keys.len(),
        forall|i: int|
            0 <= i < r.len() ==> #[trigger] r[i] == moved(col@.keys[i], offset as nat),
{
    let mut r: Vec<Option<u64>> = Vec::new();
    match key_type {
        IndexType::UInt8 => {
            let keys = keys_u8(col);
            let mut i: usize = 0;
            while i < keys.len()
                invariant
                    i <= keys.len(),
                    r.len() == i,
                    keys.len() == col@.keys.len(),
                    forall|j: int|
                        0 <= j < keys.len() ==> col@.keys[j] == (match #[trigger] keys[j] {
                            Some(k) => Some(k as u64),
                            None => None,
                        }),
                    forall|j: int|
                        0 <= j < col@.keys.len() ==> (#[trigger] col@.keys[j] matches Some(k) ==> k
                            + offset <= u64::MAX),
                    forall|j: int|
                        0 <= j < i ==> #[trigger] r[j] == moved(col@.keys[j], offset as nat),
                decreases keys.len() - i,
            {
                r.push(
                    match keys[i] {
                        Some(k) => Some(k as u64 + offset as u64),
                        None => None,
                    },
                );
                i += 1;
            }
        },
        _ => {
            let keys = keys_u16(col);
            let mut i: usize = 0;
            while i < keys.len()
                invariant
                    i <= keys.len(),
                    r.len() == i,
                    keys.len() == col@.keys.len(),
                    forall|j: int|
                        0 <= j < keys.len() ==> col@.keys[j] == (match #[trigger] keys[j] {
                            Some(k) => Some(k as u64),
                            None => None,
                        }),
                    forall|j: int|
                        0 <= j < col@.keys.len() ==> (#[trigger] col@.keys[j] matches Some(k) ==> k
                            + offset <= u64::MAX),
                    forall|j: int|
                        0 <= j < i ==> #[trigger] r[j] == moved(col@.keys[j], offset as nat),
                decreases keys.len() - i,
            {
                r.push(
                    match keys[i] {
                        Some(k) => Some(k as u64 + offset as u64),
                        None => None,
                    },
                );
                i += 1;
            }
        },
    }
    r
}

/// A key cut down to a key type.
pub open spec fn truncated(key: Option<u64>, target: IndexType) -> Option<u64> {
    match key {
        Some(k) => Some((k as nat % capacity(target)) as u64),
        None => None,
    }
}

/// Keys cut down to a key type.
pub open spec fn all_truncated(keys: Seq<Option<u64>>, target: IndexType) -> Seq<Option<u64>> {
    Seq::new(keys.len(), |i: int| truncated(keys[i], target))
}

/// A dictionary column of keys, which are cut down to the key type, and values.
pub fn build_dict_array(
    keys: &Vec<Option<u64>>,
    target_key_type: IndexType,
    unified_values: &ArrowArray,
) -> (r: ArrowArray)
    requires
        supported(target_key_type),
        forall|i: int|
            0 <= i < keys.len() ==> (truncated(#[trigger] keys[i], target_key_type) matches Some(k)
                ==> k < unified_values@.cells.len()),
    ensures
        is_dictionary_of(
            r@,
            target_key_type,
            all_truncated(keys@, target_key_type),
            unified_values@,
        ),
{
    match target_key_type {
        IndexType::UInt8 => {
            let mut typed: Vec<Option<u8>> = Vec::new();
            let mut i: usize = 0;
            while i < keys.len()
                invariant
                    i <= keys.len(),
                    typed.len() == i,
                    forall|j: int|
                        0 <= j < i ==> truncated(keys[j], IndexType::UInt8) == (
                        match #[trigger] typed[j] {
                            Some(k) => Some(k as u64),
                            None => None,
                        }),
                decreases keys.len() - i,
            {
                typed.push(
                    match keys[i] {
                        Some(k) => {
                            assert(k as u8 == k % 256) by (bit_vector);
                            Some(k as u8)
                        },
                        None => None,
                    },
                );
                i += 1;
            }
            proof {
                assert forall|j: int| 0 <= j < typed.len() implies (#[trigger] typed[j] matches Some(
                    k,
                ) ==> k < unified_values@.cells.len()) by {
                    assert(truncated(keys[j], IndexType::UInt8) is Some ==> keys[j] is Some);
                }
                assert(Seq::new(
                    typed@.len(),
                    |j: int|
                        match typed[j] {
                            Some(k) => Some(k as u64),
                            None => None,
                        },
                ) =~= all_truncated(keys@, target_key_type));
            }
            new_dictionary_u8(typed, unified_values)
        },
        _ => {
            let mut typed: Vec<Option<u16>> = Vec::new();
            let mut i: usize = 0;
            while i < keys.len()
                invariant
                    i <= keys.len(),
                    typed.len() == i,
                    forall|j: int|
                        0 <= j < i ==> truncated(keys[j], IndexType::UInt16) == (
                        match #[trigger] typed[j] {
                            Some(k) => Some(k as u64),
                            None => None,
                        }),
                decreases keys.len() - i,
            {
                typed.push(
                    match keys[i] {
                        Some(k) => {
                            assert(k as u16 == k % 65536) by (bit_vector);
                            Some(k as u16)
                        },
                        None => None,
                    },
                );
                i += 1;
            }
            proof {
                assert forall|j: int| 0 <= j < typed.len() implies (#[trigger] typed[j] matches Some(
                    k,
                ) ==> k < unified_values@.cells.len()) by {
                    assert(truncated(keys[j], IndexType::UInt16) is Some ==> keys[j] is Some);
                }
                assert(Seq::new(
                    typed@.len(),
                    |j: int|
                        match typed[j] {
                            Some(k) => Some(k as u64),
                            None => None,
                        },
                ) =~= all_truncated(keys@, target_key_type));
            }
            new_dictionary_u16(typed, unified_values)
        },
    }
}

/// The keys of a column, each moved up by an offset.
pub open spec fn all_moved(keys: Seq<Option<u64>>, offset: nat) -> Seq<Option<u64>> {
    Seq::new(keys.len(), |i: int| moved(keys[i], offset))
}

/// A column with its keys moved up by an offset, over other values.
pub fn remap_dict_keys(
    col: &ArrowArray,
    original_key_type: IndexType,
    target_key_type: IndexType,
    unified_values: &ArrowArray,
    offset: usize,
) -> (r: ArrowArray)
    requires
        readable(col@),
        col@.ty.key() == Some(original_key_type),
        supported(target_key_type),
        forall|i: int|
            0 <= i < col@.keys.len() ==> (#[trigger] col@.keys[i] matches Some(k) ==> {
                &&& k + offset <= u64::MAX
                &&& (k + offset) % (capacity(target_key_type) as int) < unified_values@.cells.len()
            }),
    ensures
        is_dictionary_of(
            r@,
            target_key_type,
            all_truncated(all_moved(col@.keys, offset as nat), target_key_type),
            unified_values@,
        ),
{
    let keys = extract_offset_keys(col, original_key_type, offset);
    proof {
        assert(keys@ =~= all_moved(col@.keys, offset as nat));
        assert forall|i: int| 0 <= i < keys.len() implies (truncated(
            #[trigger] keys[i],
            target_key_type,
        ) matches Some(k) ==> k < unified_values@.cells.len()) by {
            assert(col@.keys[i] is Some || col@.keys[i] is None);
        }
    }
    build_dict_array(&keys, target_key_type, unified_values)
}

/// The index that takes a key's place.
pub open spec fn mapped(key: Option<u64>, mapping: Seq<usize>) -> Option<u64> {
    match key {
        Some(k) => Some(mapping[k as int] as u64),
        None => None,
    }
}

/// The indices that take the keys' places.
pub open spec fn all_mapped(keys: Seq<Option<u64>>, mapping: Seq<usize>) -> Seq<Option<u64>> {
    Seq::new(keys.len(), |i: int| mapped(keys[i], mapping))
}

/// A column with each key replaced as a mapping says, over other values.
pub fn remap_dict_keys_with_mapping(
    col: &ArrowArray,
    original_key_type: IndexType,
    target_key_type: IndexType,
    unified_values: &ArrowArray,
    mapping: &Vec<usize>,
) -> (r: ArrowArray)
    requires
        readable(col@),
        col@.ty.key() == Some(original_key_type),
        supported(target_key_type),
        forall|i: int|
            0 <= i < col@.keys.len() ==> (#[trigger] col@.keys[i] matches Some(k) ==> {
                &&& k < mapping.len()
                &&& mapping[k as int] as nat % capacity(target_key_type)
                    < unified_values@.cells.len()
            }),
    ensures
        is_dictionary_of(
            r@,
            target_key_type,
            all_truncated(all_mapped(col@.keys, mapping@), target_key_type),
            unified_values@,
        ),
{
    let keys = extract_offset_keys(col, original_key_type, 0);
    let mut remapped: Vec<Option<u64>> = Vec::new();
    let mut i: usize = 0;
    while i < keys.len()
        invariant
            i <= keys.len(),
            remapped.len() == i,
            keys.len() == col@.keys.len(),
            forall|j: int| 0 <= j < keys.len() ==> #[trigger] keys[j] == moved(col@.keys[j], 0),
            forall|j: int|
                0 <= j < col@.keys.len() ==> (#[trigger] col@.keys[j] matches Some(k) ==> k
                    < mapping.len()),
            forall|j: int| 0 <= j < i ==> #[trigger] remapped[j] == mapped(col@.keys[j], mapping@),
        decreases keys.len() - i,
    {
        remapped.push(
            match keys[i] {
                Some(v) => Some(mapping[v as usize] as u64),
                None => None,
            },
        );
        i += 1;
    }
    proof {
        assert(remapped@ =~= all_mapped(col@.keys, mapping@));
        assert forall|j: int| 0 <= j < remapped.len() implies (truncated(
            #[trigger] remapped[j],
            target_key_type,
        ) matches Some(k) ==> k < unified_values@.cells.len()) by {
            assert(col@.keys[j] is Some || col@.keys[j] is None);
        }
    }
    build_dict_array(&remapped, target_key_type, unified_values)
}

} // verus!
