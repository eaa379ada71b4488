//! How many values the keys of each integer type can tell apart, and which wider type to take.

use vstd::prelude::*;

use crate::model::IndexType;

verus! {

/// The widest key type that a unified dictionary may have.
pub const MAX_DICT_KEY_TYPE: IndexType = IndexType::UInt16;

/// How many values the keys of a type can tell apart: the non-negative values of the type, or
/// the largest 64-bit number where they are more.
pub open spec fn capacity(t: IndexType) -> nat {
    match t {
        IndexType::Int8 => 0x80,
        IndexType::Int16 => 0x8000,
        IndexType::Int32 => 0x8000_0000,
        IndexType::Int64 => 0x8000_0000_0000_0000,
        IndexType::UInt8 => 0x100,
        IndexType::UInt16 => 0x1_0000,
        IndexType::UInt32 => 0x1_0000_0000,
        IndexType::UInt64 => 0xffff_ffff_ffff_ffff,
        IndexType::Other => 0,
    }
}

/// Whether a type is one of the signed integers.
pub open spec fn signed(t: IndexType) -> bool {
    t is Int8 || t is Int16 || t is Int32 || t is Int64
}

/// The key type for a number of values: the given one as long as it suffices, else the narrowest
/// sufficient type of the same signedness and at least sixteen bits, else `UInt64`.
pub open spec fn widened(original: IndexType, total: nat) -> IndexType {
    if total <= capacity(original) {
        original
    } else if signed(original) {
        if total <= capacity(IndexType::Int16) {
            IndexType::Int16
        } else if total <= capacity(IndexType::Int32) {
            IndexType::Int32
        } else if total <= capacity(IndexType::Int64) {
            IndexType::Int64
        } else {
            IndexType::UInt64
        }
    } else {
        if total <= capacity(IndexType::UInt16) {
            IndexType::UInt16
        } else if total <= capacity(IndexType::UInt32) {
            IndexType::UInt32
        } else {
            IndexType::UInt64
        }
    }
}

/// Whether a key type is too wide for a unified dictionary.
pub open spec fn too_wide(t: IndexType) -> bool {
    capacity(t) > capacity(MAX_DICT_KEY_TYPE)
}

/// How many values the keys of a type can tell apart.
pub fn key_type_capacity(dt: IndexType) -> (r: u64)
    ensures
        r == capacity(dt),
{
    match dt {
        IndexType::Int8 => i8::MAX as u64 + 1,
        IndexType::Int16 => i16::MAX as u64 + 1,
        IndexType::Int32 => i32::MAX as u64 + 1,
        IndexType::Int64 => i64::MAX as u64 + 1,
        IndexType::UInt8 => u8::MAX as u64 + 1,
        IndexType::UInt16 => u16::MAX as u64 + 1,
        IndexType::UInt32 => u32::MAX as u64 + 1,
        IndexType::UInt64 => u64::MAX,
        IndexType::Other => 0,
    }
}

/// Whether a key type is wider than [`MAX_DICT_KEY_TYPE`].
pub fn exceeds_max_dict_key(key_type: IndexType) -> (r: bool)
    ensures
        r == too_wide(key_type),
{
    key_type_capacity(key_type) > key_type_capacity(MAX_DICT_KEY_TYPE)
}

/// The key type for a dictionary of `total_values` values whose key type was `original`.
pub fn widen_key_type(original: IndexType, total_values: usize) -> (r: IndexType)
    ensures
        r == widened(original, total_values as nat),
{
    if total_values as u64 <= key_type_capacity(original) {
        return original;
    }
    let chain: [IndexType; 3] = match original {
        IndexType::Int8 | IndexType::Int16 | IndexType::Int32 | IndexType::Int64 => {
            [IndexType::Int16, IndexType::Int32, IndexType::Int64]
        },
        _ => [IndexType::UInt16, IndexType::UInt32, IndexType::UInt64],
    };
    let mut i: usize = 0;
    while i < 3
        invariant
            i <= 3,
            forall|j: int| 0 <= j < i ==> total_values > capacity(#[trigger] chain[j]),
            total_values > capacity(original),
            chain@ == (if signed(original) {
                seq![IndexType::Int16, IndexType::Int32, IndexType::Int64]
            } else {
                seq![IndexType::UInt16, IndexType::UInt32, IndexType::UInt64]
            }),
        decreases 3 - i,
    {
        if total_values as u64 <= key_type_capacity(chain[i]) {
            proof {
                if i >= 1 {
                    assert(total_values > capacity(chain[0]));
                }
                if i >= 2 {
                    assert(total_values > capacity(chain[1]));
                }
            }
            return chain[i];
        }
        i += 1;
    }
    assert(total_values > capacity(chain[0]));
    assert(total_values > capacity(chain[1]));
    assert(total_values > capacity(chain[2]));
    IndexType::UInt64
}

/// A widened key type can tell the values apart for which it was taken.
pub proof fn widening_suffices(original: IndexType, total: nat)
    requires
        total <= usize::MAX,
    ensures
        total <= capacity(widened(original, total)),
{
}

/// Widening never takes a type that tells fewer values apart than the one before.
pub proof fn widening_never_narrows(original: IndexType, total: nat)
    ensures
        capacity(original) <= capacity(widened(original, total)),
{
}

/// More values never lead to a narrower key type.
pub proof fn widening_is_monotone(original: IndexType, fewer: nat, more: nat)
    requires
        fewer <= more,
    ensures
        capacity(widened(original, fewer)) <= capacity(widened(original, more)),
{
}

/// From an 8-bit or 16-bit unsigned key type, widening ends beyond the widest permitted key type
/// exactly when there are more than 65,536 values.
pub proof fn fallback_boundary(original: IndexType, total: nat)
    requires
        original is UInt8 || original is UInt16,
    ensures
        too_wide(widened(original, total)) <==> total > 65536,
{
}

/// A key type that does not suffice is widened to the narrowest one of its signedness that does and
/// has at least sixteen bits; one that suffices is kept.
pub proof fn widening_takes_the_narrowest(original: IndexType, total: nat, other: IndexType)
    requires
        !(original is Other),
    ensures
        total <= capacity(original) ==> widened(original, total) == original,
        total > capacity(original) && !(original is UInt64) ==> widened(original, total) != original,
        total > capacity(original) && total <= capacity(other) && !(other is Other) && !(other
            is Int8) && !(other is UInt8) && signed(other) == signed(original) ==> {
            &&& capacity(widened(original, total)) <= capacity(other)
            &&& signed(widened(original, total)) == signed(original)
        },
        total > 0xffff_ffff_ffff_ffff ==> widened(original, total) == IndexType::UInt64,
{
}

/// Keys tell as many values apart as their bits have non-negative values; those of 64 bits without
/// sign one fewer, as far as it can be counted in 64 bits.
pub proof fn capacities_are_powers_of_two()
    ensures
        capacity(IndexType::UInt8) == 256,
        capacity(IndexType::UInt16) == 256 * capacity(IndexType::UInt8),
        capacity(IndexType::UInt32) == 65536 * capacity(IndexType::UInt16),
        capacity(IndexType::UInt64) + 1 == 65536 * 65536 * capacity(IndexType::UInt32),
        2 * capacity(IndexType::Int8) == capacity(IndexType::UInt8),
        2 * capacity(IndexType::Int16) == capacity(IndexType::UInt16),
        2 * capacity(IndexType::Int32) == capacity(IndexType::UInt32),
        2 * capacity(IndexType::Int64) == capacity(IndexType::UInt64) + 1,
{
}

} // verus!
