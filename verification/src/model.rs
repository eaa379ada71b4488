//! Mathematical models of Arrow types, arrays and schema fields.

use vstd::prelude::*;

verus! {

/// The integer type of a dictionary's keys.
#[derive(Debug, Clone, Copy, PartialEq, Eq, Structural)]
pub enum IndexType {
    Int8,
    Int16,
    Int32,
    Int64,
    UInt8,
    UInt16,
    UInt32,
    UInt64,
    /// Anything that is no integer type.
    Other,
}

/// The types of single values whose contents the contracts speak of.
#[derive(Debug, Clone, Copy, PartialEq, Eq, Structural)]
pub enum ElementType {
    Utf8,
    LargeUtf8,
    Binary,
    LargeBinary,
    FixedSizeBinary(i32),
    Int8,
    Int16,
    Int32,
    Int64,
    UInt8,
    UInt16,
    UInt32,
    UInt64,
    Boolean,
    TimestampNanos,
    DurationNanos,
}

/// What kind of type a type is.
#[derive(Debug, Clone, Copy, PartialEq, Eq, Structural)]
pub enum Kind {
    /// One whose values hold no further values, and that is none of the following.
    Single,
    /// Binary values of one size.
    SizedBinary(i32),
    /// The type whose only value is null.
    Null,
    /// Lists, counted with 32-bit offsets.
    List,
    /// Lists, counted with 64-bit offsets.
    LargeList,
    /// Lists of one length.
    SizedList(i32),
    Struct,
    Dictionary,
    ListView,
    LargeListView,
    Pairs,
    Union,
    Runs,
    /// A time of day in 32 bits, in a unit that there are no arrays for.
    ShortMicroseconds,
    ShortNanoseconds,
    /// A time of day in 64 bits, in a unit that there are no arrays for.
    LongSeconds,
    LongMilliseconds,
}

/// The type of a single value.
pub enum Element {
    /// One whose values the contracts speak of.
    Known(ElementType),
    /// Another one whose values hold no further values, by its name as Arrow displays it: a
    /// floating-point or decimal
    /// number; a date; a time of day in a unit that Arrow has arrays for; a timestamp or a duration
    /// in seconds, milliseconds or microseconds; a timestamp with a time zone; an interval; a text
    /// view or a binary view.
    Single(Seq<char>),
    /// Any other one, by a name that no other type has, and by the kinds of the types that it is
    /// made of: its own first, then those of all fields in it.
    Nested(Seq<char>, Seq<Kind>),
}

/// Whether the values of a type are dictionaries themselves.
pub open spec fn of_dictionaries(e: Element) -> bool {
    e matches Element::Nested(_, kinds) && kinds.len() > 0 && kinds[0] == Kind::Dictionary
}

/// The type of a column.
pub enum ColumnType {
    Plain(Element),
    Dictionary(IndexType, Element),
}

impl ColumnType {
    /// The type of the values in the column.
    pub open spec fn element(self) -> Element {
        match self {
            ColumnType::Plain(e) => e,
            ColumnType::Dictionary(_, e) => e,
        }
    }

    /// The key type of a dictionary column.
    pub open spec fn key(self) -> Option<IndexType> {
        match self {
            ColumnType::Plain(_) => None,
            ColumnType::Dictionary(k, _) => Some(k),
        }
    }

    /// Whether the values of the column hold no further values.
    pub open spec fn single(self) -> bool {
        !(self.element() is Nested)
    }

    /// Whether the values of the column are of one of the listed types.
    pub open spec fn listed(self) -> bool {
        self.element() is Known
    }
}

/// One value: the bytes of a text or binary value, or the number of an integer, a
/// timestamp, a duration or a boolean (0 or 1); null where the position is marked as null.
pub enum Cell {
    Null,
    Bytes(Seq<u8>),
    Int(int),
    /// A value of a type that is not listed, by what an array keeps of it.
    Unlisted(Seq<u8>),
}

/// What an Arrow array holds.
pub struct ArrayModel {
    pub ty: ColumnType,
    /// The value at each position: for a dictionary array, the value that the key stands for.
    pub cells: Seq<Cell>,
    /// The keys of a dictionary array.
    pub keys: Seq<Option<u64>>,
    /// The values of a dictionary array's dictionary.
    pub dictionary: Seq<Cell>,
    /// For an array that is no dictionary array, the debug text of each position on its own, as
    /// bytes; for a dictionary array, that of each value of its dictionary.
    pub texts: Seq<Seq<u8>>,
    /// For texts and binary values that are counted with 32-bit offsets, how many bytes the array
    /// keeps for each position; a null may have some too. For values that hold further values, how
    /// many positions and such bytes the arrays in it keep for each position, as far as lists and
    /// structs go. For a dictionary array, how many the dictionary keeps for each of its values.
    pub widths: Seq<nat>,
    /// For texts and binary values that are counted with 32-bit offsets, how many bytes the array
    /// keeps in all; for a dictionary array, the dictionary.
    pub stock: nat,
    /// How many positions the arrays in the array have, and how many such bytes they and the array
    /// keep; for a dictionary array, those of the dictionary.
    pub bulk: nat,
    /// How deep arrays lie in the array; for a dictionary array, in the dictionary.
    pub depth: nat,
}

/// Whether a value is one of a type: null, or bytes or a number in the type's range.
pub open spec fn is_of(e: ElementType, cell: Cell) -> bool {
    match (e, cell) {
        (_, Cell::Null) => true,
        (ElementType::Utf8, Cell::Bytes(_)) => true,
        (ElementType::LargeUtf8, Cell::Bytes(_)) => true,
        (ElementType::Binary, Cell::Bytes(_)) => true,
        (ElementType::LargeBinary, Cell::Bytes(_)) => true,
        (ElementType::FixedSizeBinary(n), Cell::Bytes(b)) => b.len() == n,
        (ElementType::Int8, Cell::Int(v)) => i8::MIN <= v <= i8::MAX,
        (ElementType::Int16, Cell::Int(v)) => i16::MIN <= v <= i16::MAX,
        (ElementType::Int32, Cell::Int(v)) => i32::MIN <= v <= i32::MAX,
        (ElementType::Int64, Cell::Int(v)) => i64::MIN <= v <= i64::MAX,
        (ElementType::UInt8, Cell::Int(v)) => 0 <= v <= u8::MAX,
        (ElementType::UInt16, Cell::Int(v)) => 0 <= v <= u16::MAX,
        (ElementType::UInt32, Cell::Int(v)) => 0 <= v <= u32::MAX,
        (ElementType::UInt64, Cell::Int(v)) => 0 <= v <= u64::MAX,
        (ElementType::Boolean, Cell::Int(v)) => 0 <= v <= 1,
        (ElementType::TimestampNanos, Cell::Int(v)) => i64::MIN <= v <= i64::MAX,
        (ElementType::DurationNanos, Cell::Int(v)) => i64::MIN <= v <= i64::MAX,
        _ => false,
    }
}

/// Whether all values are of a type; of a type that is not listed nothing is said.
pub open spec fn all_of(e: Element, cells: Seq<Cell>) -> bool {
    e matches Element::Known(t) ==> forall|i: int|
        0 <= i < cells.len() ==> is_of(t, #[trigger] cells[i])
}

/// What a position without a value has: null, but for the type whose only value is null, the
/// positions of which are not marked.
pub open spec fn blank(e: Element) -> Cell {
    match e {
        Element::Nested(_, kinds) => if kinds.len() > 0 && kinds[0] == Kind::Null {
            Cell::Unlisted(seq![])
        } else {
            Cell::Null
        },
        _ => Cell::Null,
    }
}

/// The value that a key stands for.
pub open spec fn decoded(e: Element, key: Option<u64>, dictionary: Seq<Cell>) -> Cell {
    match key {
        None => blank(e),
        Some(k) => dictionary[k as int],
    }
}

impl ArrayModel {
    /// What every array is: its values are of its type; and where it is a dictionary array, its
    /// keys lie in its dictionary, and each position has the value that its key stands for.
    pub open spec fn well_formed(self) -> bool {
        &&& all_of(self.ty.element(), self.cells)
        &&& self.ty.element() is Nested ==> sum_of(self.widths) <= self.bulk
        &&& self.ty is Plain ==> {
            &&& self.texts.len() == self.cells.len()
            &&& widths_match(self.ty.element(), self.cells, self.widths)
        }
        &&& self.ty is Dictionary ==> {
            &&& all_of(self.ty.element(), self.dictionary)
            &&& self.texts.len() == self.dictionary.len()
            &&& widths_match(self.ty.element(), self.dictionary, self.widths)
            &&& self.keys.len() == self.cells.len()
            &&& forall|i: int|
                0 <= i < self.keys.len() ==> (#[trigger] self.keys[i] matches Some(k)
                    ==> k < self.dictionary.len())
            &&& forall|i: int|
                0 <= i < self.cells.len() ==> #[trigger] self.cells[i] == decoded(
                    self.ty.element(),
                    self.keys[i],
                    self.dictionary,
                )
        }
    }

    /// Whether the array marks a position as null: by a null key, or by a null value.
    pub open spec fn marks_null(self) -> bool {
        match self.ty {
            ColumnType::Dictionary(_, _) => exists|i: int|
                0 <= i < self.keys.len() && #[trigger] self.keys[i] is None,
            ColumnType::Plain(_) => exists|i: int|
                0 <= i < self.cells.len() && #[trigger] self.cells[i] is Null,
        }
    }
}

/// What a schema says of one column.
pub struct FieldModel {
    pub name: Seq<char>,
    pub ty: ColumnType,
    pub nullable: bool,
    pub metadata: Map<Seq<char>, Seq<char>>,
}

/// Whether arrays of a type count the bytes of their values with 32-bit offsets.
pub open spec fn has_small_offsets(e: Element) -> bool {
    e == Element::Known(ElementType::Utf8) || e == Element::Known(ElementType::Binary)
}

/// Whether arrays of a type count with 32-bit offsets, themselves or in what their values hold.
pub open spec fn counted(e: Element) -> bool {
    has_small_offsets(e) || e is Nested
}

/// Whether bytes are those that an array of a type keeps for its values: as many as a text or a
/// binary value has.
pub open spec fn widths_match(e: Element, cells: Seq<Cell>, widths: Seq<nat>) -> bool {
    counted(e) ==> {
        &&& widths.len() == cells.len()
        &&& forall|i: int|
            0 <= i < cells.len() ==> (#[trigger] cells[i] matches Cell::Bytes(b) ==> widths[i]
                == b.len())
    }
}

/// A sum.
pub open spec fn sum_of(s: Seq<nat>) -> nat
    decreases s.len(),
{
    if s.len() == 0 {
        0
    } else {
        sum_of(s.drop_last()) + s.last()
    }
}

/// Whether so many bytes fit one array of a type.
pub open spec fn fits_offsets(e: Element, bytes: nat) -> bool {
    counted(e) ==> bytes <= i32::MAX
}

/// How many bytes, or nested positions, a dictionary array has at most without its dictionary.
pub open spec fn native_bytes(a: ArrayModel) -> nat {
    if a.ty.element() is Nested {
        a.cells.len() * sum_of(a.widths)
    } else {
        payload(a.cells)
    }
}

/// The bytes of a value.
pub open spec fn cell_bytes(cell: Cell) -> nat {
    match cell {
        Cell::Bytes(b) => b.len(),
        _ => 0,
    }
}

/// The bytes of all the values.
pub open spec fn payload(cells: Seq<Cell>) -> nat
    decreases cells.len(),
{
    if cells.len() == 0 {
        0
    } else {
        payload(cells.drop_last()) + cell_bytes(cells.last())
    }
}

} // verus!
