//! Compact per-cell storage.
use vstd::prelude::*;

verus! {

/// Sentinel type id for empty cells.
pub const TYPE_EMPTY: u8 = 0;

/// The dirty bit of `CellFlags`.
pub const FLAG_DIRTY: u8 = 1;

/// Per-cell flag bits.
#[derive(Clone, Copy, Debug, PartialEq, Eq, Structural)]
pub struct CellFlags(pub u8);

impl CellFlags {
    /// Bit marking a cell as queued for re-evaluation.
    pub const DIRTY: u8 = 1;

    /// Whether any bit of `bit` is set in `flags`.
    pub open spec fn has_bit(flags: u8, bit: u8) -> bool {
        flags & bit != 0
    }

    pub fn empty() -> (r: Self)
        ensures
            r.0 == 0,
    {
        CellFlags(0)
    }

    pub fn contains(self, bit: u8) -> (r: bool)
        ensures
            r == Self::has_bit(self.0, bit),
    {
        self.0 & bit != 0
    }

    pub fn set(&mut self, bit: u8)
        ensures
            final(self).0 == old(self).0 | bit,
    {
        self.0 = self.0 | bit;
    }

    pub fn clear(&mut self, bit: u8)
        ensures
            final(self).0 == old(self).0 & !bit,
    {
        self.0 = self.0 & !bit;
    }
}

impl Default for CellFlags {
    fn default() -> (r: Self)
        ensures
            r.0 == 0,
    {
        CellFlags(0)
    }
}

/// After `set(bit)` the flags contain `bit`; other bits are kept.
pub proof fn lemma_set_then_contains(flags: u8, bit: u8, other: u8)
    requires
        bit != 0,
    ensures
        CellFlags::has_bit(flags | bit, bit),
        CellFlags::has_bit(flags, other) ==> CellFlags::has_bit(flags | bit, other),
{
    assert((flags | bit) & bit != 0) by (bit_vector)
        requires
            bit != 0,
    ;
    assert(flags & other != 0 ==> (flags | bit) & other != 0) by (bit_vector);
}

/// After `clear(bit)` the flags no longer contain `bit`; bits outside `bit` are kept.
pub proof fn lemma_clear_then_not_contains(flags: u8, bit: u8, other: u8)
    requires
        other & bit == 0,
    ensures
        !CellFlags::has_bit(flags & !bit, bit),
        CellFlags::has_bit(flags & !bit, other) == CellFlags::has_bit(flags, other),
{
    assert((flags & !bit) & bit == 0) by (bit_vector);
    assert(((flags & !bit) & other != 0) == (flags & other != 0)) by (bit_vector)
        requires
            other & bit == 0,
    ;
}

/// Fixed-size cell record (8 bytes).
#[derive(Clone, Copy, Debug, PartialEq, Eq, Structural)]
pub struct Cell {
    pub type_id: u8,
    pub flags: u8,
    pub state: u16,
    pub reserved: u32,
}

impl Cell {
    /// The all-zero empty cell.
    pub open spec fn spec_empty() -> Cell {
        Cell { type_id: TYPE_EMPTY, flags: 0, state: 0, reserved: 0 }
    }

    /// A cell is empty when its type is `TYPE_EMPTY`, whatever its other fields.
    pub open spec fn spec_is_empty(self) -> bool {
        self.type_id == TYPE_EMPTY
    }

    pub fn empty() -> (r: Self)
        ensures
            r == Cell::spec_empty(),
    {
        Cell { type_id: TYPE_EMPTY, flags: 0, state: 0, reserved: 0 }
    }

    pub fn is_empty(self) -> (r: bool)
        ensures
            r == self.spec_is_empty(),
    {
        self.type_id == TYPE_EMPTY
    }

    pub fn flags(self) -> (r: CellFlags)
        ensures
            r.0 == self.flags,
    {
        CellFlags(self.flags)
    }

    pub fn set_flags(&mut self, flags: CellFlags)
        ensures
            *final(self) == (Cell { flags: flags.0, ..*old(self) }),
    {
        self.flags = flags.0;
    }
}

impl Default for Cell {
    fn default() -> (r: Self)
        ensures
            r == Cell::spec_empty(),
    {
        Cell::empty()
    }
}

} // verus!
