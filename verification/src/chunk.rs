//! Dense 32³ cell storage for one chunk.
use vstd::prelude::*;

use crate::cell::Cell;
use crate::constants::CHUNK_VOLUME;

verus! {

/// Fixed-size dense chunk array (`CHUNK_VOLUME` cells). Empty cells use the
/// default sentinel.
#[derive(Clone, Debug)]
pub struct Chunk {
    pub cells: Vec<Cell>,
}

impl Chunk {
    /// All cells of the chunk are empty.
    pub open spec fn spec_all_empty(cells: Seq<Cell>) -> bool {
        forall|i: int| 0 <= i < cells.len() ==> (#[trigger] cells[i]).spec_is_empty()
    }

    pub fn new() -> (r: Self)
        ensures
            r.cells@ == Seq::new(CHUNK_VOLUME as nat, |i: int| Cell::spec_empty()),
    {
        let mut cells: Vec<Cell> = Vec::with_capacity(CHUNK_VOLUME);
        let mut i: usize = 0;
        while i < CHUNK_VOLUME
            invariant
                i <= CHUNK_VOLUME,
                cells@ == Seq::new(i as nat, |j: int| Cell::spec_empty()),
            decreases CHUNK_VOLUME - i,
        {
            cells.push(Cell::empty());
            i = i + 1;
        }
        Chunk { cells }
    }

    pub fn is_empty(&self) -> (r: bool)
        ensures
            r == Self::spec_all_empty(self.cells@),
    {
        let mut i: usize = 0;
        while i < self.cells.len()
            invariant
                i <= self.cells@.len(),
                forall|j: int| 0 <= j < i ==> (#[trigger] self.cells@[j]).spec_is_empty(),
            decreases self.cells@.len() - i,
        {
            if !self.cells[i].is_empty() {
                return false;
            }
            i = i + 1;
        }
        true
    }
}

impl Default for Chunk {
    fn default() -> (r: Self)
        ensures
            r.cells@ == Seq::new(CHUNK_VOLUME as nat, |i: int| Cell::spec_empty()),
    {
        Chunk::new()
    }
}

} // verus!
