//! Sparse chunked world storage.
use vstd::prelude::*;
use vstd::relations::injective_on;
use vstd::set_lib::lemma_map_size;

use std::collections::hash_map::Entry;
use std::collections::HashMap;

use crate::cell::{Cell, CellFlags, TYPE_EMPTY};
use crate::chunk::Chunk;
use crate::constants::{CHUNK_VOLUME, WORLD_SIZE};
use crate::coord::{
    cell_at, lemma_local_index_round_trip, lemma_local_position_inverse, spec_world_pos_from_local,
    ChunkCoord, WorldPos,
};

verus! {

broadcast use vstd::std_specs::hash::group_hash_axioms;

/// Map key of a chunk coordinate (16 bits per axis, x lowest).
pub open spec fn spec_chunk_key(c: ChunkCoord) -> u64 {
    (c.x as int + c.y as int * 65536 + c.z as int * 4294967296) as u64
}

/// Chunk coordinate named by a map key.
pub open spec fn spec_key_coord(k: u64) -> ChunkCoord {
    ChunkCoord {
        x: (k % 65536) as u16,
        y: ((k / 65536) % 65536) as u16,
        z: ((k / 4294967296) % 65536) as u16,
    }
}

/// What a write of `cell` stores: empty writes store the all-zero cell.
pub open spec fn stored_value(cell: Cell) -> Cell {
    if cell.spec_is_empty() {
        Cell::spec_empty()
    } else {
        cell
    }
}

pub proof fn lemma_chunk_key_inverse(c: ChunkCoord)
    ensures
        spec_key_coord(spec_chunk_key(c)) == c,
{
    let k = c.x as int + c.y as int * 65536 + c.z as int * 4294967296;
    assert(0 <= k < 281474976710656);
    assert(spec_chunk_key(c) as int == k);
    assert(k % 65536 == c.x as int) by (nonlinear_arith)
        requires
            k == c.x as int + c.y as int * 65536 + c.z as int * 4294967296,
            0 <= c.x < 65536,
            0 <= c.y < 65536,
            0 <= c.z < 65536,
    ;
    assert(k / 65536 == c.y as int + c.z as int * 65536) by (nonlinear_arith)
        requires
            k == c.x as int + c.y as int * 65536 + c.z as int * 4294967296,
            0 <= c.x < 65536,
            0 <= c.y < 65536,
            0 <= c.z < 65536,
    ;
    assert((c.y as int + c.z as int * 65536) % 65536 == c.y as int) by (nonlinear_arith)
        requires
            0 <= c.y < 65536,
            0 <= c.z < 65536,
    ;
    assert(k / 4294967296 == c.z as int) by (nonlinear_arith)
        requires
            k == c.x as int + c.y as int * 65536 + c.z as int * 4294967296,
            0 <= c.x < 65536,
            0 <= c.y < 65536,
            0 <= c.z < 65536,
    ;
}

pub proof fn lemma_chunk_key_injective(a: ChunkCoord, b: ChunkCoord)
    ensures
        spec_chunk_key(a) == spec_chunk_key(b) <==> a == b,
{
    lemma_chunk_key_inverse(a);
    lemma_chunk_key_inverse(b);
}

fn chunk_key(c: ChunkCoord) -> (r: u64)
    ensures
        r == spec_chunk_key(c),
{
    c.x as u64 + (c.y as u64) * 65536 + (c.z as u64) * 4294967296
}

/// Two positions with the same chunk and local index are the same position.
proof fn lemma_position_from_chunk_and_local(p: WorldPos, q: WorldPos)
    requires
        p.spec_chunk_coord() == q.spec_chunk_coord(),
        p.spec_local_index() == q.spec_local_index(),
    ensures
        p == q,
{
    lemma_local_index_round_trip(p);
    lemma_local_index_round_trip(q);
}

/// Position of an in-world chunk in x-major order.
pub open spec fn coord_rank(c: ChunkCoord) -> int {
    c.x * 256 + c.y * 16 + c.z
}

/// Position of a cell in chunk-then-local order.
pub open spec fn pos_rank(p: WorldPos) -> int {
    coord_rank(p.spec_chunk_coord()) * 32768 + p.spec_local_index()
}

/// The in-world chunk with rank `n`.
pub open spec fn coord_of_rank(n: int) -> ChunkCoord {
    ChunkCoord { x: (n / 256) as u16, y: ((n / 16) % 16) as u16, z: (n % 16) as u16 }
}

/// The position with rank `r`.
pub open spec fn pos_of_rank(r: int) -> WorldPos {
    spec_world_pos_from_local(coord_of_rank(r / 32768), r % 32768)
}

/// Ranks of in-world positions lie below `4096 * 32768` and name them back.
pub proof fn lemma_pos_of_rank(p: WorldPos)
    requires
        p.spec_in_bounds(),
    ensures
        0 <= pos_rank(p) < 134217728,
        pos_of_rank(pos_rank(p)) == p,
{
    let c = p.spec_chunk_coord();
    let n = coord_rank(c);
    let l = p.spec_local_index();
    lemma_rank_inverse(c);
    lemma_local_index_round_trip(p);
    assert(0 <= l < 32768);
    let r = pos_rank(p);
    assert(r / 32768 == n && r % 32768 == l && 0 <= r < 134217728) by (nonlinear_arith)
        requires
            r == n * 32768 + l,
            0 <= n < 4096,
            0 <= l < 32768,
    ;
}

proof fn lemma_rank_inverse(c: ChunkCoord)
    requires
        c.spec_in_world(),
    ensures
        0 <= coord_rank(c) < 4096,
        coord_of_rank(coord_rank(c)) == c,
{
}

/// Sparse map of allocated chunks. Unallocated regions are implicitly empty.
#[derive(Clone, Debug)]
pub struct ChunkMap {
    chunks: HashMap<u64, Chunk>,
}

/// Conditions on one stored cell of the chunk at `c`, local index `i`.
pub open spec fn cell_ok(c: ChunkCoord, i: int, cell: Cell) -> bool {
    &&& (cell.spec_is_empty() ==> cell == Cell::spec_empty())
    &&& (!spec_world_pos_from_local(c, i).spec_in_bounds() ==> cell.spec_is_empty())
}

/// Conditions on one stored chunk.
pub open spec fn chunk_ok(c: ChunkCoord, cells: Seq<Cell>) -> bool {
    &&& c.spec_in_world()
    &&& cells.len() == CHUNK_VOLUME
    &&& forall|i: int| 0 <= i < CHUNK_VOLUME ==> #[trigger] cell_ok(c, i, cells[i])
    &&& !Chunk::spec_all_empty(cells)
}

/// Reading after a write: the written position (when it lies in the world)
/// reads what the write stored, the cell itself or the all-zero cell for an
/// empty write; every other position reads as before.
pub proof fn lemma_read_after_write(before: ChunkMap, after: ChunkMap, pos: WorldPos, cell: Cell, q: WorldPos)
    requires
        before.cells_after_set(after, pos, cell),
    ensures
        pos.spec_in_bounds() ==> after.cell(pos) == stored_value(cell),
        pos.spec_in_bounds() && !cell.spec_is_empty() ==> after.cell(pos) == cell,
        q != pos ==> after.cell(q) == before.cell(q),
{
    assert(after.cell(pos) == after.cell(pos));
    assert(after.cell(q) == after.cell(q));
}

impl ChunkMap {
    /// Whether chunk `c` is allocated.
    pub closed spec fn has_chunk(self, c: ChunkCoord) -> bool {
        self.chunks@.contains_key(spec_chunk_key(c))
    }

    /// The cells of allocated chunk `c`.
    pub closed spec fn chunk_cells(self, c: ChunkCoord) -> Seq<Cell> {
        self.chunks@[spec_chunk_key(c)].cells@
    }

    /// Number of allocated chunks.
    pub closed spec fn spec_chunk_count(self) -> nat {
        self.chunks@.len()
    }

    /// The cell at `p`: stored cells of allocated chunks; empty elsewhere and
    /// outside the world.
    pub open spec fn cell(self, p: WorldPos) -> Cell {
        if p.spec_in_bounds() && self.has_chunk(p.spec_chunk_coord()) {
            self.chunk_cells(p.spec_chunk_coord())[p.spec_local_index()]
        } else {
            Cell::spec_empty()
        }
    }

    /// Chunk `c` holds a non-empty in-world cell.
    pub open spec fn occupied(self, c: ChunkCoord) -> bool {
        exists|p: WorldPos|
            #![trigger self.cell(p)]
            p.spec_in_bounds() && p.spec_chunk_coord() == c && !self.cell(p).spec_is_empty()
    }

    /// The chunks holding a non-empty in-world cell.
    pub open spec fn occupied_chunks(self) -> Set<ChunkCoord> {
        Set::new(|c: ChunkCoord| self.occupied(c))
    }

    /// Well-formedness: every allocated chunk lies in the world, is dense,
    /// stores only all-zero empty cells, keeps cells outside the world empty,
    /// and holds at least one non-empty cell.
    pub closed spec fn wf(self) -> bool {
        &&& forall|c: ChunkCoord| #[trigger] self.has_chunk(c) ==> chunk_ok(c, self.chunk_cells(c))
        &&& forall|k: u64| #[trigger] self.chunks@.contains_key(k) ==> k == spec_chunk_key(spec_key_coord(k))
    }

    /// `new` and `other` agree everywhere except that position `pos` (when it
    /// lies in the world) now holds what a write of `cell` stores.
    pub open spec fn cells_after_set(self, new: ChunkMap, pos: WorldPos, cell: Cell) -> bool {
        forall|q: WorldPos|
            #![trigger new.cell(q)]
            new.cell(q) == if q == pos && pos.spec_in_bounds() {
                stored_value(cell)
            } else {
                self.cell(q)
            }
    }

    pub fn new() -> (r: Self)
        ensures
            r.wf(),
            r.spec_chunk_count() == 0,
            forall|p: WorldPos| #[trigger] r.cell(p) == Cell::spec_empty(),
            forall|c: ChunkCoord| !#[trigger] r.has_chunk(c),
    {
        ChunkMap { chunks: HashMap::new() }
    }

    pub fn chunk_count(&self) -> (r: usize)
        ensures
            r == self.spec_chunk_count(),
    {
        self.chunks.len()
    }

    pub fn contains_chunk(&self, coord: ChunkCoord) -> (r: bool)
        ensures
            r == self.has_chunk(coord),
    {
        self.chunks.contains_key(&chunk_key(coord))
    }

    pub fn get_chunk(&self, coord: ChunkCoord) -> (r: Option<&Chunk>)
        ensures
            match r {
                Some(ch) => self.has_chunk(coord) && ch.cells@ == self.chunk_cells(coord),
                None => !self.has_chunk(coord),
            },
    {
        self.chunks.get(&chunk_key(coord))
    }

    /// The stored chunks by key.
    pub closed spec fn stored(self) -> Map<u64, Chunk> {
        self.chunks@
    }

    pub fn get_chunk_mut(&mut self, coord: ChunkCoord) -> (r: Option<&mut Chunk>)
        ensures
            match r {
                Some(ch) => {
                    &&& old(self).has_chunk(coord)
                    &&& *ch == old(self).stored()[spec_chunk_key(coord)]
                    &&& final(self).stored() == old(self).stored().insert(spec_chunk_key(coord), *final(ch))
                },
                None => !old(self).has_chunk(coord) && final(self).stored() == old(self).stored(),
            },
    {
        match self.chunks.entry(chunk_key(coord)) {
            Entry::Occupied(e) => Some(e.into_mut()),
            Entry::Vacant(_) => None,
        }
    }

    /// The allocated chunks in x-major coordinate order, each to be reached
    /// for writing through `get_chunk_mut`; the map itself is unchanged.
    pub fn iter_chunks_mut(&mut self) -> (r: Vec<ChunkCoord>)
        requires
            old(self).wf(),
        ensures
            *final(self) == *old(self),
            forall|i: int| 0 <= i < r@.len() ==> old(self).has_chunk(#[trigger] r@[i]) && r@[i].spec_in_world(),
            forall|i: int, j: int| 0 <= i < j < r@.len() ==> coord_rank(#[trigger] r@[i]) < coord_rank(#[trigger] r@[j]),
            forall|c: ChunkCoord| #[trigger] old(self).has_chunk(c) ==> r@.contains(c),
    {
        let all = self.iter_chunks();
        let mut out: Vec<ChunkCoord> = Vec::new();
        let mut i: usize = 0;
        while i < all.len()
            invariant
                i <= all@.len(),
                out@.len() == i,
                forall|j: int| 0 <= j < i ==> out@[j] == (#[trigger] all@[j]).0,
            decreases all@.len() - i,
        {
            out.push(all[i].0);
            i = i + 1;
        }
        proof {
            assert forall|c: ChunkCoord| #[trigger] self.has_chunk(c) implies out@.contains(c) by {
                let j = choose|j: int| 0 <= j < all@.len() && all@[j].0 == c;
                assert(out@[j] == all@[j].0);
            }
            assert forall|a: int, b: int| 0 <= a < b < out@.len() implies coord_rank(#[trigger] out@[a]) < coord_rank(#[trigger] out@[b]) by {
                assert(out@[a] == all@[a].0 && out@[b] == all@[b].0);
            }
            assert forall|a: int| 0 <= a < out@.len() implies self.has_chunk(#[trigger] out@[a]) && out@[a].spec_in_world() by {
                assert(out@[a] == all@[a].0);
            }
        }
        out
    }

    /// Writing a whole chunk back through `get_chunk_mut` keeps the map
    /// well-formed when the chunk still meets the chunk conditions (dense,
    /// empty cells all-zero, cells outside the world empty, not all empty);
    /// every cell then reads from the written chunk.
    pub proof fn lemma_chunk_write_keeps_wf(self, new: ChunkMap, coord: ChunkCoord, chunk: Chunk)
        requires
            self.wf(),
            self.has_chunk(coord),
            new.stored() == self.stored().insert(spec_chunk_key(coord), chunk),
            chunk_ok(coord, chunk.cells@),
        ensures
            new.wf(),
            new.has_chunk(coord),
            forall|c: ChunkCoord| #[trigger] new.has_chunk(c) == self.has_chunk(c),
            forall|q: WorldPos| #[trigger] new.cell(q) == if q.spec_in_bounds() && q.spec_chunk_coord() == coord {
                chunk.cells@[q.spec_local_index()]
            } else {
                self.cell(q)
            },
            new.spec_chunk_count() == self.spec_chunk_count(),
    {
        assert forall|c: ChunkCoord| #[trigger] new.has_chunk(c) == self.has_chunk(c) by {
            lemma_chunk_key_injective(c, coord);
        }
        assert forall|c: ChunkCoord| #[trigger] new.has_chunk(c) implies chunk_ok(c, new.chunk_cells(c)) by {
            lemma_chunk_key_injective(c, coord);
        }
        assert forall|q: WorldPos| #[trigger] new.cell(q) == if q.spec_in_bounds() && q.spec_chunk_coord() == coord {
            chunk.cells@[q.spec_local_index()]
        } else {
            self.cell(q)
        } by {
            lemma_chunk_key_injective(q.spec_chunk_coord(), coord);
        }
        assert(new.chunks@.dom() =~= self.chunks@.dom());
    }

    /// Allocated chunks in x-major coordinate order.
    pub fn iter_chunks(&self) -> (r: Vec<(ChunkCoord, &Chunk)>)
        requires
            self.wf(),
        ensures
            forall|i: int|
                0 <= i < r@.len() ==> {
                    &&& self.has_chunk(#[trigger] r@[i].0)
                    &&& r@[i].0.spec_in_world()
                    &&& *r@[i].1 == self.stored()[spec_chunk_key(r@[i].0)]
                },
            forall|i: int, j: int| 0 <= i < j < r@.len() ==> coord_rank(#[trigger] r@[i].0) < coord_rank(#[trigger] r@[j].0),
            forall|c: ChunkCoord| #[trigger] self.has_chunk(c) ==> exists|i: int| 0 <= i < r@.len() && r@[i].0 == c,
    {
        let mut out: Vec<(ChunkCoord, &Chunk)> = Vec::new();
        let mut n: u16 = 0;
        while n < 4096
            invariant
                self.wf(),
                n <= 4096,
                forall|i: int|
                    0 <= i < out@.len() ==> {
                        &&& self.has_chunk(#[trigger] out@[i].0)
                        &&& out@[i].0.spec_in_world()
                        &&& *out@[i].1 == self.stored()[spec_chunk_key(out@[i].0)]
                        &&& coord_rank(out@[i].0) < n
                    },
                forall|i: int, j: int| 0 <= i < j < out@.len() ==> coord_rank(#[trigger] out@[i].0) < coord_rank(#[trigger] out@[j].0),
                forall|c: ChunkCoord| #[trigger] self.has_chunk(c) && coord_rank(c) < n ==> exists|i: int| 0 <= i < out@.len() && out@[i].0 == c,
            decreases 4096 - n,
        {
            let c = ChunkCoord::new(n / 256, (n / 16) % 16, n % 16);
            assert(coord_rank(c) == n);
            let ghost before = out@;
            match self.chunks.get(&chunk_key(c)) {
                Some(ch) => {
                    out.push((c, ch));
                    proof {
                        assert(out@[out@.len() - 1].0 == c);
                    }
                },
                None => {},
            }
            proof {
                assert forall|c2: ChunkCoord| #[trigger] self.has_chunk(c2) && coord_rank(c2) < n + 1 implies exists|i: int| 0 <= i < out@.len() && out@[i].0 == c2 by {
                    assert(chunk_ok(c2, self.chunk_cells(c2)));
                    if coord_rank(c2) < n {
                        let i = choose|i: int| 0 <= i < before.len() && before[i].0 == c2;
                        assert(out@[i] == before[i]);
                    } else {
                        lemma_rank_inverse(c2);
                        assert(c2 == c);
                        assert(out@[out@.len() - 1].0 == c2);
                    }
                }
            }
            n = n + 1;
        }
        proof {
            assert forall|c: ChunkCoord| #[trigger] self.has_chunk(c) implies exists|i: int| 0 <= i < out@.len() && out@[i].0 == c by {
                assert(chunk_ok(c, self.chunk_cells(c)));
                lemma_rank_inverse(c);
            }
        }
        out
    }

    /// Non-empty in-world cells with their positions, in chunk-then-local order.
    pub fn iter_non_empty(&self) -> (r: Vec<(WorldPos, Cell)>)
        requires
            self.wf(),
        ensures
            forall|i: int|
                0 <= i < r@.len() ==> {
                    &&& (#[trigger] r@[i]).0.spec_in_bounds()
                    &&& r@[i].1 == self.cell(r@[i].0)
                    &&& !r@[i].1.spec_is_empty()
                },
            forall|i: int, j: int| 0 <= i < j < r@.len() ==> pos_rank((#[trigger] r@[i]).0) < pos_rank((#[trigger] r@[j]).0),
            forall|p: WorldPos|
                p.spec_in_bounds() && !(#[trigger] self.cell(p)).spec_is_empty() ==> exists|i: int| 0 <= i < r@.len() && r@[i].0 == p,
    {
        let mut out: Vec<(WorldPos, Cell)> = Vec::new();
        let mut n: u16 = 0;
        while n < 4096
            invariant
                self.wf(),
                n <= 4096,
                self.non_empty_prefix(out@, n as int * 32768),
            decreases 4096 - n,
        {
            let c = ChunkCoord::new(n / 256, (n / 16) % 16, n % 16);
            assert(coord_rank(c) == n);
            match self.chunks.get(&chunk_key(c)) {
                Some(ch) => {
                    proof {
                        assert(self.has_chunk(c));
                        assert(chunk_ok(c, self.chunk_cells(c)));
                    }
                    self.push_chunk_cells(c, ch, &mut out);
                },
                None => {
                    proof {
                        self.lemma_absent_chunk_extends(out@, c);
                    }
                },
            }
            n = n + 1;
        }
        out
    }

    /// `out` lists, in increasing rank, exactly the non-empty in-world cells of
    /// rank below `limit`.
    spec fn non_empty_prefix(self, out: Seq<(WorldPos, Cell)>, limit: int) -> bool {
        &&& forall|i: int|
            0 <= i < out.len() ==> {
                &&& (#[trigger] out[i]).0.spec_in_bounds()
                &&& out[i].1 == self.cell(out[i].0)
                &&& !out[i].1.spec_is_empty()
                &&& pos_rank(out[i].0) < limit
            }
        &&& forall|i: int, j: int| 0 <= i < j < out.len() ==> pos_rank((#[trigger] out[i]).0) < pos_rank((#[trigger] out[j]).0)
        &&& forall|p: WorldPos|
            p.spec_in_bounds() && !(#[trigger] self.cell(p)).spec_is_empty() && pos_rank(p) < limit ==> exists|i: int| 0 <= i < out.len() && out[i].0 == p
    }

    proof fn lemma_rank_split(p: WorldPos, n: int, l: int)
        requires
            p.spec_in_bounds(),
            0 <= l < 32768,
            pos_rank(p) == n * 32768 + l,
        ensures
            coord_rank(p.spec_chunk_coord()) == n,
            p.spec_local_index() == l,
            p.spec_chunk_coord() == coord_of_rank(n),
    {
        let cr = coord_rank(p.spec_chunk_coord());
        let li = p.spec_local_index();
        assert(0 <= li < 32768);
        assert(cr == n && li == l) by (nonlinear_arith)
            requires
                cr * 32768 + li == n * 32768 + l,
                0 <= li < 32768,
                0 <= l < 32768,
        ;
        lemma_rank_inverse(p.spec_chunk_coord());
    }

    proof fn lemma_absent_chunk_extends(self, out: Seq<(WorldPos, Cell)>, c: ChunkCoord)
        requires
            c.spec_in_world(),
            !self.has_chunk(c),
            self.non_empty_prefix(out, coord_rank(c) * 32768),
        ensures
            self.non_empty_prefix(out, (coord_rank(c) + 1) * 32768),
    {
        let n = coord_rank(c);
        lemma_rank_inverse(c);
        assert forall|p: WorldPos|
            p.spec_in_bounds() && !(#[trigger] self.cell(p)).spec_is_empty() && pos_rank(p) < (n + 1) * 32768 implies exists|i: int| 0 <= i < out.len() && out[i].0 == p by {
            if pos_rank(p) >= n * 32768 {
                Self::lemma_rank_split(p, n, pos_rank(p) - n * 32768);
            }
        }
    }

    /// Appends the non-empty cells of allocated chunk `c`.
    fn push_chunk_cells(&self, c: ChunkCoord, ch: &Chunk, out: &mut Vec<(WorldPos, Cell)>)
        requires
            self.wf(),
            c.spec_in_world(),
            self.has_chunk(c),
            ch.cells@ == self.chunk_cells(c),
            chunk_ok(c, ch.cells@),
            self.non_empty_prefix(old(out)@, coord_rank(c) * 32768),
        ensures
            self.non_empty_prefix(final(out)@, (coord_rank(c) + 1) * 32768),
    {
        let ghost n = coord_rank(c);
        proof {
            lemma_rank_inverse(c);
        }
        let mut l: usize = 0;
        while l < CHUNK_VOLUME
            invariant
                self.wf(),
                c.spec_in_world(),
                self.has_chunk(c),
                ch.cells@ == self.chunk_cells(c),
                chunk_ok(c, ch.cells@),
                n == coord_rank(c),
                coord_of_rank(n) == c,
                0 <= n < 4096,
                l <= CHUNK_VOLUME,
                self.non_empty_prefix(out@, n * 32768 + l),
            decreases CHUNK_VOLUME - l,
        {
            let cell = ch.cells[l];
            let ghost before = out@;
            proof {
                lemma_local_position_inverse(c, l as int);
                assert(cell_ok(c, l as int, cell));
            }
            let p0 = crate::coord::world_pos_from_local(c, l);
            proof {
                assert(pos_rank(p0) == n * 32768 + l);
            }
            if !cell.is_empty() {
                out.push((p0, cell));
                proof {
                    assert(self.cell(p0) == cell);
                    assert(out@[out@.len() - 1] == (p0, cell));
                    assert forall|i: int| 0 <= i < out@.len() implies {
                        &&& (#[trigger] out@[i]).0.spec_in_bounds()
                        &&& out@[i].1 == self.cell(out@[i].0)
                        &&& !out@[i].1.spec_is_empty()
                        &&& pos_rank(out@[i].0) < n * 32768 + l + 1
                    } by {
                        if i < before.len() {
                            assert(out@[i] == before[i]);
                        }
                    }
                    assert forall|i: int, j: int| 0 <= i < j < out@.len() implies pos_rank((#[trigger] out@[i]).0) < pos_rank((#[trigger] out@[j]).0) by {
                        if j < before.len() {
                            assert(out@[i] == before[i]);
                            assert(out@[j] == before[j]);
                        } else {
                            assert(out@[i] == before[i]);
                        }
                    }
                }
            }
            proof {
                assert forall|p: WorldPos|
                    p.spec_in_bounds() && !(#[trigger] self.cell(p)).spec_is_empty() && pos_rank(p) < n * 32768 + l + 1 implies exists|i: int| 0 <= i < out@.len() && out@[i].0 == p by {
                    if pos_rank(p) == n * 32768 + l {
                        Self::lemma_rank_split(p, n, l as int);
                        lemma_position_from_chunk_and_local(p, p0);
                        assert(out@[out@.len() - 1].0 == p);
                    } else {
                        let i = choose|i: int| 0 <= i < before.len() && before[i].0 == p;
                        assert(out@[i] == before[i]);
                    }
                }
            }
            l = l + 1;
        }
    }

    /// An allocated chunk lies in the world and stores one cell per local index.
    pub proof fn lemma_chunk_dense(self, c: ChunkCoord)
        requires
            self.wf(),
            self.has_chunk(c),
        ensures
            c.spec_in_world(),
            self.chunk_cells(c).len() == CHUNK_VOLUME,
    {
        assert(chunk_ok(c, self.chunk_cells(c)));
    }

    /// Every empty cell reads as the all-zero sentinel.
    pub proof fn lemma_empty_cells_are_zero(self, p: WorldPos)
        requires
            self.wf(),
        ensures
            self.cell(p).spec_is_empty() ==> self.cell(p) == Cell::spec_empty(),
    {
        if p.spec_in_bounds() && self.has_chunk(p.spec_chunk_coord()) {
            let c = p.spec_chunk_coord();
            assert(chunk_ok(c, self.chunk_cells(c)));
            assert(cell_ok(c, p.spec_local_index(), self.chunk_cells(c)[p.spec_local_index()]));
        }
    }

    /// A chunk is allocated exactly when it holds a non-empty in-world cell.
    pub proof fn lemma_allocated_iff_occupied(self, c: ChunkCoord)
        requires
            self.wf(),
        ensures
            self.has_chunk(c) <==> self.occupied(c),
            self.has_chunk(c) ==> c.spec_in_world(),
    {
        if self.has_chunk(c) {
            let s = self.chunk_cells(c);
            assert(chunk_ok(c, s));
            let i = choose|i: int| 0 <= i < s.len() && !(#[trigger] s[i]).spec_is_empty();
            assert(cell_ok(c, i, s[i]));
            lemma_local_position_inverse(c, i);
            let p = spec_world_pos_from_local(c, i);
            assert(!self.cell(p).spec_is_empty());
        }
    }

    /// The number of allocated chunks is the number of chunks holding a
    /// non-empty cell: empty regions use no chunk.
    pub proof fn lemma_chunk_count(self)
        requires
            self.wf(),
        ensures
            self.occupied_chunks().finite(),
            self.spec_chunk_count() == self.occupied_chunks().len(),
    {
        let dom = self.chunks@.dom();
        let f = |k: u64| spec_key_coord(k);
        assert(injective_on(f, dom)) by {
            assert forall|a: u64, b: u64| dom.contains(a) && dom.contains(b) && #[trigger] f(a) == #[trigger] f(b) implies a == b by {
                assert(self.chunks@.contains_key(a));
                assert(self.chunks@.contains_key(b));
            }
        }
        assert forall|c: ChunkCoord| #[trigger] dom.map(f).contains(c) <==> self.occupied_chunks().contains(c) by {
            self.lemma_allocated_iff_occupied(c);
            if dom.map(f).contains(c) {
                let k = choose|k: u64| dom.contains(k) && f(k) == c;
                assert(self.chunks@.contains_key(k));
                assert(k == spec_chunk_key(c));
                assert(self.has_chunk(c));
            }
            if self.occupied_chunks().contains(c) {
                assert(self.has_chunk(c));
                let k = spec_chunk_key(c);
                assert(dom.contains(k));
                lemma_chunk_key_inverse(c);
                assert(f(k) == c);
            }
        }
        assert(dom.map(f) =~= self.occupied_chunks());
        lemma_map_size(dom, self.occupied_chunks(), f);
    }

    /// Maps whose cells are empty at the same positions occupy the same chunks.
    pub proof fn lemma_same_occupancy(a: ChunkMap, b: ChunkMap)
        requires
            forall|q: WorldPos| #[trigger] a.cell(q).spec_is_empty() == b.cell(q).spec_is_empty(),
        ensures
            a.occupied_chunks() == b.occupied_chunks(),
    {
        assert forall|c: ChunkCoord| #[trigger] a.occupied_chunks().contains(c) <==> b.occupied_chunks().contains(c) by {
            if a.occupied(c) {
                let p = choose|p: WorldPos| #![trigger a.cell(p)] p.spec_in_bounds() && p.spec_chunk_coord() == c && !a.cell(p).spec_is_empty();
                assert(!b.cell(p).spec_is_empty());
            }
            if b.occupied(c) {
                let p = choose|p: WorldPos| #![trigger b.cell(p)] p.spec_in_bounds() && p.spec_chunk_coord() == c && !b.cell(p).spec_is_empty();
                assert(!a.cell(p).spec_is_empty());
            }
        }
        assert(a.occupied_chunks() =~= b.occupied_chunks());
    }

    /// Read a cell. Missing chunks and out-of-bounds positions read as empty.
    pub fn get(&self, pos: WorldPos) -> (r: Cell)
        requires
            self.wf(),
        ensures
            r == self.cell(pos),
    {
        if !pos.is_in_bounds() {
            return Cell::empty();
        }
        match self.chunks.get(&chunk_key(pos.chunk_coord())) {
            Some(chunk) => {
                proof {
                    assert(self.has_chunk(pos.spec_chunk_coord()));
                }
                cell_at(chunk, pos)
            },
            None => Cell::empty(),
        }
    }
    /// Write a cell. Allocates a chunk on the first non-empty write; removes a
    /// chunk once it holds only empty cells. Returns whether a non-empty write
    /// changed the stored cell.
    pub fn set(&mut self, pos: WorldPos, cell: Cell) -> (r: bool)
        requires
            old(self).wf(),
        ensures
            final(self).wf(),
            old(self).cells_after_set(*final(self), pos, cell),
            r == (pos.spec_in_bounds() && !cell.spec_is_empty() && old(self).cell(pos) != cell),
            final(self).spec_chunk_count() == final(self).occupied_chunks().len(),
    {
        let r = self.store(pos, cell);
        proof {
            self.lemma_chunk_count();
        }
        r
    }

    /// Store `cell` at `pos`, allocating or freeing its chunk as needed.
    fn store(&mut self, pos: WorldPos, cell: Cell) -> (r: bool)
        requires
            old(self).wf(),
        ensures
            final(self).wf(),
            old(self).cells_after_set(*final(self), pos, cell),
            r == (pos.spec_in_bounds() && !cell.spec_is_empty() && old(self).cell(pos) != cell),
    {
        if !pos.is_in_bounds() {
            return false;
        }
        if cell.is_empty() {
            self.clear_at(pos);
            return false;
        }
        self.write_at(pos, cell)
    }

    /// Empty the cell at in-world `pos`, dropping its chunk if nothing is left.
    #[verifier::spinoff_prover]
    #[verifier::rlimit(40)]
    fn clear_at(&mut self, pos: WorldPos)
        requires
            old(self).wf(),
            pos.spec_in_bounds(),
        ensures
            final(self).wf(),
            old(self).cells_after_set(*final(self), pos, Cell::spec_empty()),
    {
        let coord = pos.chunk_coord();
        let key = chunk_key(coord);
        let index = pos.local_index();
        let ghost old_map = *self;
        proof {
            lemma_local_index_round_trip(pos);
            lemma_chunk_key_inverse(coord);
        }
        let removed = self.chunks.remove(&key);
        match removed {
            Some(mut chunk) => {
                let ghost s = chunk.cells@;
                proof {
                    assert(old_map.has_chunk(coord));
                    assert(chunk_ok(coord, s));
                }
                chunk.cells.set(index, Cell::empty());
                let ghost s2 = chunk.cells@;
                assert(forall|i: int| 0 <= i < CHUNK_VOLUME ==> #[trigger] cell_ok(coord, i, s2[i])) by {
                    assert forall|i: int| 0 <= i < CHUNK_VOLUME implies #[trigger] cell_ok(coord, i, s2[i]) by {
                        if i != index {
                            assert(cell_ok(coord, i, s[i]));
                        }
                    }
                }
                if !chunk.is_empty() {
                    self.chunks.insert(key, chunk);
                    proof {
                        self.lemma_replaced_chunk(old_map, coord, index as int, s2);
                        self.lemma_written_position(old_map, pos, s2);
                        assert(old_map.cells_after_set(*self, pos, Cell::spec_empty()));
                    }
                } else {
                    proof {
                        self.lemma_removed_chunk(old_map, coord, index as int, s2);
                    }
                }
            },
            None => {
                proof {
                    assert(!old_map.chunks@.contains_key(key));
                    assert(self.chunks@ =~= old_map.chunks@);
                    self.lemma_unchanged(old_map);
                    self.lemma_clear_absent(old_map, pos);
                }
            },
        }
    }

    /// Store non-empty `cell` at in-world `pos`, allocating its chunk if needed.
    #[verifier::spinoff_prover]
    #[verifier::rlimit(40)]
    fn write_at(&mut self, pos: WorldPos, cell: Cell) -> (r: bool)
        requires
            old(self).wf(),
            pos.spec_in_bounds(),
            !cell.spec_is_empty(),
        ensures
            final(self).wf(),
            old(self).cells_after_set(*final(self), pos, cell),
            r == (old(self).cell(pos) != cell),
    {
        let coord = pos.chunk_coord();
        let key = chunk_key(coord);
        let index = pos.local_index();
        let ghost old_map = *self;
        proof {
            lemma_local_index_round_trip(pos);
            lemma_chunk_key_inverse(coord);
        }
        let removed = self.chunks.remove(&key);
        let mut chunk = match removed {
            Some(c) => c,
            None => Chunk::new(),
        };
        let ghost s = chunk.cells@;
        proof {
            if old_map.has_chunk(coord) {
                assert(chunk_ok(coord, s));
            } else {
                assert forall|i: int| 0 <= i < CHUNK_VOLUME implies #[trigger] cell_ok(coord, i, s[i]) by {}
            }
        }
        let changed = chunk.cells[index] != cell;
        chunk.cells.set(index, cell);
        let ghost s2 = chunk.cells@;
        assert(forall|i: int| 0 <= i < CHUNK_VOLUME ==> #[trigger] cell_ok(coord, i, s2[i])) by {
            assert forall|i: int| 0 <= i < CHUNK_VOLUME implies #[trigger] cell_ok(coord, i, s2[i]) by {
                if i != index {
                    assert(cell_ok(coord, i, s[i]));
                }
            }
        }
        assert(!s2[index as int].spec_is_empty());
        self.chunks.insert(key, chunk);
        proof {
            self.lemma_replaced_chunk(old_map, coord, index as int, s2);
            self.lemma_written_position(old_map, pos, s2);
        }
        changed
    }

    /// A map with the same chunks reads the same everywhere.
    proof fn lemma_unchanged(self, old_map: ChunkMap)
        requires
            old_map.wf(),
            self.chunks@ == old_map.chunks@,
        ensures
            self.wf(),
            forall|q: WorldPos| #[trigger] self.cell(q) == old_map.cell(q),
    {
        assert forall|c: ChunkCoord| #[trigger] self.has_chunk(c) implies chunk_ok(c, self.chunk_cells(c)) by {
            assert(old_map.has_chunk(c));
        }
    }

    /// Clearing a position of an unallocated chunk changes nothing.
    proof fn lemma_clear_absent(self, old_map: ChunkMap, pos: WorldPos)
        requires
            !old_map.has_chunk(pos.spec_chunk_coord()),
            forall|q: WorldPos| #[trigger] self.cell(q) == old_map.cell(q),
        ensures
            old_map.cells_after_set(self, pos, Cell::spec_empty()),
    {
    }

    /// The frame lemmas combine into `cells_after_set` once position `pos` reads
    /// the written value.
    proof fn lemma_written_position(self, old_map: ChunkMap, pos: WorldPos, s2: Seq<Cell>)
        requires
            pos.spec_in_bounds(),
            self.has_chunk(pos.spec_chunk_coord()),
            self.chunk_cells(pos.spec_chunk_coord()) == s2,
            forall|q: WorldPos| #![trigger self.cell(q)] (q.spec_chunk_coord() != pos.spec_chunk_coord() || q.spec_local_index() != pos.spec_local_index()) ==> self.cell(q) == old_map.cell(q),
        ensures
            forall|q: WorldPos| #![trigger self.cell(q)] q != pos ==> self.cell(q) == old_map.cell(q),
            self.cell(pos) == s2[pos.spec_local_index()],
    {
        assert forall|q: WorldPos| #![trigger self.cell(q)] q != pos implies self.cell(q) == old_map.cell(q) by {
            if q.spec_chunk_coord() == pos.spec_chunk_coord() && q.spec_local_index() == pos.spec_local_index() {
                lemma_position_from_chunk_and_local(q, pos);
            }
        }
    }

    /// Frame lemma for a write that leaves chunk `coord` holding `s2`.
    proof fn lemma_replaced_chunk(self, old_map: ChunkMap, coord: ChunkCoord, index: int, s2: Seq<Cell>)
        requires
            old_map.wf(),
            coord.spec_in_world(),
            0 <= index < CHUNK_VOLUME,
            s2.len() == CHUNK_VOLUME,
            forall|i: int| 0 <= i < CHUNK_VOLUME ==> #[trigger] cell_ok(coord, i, s2[i]),
            !Chunk::spec_all_empty(s2),
            self.has_chunk(coord),
            self.chunk_cells(coord) == s2,
            forall|k: u64| k != spec_chunk_key(coord) ==> (#[trigger] self.chunks@.contains_key(k) <==> old_map.chunks@.contains_key(k)),
            forall|k: u64| k != spec_chunk_key(coord) && #[trigger] self.chunks@.contains_key(k) ==> self.chunks@[k] == old_map.chunks@[k],
            old_map.has_chunk(coord) ==> forall|i: int| 0 <= i < CHUNK_VOLUME && i != index ==> #[trigger] s2[i] == old_map.chunk_cells(coord)[i],
            !old_map.has_chunk(coord) ==> forall|i: int| 0 <= i < CHUNK_VOLUME && i != index ==> #[trigger] s2[i] == Cell::spec_empty(),
        ensures
            self.wf(),
            forall|q: WorldPos| #![trigger self.cell(q)] (q.spec_chunk_coord() != coord || q.spec_local_index() != index) ==> self.cell(q) == old_map.cell(q),
    {
        lemma_chunk_key_inverse(coord);
        assert forall|c: ChunkCoord| #[trigger] self.has_chunk(c) implies chunk_ok(c, self.chunk_cells(c)) by {
            if c != coord {
                lemma_chunk_key_injective(c, coord);
                assert(old_map.has_chunk(c));
            }
        }
        assert forall|k: u64| #[trigger] self.chunks@.contains_key(k) implies k == spec_chunk_key(spec_key_coord(k)) by {
            if k != spec_chunk_key(coord) {
                assert(old_map.chunks@.contains_key(k));
            }
        }
        assert forall|q: WorldPos| #![trigger self.cell(q)] (q.spec_chunk_coord() != coord || q.spec_local_index() != index) implies self.cell(q) == old_map.cell(q) by {
            let qc = q.spec_chunk_coord();
            if qc != coord {
                lemma_chunk_key_injective(qc, coord);
            } else if q.spec_in_bounds() {
                if !old_map.has_chunk(coord) {
                    assert(s2[q.spec_local_index()] == Cell::spec_empty());
                }
            }
        }
    }

    /// Frame lemma for a write of an empty cell that empties chunk `coord`.
    proof fn lemma_removed_chunk(self, old_map: ChunkMap, coord: ChunkCoord, index: int, s2: Seq<Cell>)
        requires
            old_map.wf(),
            coord.spec_in_world(),
            0 <= index < CHUNK_VOLUME,
            s2.len() == CHUNK_VOLUME,
            forall|i: int| 0 <= i < CHUNK_VOLUME ==> #[trigger] cell_ok(coord, i, s2[i]),
            Chunk::spec_all_empty(s2),
            !self.has_chunk(coord),
            self.chunks@ == old_map.chunks@.remove(spec_chunk_key(coord)),
            old_map.has_chunk(coord),
            forall|i: int| 0 <= i < CHUNK_VOLUME && i != index ==> #[trigger] s2[i] == old_map.chunk_cells(coord)[i],
        ensures
            self.wf(),
            forall|q: WorldPos| #![trigger self.cell(q)] self.cell(q) == if q.spec_chunk_coord() == coord && q.spec_local_index() == index && q.spec_in_bounds() {
                Cell::spec_empty()
            } else {
                old_map.cell(q)
            },
    {
        lemma_chunk_key_inverse(coord);
        assert forall|c: ChunkCoord| #[trigger] self.has_chunk(c) implies chunk_ok(c, self.chunk_cells(c)) by {
            lemma_chunk_key_injective(c, coord);
            assert(old_map.has_chunk(c));
        }
        assert forall|q: WorldPos| #![trigger self.cell(q)] self.cell(q) == if q.spec_chunk_coord() == coord && q.spec_local_index() == index && q.spec_in_bounds() {
            Cell::spec_empty()
        } else {
            old_map.cell(q)
        } by {
            let qc = q.spec_chunk_coord();
            if qc != coord {
                lemma_chunk_key_injective(qc, coord);
            } else if q.spec_in_bounds() && q.spec_local_index() != index {
                let li = q.spec_local_index();
                assert(cell_ok(coord, li, s2[li]));
                assert(s2[li].spec_is_empty());
            }
        }
    }
}

/// `cell` with its type and state replaced, as `World::set_typed` writes it.
pub open spec fn spec_typed(cell: Cell, type_id: u8, state: u16) -> Cell {
    if type_id == TYPE_EMPTY {
        Cell::spec_empty()
    } else {
        Cell { type_id, state, ..cell }
    }
}

/// `cell` with its dirty bit set.
pub open spec fn spec_with_dirty(cell: Cell) -> Cell {
    Cell { flags: cell.flags | CellFlags::DIRTY, ..cell }
}

/// `cell` with its dirty bit cleared.
pub open spec fn spec_without_dirty(cell: Cell) -> Cell {
    Cell { flags: cell.flags & !CellFlags::DIRTY, ..cell }
}

/// World-level grid accessor combining bounds checks and chunk routing.
#[derive(Clone, Debug)]
pub struct World {
    pub chunks: ChunkMap,
}

impl Default for ChunkMap {
    fn default() -> (r: Self)
        ensures
            r.wf(),
            r.spec_chunk_count() == 0,
            forall|p: WorldPos| #[trigger] r.cell(p) == Cell::spec_empty(),
    {
        ChunkMap::new()
    }
}

impl Default for World {
    fn default() -> (r: Self)
        ensures
            r.wf(),
            r.chunks.spec_chunk_count() == 0,
            forall|p: WorldPos| #[trigger] r.cell(p) == Cell::spec_empty(),
    {
        World::new()
    }
}

impl World {
    pub open spec fn wf(self) -> bool {
        self.chunks.wf()
    }

    /// The cell at `p` (empty outside the world).
    #[verifier::inline]
    pub open spec fn cell(self, p: WorldPos) -> Cell {
        self.chunks.cell(p)
    }

    /// Every cell reads the same in `self` and `other`.
    pub open spec fn same_cells(self, other: World) -> bool {
        forall|q: WorldPos| #[trigger] other.cell(q) == self.cell(q)
    }

    pub fn new() -> (r: Self)
        ensures
            r.wf(),
            r.chunks.spec_chunk_count() == 0,
            forall|p: WorldPos| #[trigger] r.cell(p) == Cell::spec_empty(),
    {
        World { chunks: ChunkMap::new() }
    }

    pub fn in_bounds(x: u16, y: u16, z: u16) -> (r: bool)
        ensures
            r == (WorldPos { x, y, z }).spec_in_bounds(),
    {
        let max = WORLD_SIZE as u16;
        x < max && y < max && z < max
    }

    pub fn get(&self, pos: WorldPos) -> (r: Cell)
        requires
            self.wf(),
        ensures
            r == self.cell(pos),
    {
        self.chunks.get(pos)
    }

    pub fn set(&mut self, pos: WorldPos, cell: Cell) -> (r: bool)
        requires
            old(self).wf(),
        ensures
            final(self).wf(),
            old(self).chunks.cells_after_set(final(self).chunks, pos, cell),
            r == (pos.spec_in_bounds() && !cell.spec_is_empty() && old(self).cell(pos) != cell),
            final(self).chunks.spec_chunk_count() == final(self).chunks.occupied_chunks().len(),
    {
        self.chunks.set(pos, cell)
    }

    /// Set cell type and state, preserving other fields unless resetting to empty.
    pub fn set_typed(&mut self, pos: WorldPos, type_id: u8, state: u16) -> (r: bool)
        requires
            old(self).wf(),
        ensures
            final(self).wf(),
            old(self).chunks.cells_after_set(final(self).chunks, pos, spec_typed(old(self).cell(pos), type_id, state)),
            r == (pos.spec_in_bounds() && type_id != TYPE_EMPTY && old(self).cell(pos) != spec_typed(old(self).cell(pos), type_id, state)),
            final(self).chunks.spec_chunk_count() == final(self).chunks.occupied_chunks().len(),
    {
        if type_id == TYPE_EMPTY {
            return self.set(pos, Cell::empty());
        }
        let mut cell = self.get(pos);
        cell.type_id = type_id;
        cell.state = state;
        self.set(pos, cell)
    }

    /// Set the dirty bit of a non-empty in-world cell. Returns whether the
    /// stored cell changed.
    pub fn mark_dirty(&mut self, pos: WorldPos) -> (r: bool)
        requires
            old(self).wf(),
        ensures
            final(self).wf(),
            (pos.spec_in_bounds() && !old(self).cell(pos).spec_is_empty()) ==> old(self).chunks.cells_after_set(
                final(self).chunks,
                pos,
                spec_with_dirty(old(self).cell(pos)),
            ),
            !(pos.spec_in_bounds() && !old(self).cell(pos).spec_is_empty()) ==> old(self).same_cells(*final(self)),
            r == (pos.spec_in_bounds() && !old(self).cell(pos).spec_is_empty() && spec_with_dirty(old(self).cell(pos)) != old(self).cell(pos)),
            final(self).chunks.spec_chunk_count() == old(self).chunks.spec_chunk_count(),
    {
        if !pos.is_in_bounds() {
            return false;
        }
        let mut cell = self.get(pos);
        if cell.is_empty() {
            return false;
        }
        let ghost before = self.chunks;
        cell.set_flags(CellFlags(cell.flags | CellFlags::DIRTY));
        let r = self.set(pos, cell);
        proof {
            before.lemma_chunk_count();
            ChunkMap::lemma_same_occupancy(before, self.chunks);
        }
        r
    }

    /// Clear the dirty bit of the cell at `pos` (a no-op outside the world and
    /// on empty cells, whose flags are already clear).
    pub fn clear_dirty_flag(&mut self, pos: WorldPos)
        requires
            old(self).wf(),
        ensures
            final(self).wf(),
            old(self).chunks.cells_after_set(final(self).chunks, pos, spec_without_dirty(old(self).cell(pos))),
            final(self).chunks.spec_chunk_count() == old(self).chunks.spec_chunk_count(),
    {
        if !pos.is_in_bounds() {
            proof {
                self.chunks.lemma_unchanged(self.chunks);
            }
            return;
        }
        let cell = self.get(pos);
        if cell.is_empty() {
            proof {
                self.chunks.lemma_empty_cells_are_zero(pos);
                assert(cell == Cell::spec_empty());
                assert(spec_without_dirty(cell) == Cell::spec_empty()) by {
                    assert(0u8 & !1u8 == 0u8) by (bit_vector);
                }
                self.chunks.lemma_unchanged(self.chunks);
            }
            return;
        }
        let ghost before = self.chunks;
        let mut cleared = cell;
        cleared.set_flags(CellFlags(cell.flags & !CellFlags::DIRTY));
        self.set(pos, cleared);
        proof {
            before.lemma_chunk_count();
            ChunkMap::lemma_same_occupancy(before, self.chunks);
        }
    }
}

} // verus!
