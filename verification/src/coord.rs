//! World and chunk coordinate types.
use vstd::prelude::*;

use crate::cell::Cell;
use crate::chunk::Chunk;
use crate::constants::{CHUNK_SIZE, CHUNK_SIZE_USIZE, CHUNK_VOLUME, PHASE_COUNT, WORLD_SIZE};

verus! {

/// Addressable world cell position, 0..499 per axis.
#[derive(Clone, Copy, Debug, PartialEq, Eq, Hash, Structural)]
pub struct WorldPos {
    pub x: u16,
    pub y: u16,
    pub z: u16,
}

/// Chunk address in the sparse chunk map.
#[derive(Clone, Copy, Debug, PartialEq, Eq, Hash, PartialOrd, Ord, Structural)]
pub struct ChunkCoord {
    pub x: u16,
    pub y: u16,
    pub z: u16,
}

/// `(x + y + z) % 8`.
pub open spec fn spec_phase(x: int, y: int, z: int) -> int {
    (x + y + z) % (PHASE_COUNT as int)
}

/// Index of a position inside its chunk's dense array (x fastest, then y, then z).
pub open spec fn spec_local_index(x: int, y: int, z: int) -> int {
    x % 32 + (y % 32) * 32 + (z % 32) * 1024
}

/// Position of local index `local` inside chunk `c`.
pub open spec fn spec_world_pos_from_local(c: ChunkCoord, local: int) -> WorldPos {
    WorldPos {
        x: (c.x * 32 + local % 32) as u16,
        y: (c.y * 32 + (local / 32) % 32) as u16,
        z: (c.z * 32 + (local / 1024) % 65536) as u16,
    }
}

/// Whether `world_pos_from_local(c, local)` stays within `u16` arithmetic.
pub open spec fn local_pos_fits(c: ChunkCoord, local: int) -> bool {
    &&& c.x <= 2047
    &&& c.y <= 2047
    &&& c.z * 32 + (local / 1024) % 65536 <= 65535
}

/// Absolute difference of two integers.
pub open spec fn abs_diff(a: int, b: int) -> int {
    if a >= b { a - b } else { b - a }
}

/// Two positions share a face.
pub open spec fn face_adjacent(p: WorldPos, q: WorldPos) -> bool {
    abs_diff(p.x as int, q.x as int) + abs_diff(p.y as int, q.y as int) + abs_diff(p.z as int, q.z as int) == 1
}

/// The position at offset `(dx, dy, dz)` from `p`, if the offset keeps every
/// coordinate non-negative and the (16-bit) result lies in the world.
pub open spec fn offset_neighbor(p: WorldPos, dx: int, dy: int, dz: int) -> Option<WorldPos> {
    let x = p.x + dx;
    let y = p.y + dy;
    let z = p.z + dz;
    if x < 0 || y < 0 || z < 0 {
        None
    } else {
        let q = WorldPos { x: (x % 65536) as u16, y: (y % 65536) as u16, z: (z % 65536) as u16 };
        if q.spec_in_bounds() {
            Some(q)
        } else {
            None
        }
    }
}

/// Appends the position held by `o`, if any.
pub open spec fn push_some(s: Seq<WorldPos>, o: Option<WorldPos>) -> Seq<WorldPos> {
    match o {
        Some(q) => s.push(q),
        None => s,
    }
}

/// The in-world face neighbors of `p` in the order +x, -x, +y, -y, +z, -z.
pub open spec fn spec_neighbors_6(p: WorldPos) -> Seq<WorldPos> {
    let s0 = push_some(Seq::empty(), offset_neighbor(p, 1, 0, 0));
    let s1 = push_some(s0, offset_neighbor(p, -1, 0, 0));
    let s2 = push_some(s1, offset_neighbor(p, 0, 1, 0));
    let s3 = push_some(s2, offset_neighbor(p, 0, -1, 0));
    let s4 = push_some(s3, offset_neighbor(p, 0, 0, 1));
    push_some(s4, offset_neighbor(p, 0, 0, -1))
}

impl WorldPos {
    pub open spec fn spec_in_bounds(self) -> bool {
        self.x < WORLD_SIZE && self.y < WORLD_SIZE && self.z < WORLD_SIZE
    }

    pub open spec fn spec_chunk_coord(self) -> ChunkCoord {
        ChunkCoord { x: self.x / 32, y: self.y / 32, z: self.z / 32 }
    }

    pub open spec fn spec_local_index(self) -> int {
        spec_local_index(self.x as int, self.y as int, self.z as int)
    }

    pub open spec fn spec_phase(self) -> int {
        spec_phase(self.x as int, self.y as int, self.z as int)
    }

    pub fn new(x: u16, y: u16, z: u16) -> (r: Self)
        ensures
            r == (WorldPos { x, y, z }),
    {
        WorldPos { x, y, z }
    }

    pub fn is_in_bounds(self) -> (r: bool)
        ensures
            r == self.spec_in_bounds(),
    {
        let max = WORLD_SIZE as u16;
        self.x < max && self.y < max && self.z < max
    }

    /// Stagger phase bucket: `(x + y + z) % 8`.
    pub fn phase(self) -> (r: u8)
        ensures
            r == self.spec_phase(),
    {
        phase(self.x, self.y, self.z)
    }

    pub fn chunk_coord(self) -> (r: ChunkCoord)
        ensures
            r == self.spec_chunk_coord(),
    {
        ChunkCoord::from_world(self)
    }

    pub fn local_index(self) -> (r: usize)
        ensures
            r == self.spec_local_index(),
            r < CHUNK_VOLUME,
    {
        local_index(self.x, self.y, self.z)
    }

    /// Six axis-aligned neighbors within world bounds (+x, -x, +y, -y, +z, -z).
    pub fn neighbors_6(self) -> (r: Vec<WorldPos>)
        ensures
            r@ == spec_neighbors_6(self),
    {
        let mut v: Vec<WorldPos> = Vec::new();
        push_offset(&mut v, self, 1, 0, 0);
        push_offset(&mut v, self, -1, 0, 0);
        push_offset(&mut v, self, 0, 1, 0);
        push_offset(&mut v, self, 0, -1, 0);
        push_offset(&mut v, self, 0, 0, 1);
        push_offset(&mut v, self, 0, 0, -1);
        v
    }
}

/// Appends the neighbor of `p` at offset `(dx, dy, dz)` when it is in the world.
fn push_offset(v: &mut Vec<WorldPos>, p: WorldPos, dx: i32, dy: i32, dz: i32)
    requires
        -1 <= dx <= 1,
        -1 <= dy <= 1,
        -1 <= dz <= 1,
    ensures
        final(v)@ == push_some(old(v)@, offset_neighbor(p, dx as int, dy as int, dz as int)),
{
    let x: i32 = p.x as i32 + dx;
    let y: i32 = p.y as i32 + dy;
    let z: i32 = p.z as i32 + dz;
    if x < 0 || y < 0 || z < 0 {
        return;
    }
    let q = WorldPos::new((x % 65536) as u16, (y % 65536) as u16, (z % 65536) as u16);
    if q.is_in_bounds() {
        v.push(q);
    }
}

impl ChunkCoord {
    /// Whether the chunk covers part of the world grid.
    pub open spec fn spec_in_world(self) -> bool {
        self.x < 16 && self.y < 16 && self.z < 16
    }

    pub open spec fn spec_origin(self) -> WorldPos {
        WorldPos { x: (self.x * 32) as u16, y: (self.y * 32) as u16, z: (self.z * 32) as u16 }
    }

    pub fn new(x: u16, y: u16, z: u16) -> (r: Self)
        ensures
            r == (ChunkCoord { x, y, z }),
    {
        ChunkCoord { x, y, z }
    }

    pub fn from_world(pos: WorldPos) -> (r: Self)
        ensures
            r == pos.spec_chunk_coord(),
    {
        ChunkCoord { x: pos.x / CHUNK_SIZE, y: pos.y / CHUNK_SIZE, z: pos.z / CHUNK_SIZE }
    }

    pub fn origin(self) -> (r: WorldPos)
        requires
            self.x <= 2047,
            self.y <= 2047,
            self.z <= 2047,
        ensures
            r == self.spec_origin(),
            r.x == self.x * 32,
            r.y == self.y * 32,
            r.z == self.z * 32,
    {
        WorldPos::new(self.x * CHUNK_SIZE, self.y * CHUNK_SIZE, self.z * CHUNK_SIZE)
    }
}

/// Stagger phase for a world position.
pub fn phase(x: u16, y: u16, z: u16) -> (r: u8)
    ensures
        r == spec_phase(x as int, y as int, z as int),
        r < PHASE_COUNT,
{
    ((x as u32 + y as u32 + z as u32) % (PHASE_COUNT as u32)) as u8
}

pub fn local_index(x: u16, y: u16, z: u16) -> (r: usize)
    ensures
        r == spec_local_index(x as int, y as int, z as int),
        r < CHUNK_VOLUME,
{
    let lx = (x % CHUNK_SIZE) as usize;
    let ly = (y % CHUNK_SIZE) as usize;
    let lz = (z % CHUNK_SIZE) as usize;
    lx + ly * CHUNK_SIZE_USIZE + lz * CHUNK_SIZE_USIZE * CHUNK_SIZE_USIZE
}

pub fn world_pos_from_local(chunk: ChunkCoord, local: usize) -> (r: WorldPos)
    requires
        local_pos_fits(chunk, local as int),
    ensures
        r == spec_world_pos_from_local(chunk, local as int),
        r.x == chunk.x * 32 + local % 32,
        r.y == chunk.y * 32 + (local / 32) % 32,
        r.z == chunk.z * 32 + (local / 1024) % 65536,
{
    let origin = chunk.origin();
    let lx = local % CHUNK_SIZE_USIZE;
    let ly = (local / CHUNK_SIZE_USIZE) % CHUNK_SIZE_USIZE;
    let lz = local / (CHUNK_SIZE_USIZE * CHUNK_SIZE_USIZE);
    WorldPos::new(origin.x + lx as u16, origin.y + ly as u16, origin.z + (lz % 65536) as u16)
}

/// Read a cell from a chunk at a world position within that chunk.
pub fn cell_at(chunk: &Chunk, pos: WorldPos) -> (r: Cell)
    requires
        chunk.cells@.len() == CHUNK_VOLUME,
    ensures
        r == chunk.cells@[pos.spec_local_index()],
{
    chunk.cells[local_index(pos.x, pos.y, pos.z)]
}

/// Packs three 16-bit values into one key (`a` lowest, `c` highest).
pub open spec fn pack3(a: u16, b: u16, c: u16) -> u64 {
    (a as int + b as int * 65536 + c as int * 4294967296) as u64
}

/// `pack3` is injective, and orders keys by `c`, then `b`, then `a`.
pub proof fn lemma_pack3(a: u16, b: u16, c: u16, a2: u16, b2: u16, c2: u16)
    ensures
        pack3(a, b, c) == a as int + b as int * 65536 + c as int * 4294967296,
        pack3(a, b, c) == pack3(a2, b2, c2) <==> (a == a2 && b == b2 && c == c2),
        pack3(a, b, c) < pack3(a2, b2, c2) <==> (c < c2 || (c == c2 && (b < b2 || (b == b2 && a < a2)))),
{
    let k = a as int + b as int * 65536 + c as int * 4294967296;
    let k2 = a2 as int + b2 as int * 65536 + c2 as int * 4294967296;
    assert(0 <= k < 281474976710656);
    assert(0 <= k2 < 281474976710656);
    assert((k == k2) <==> (a == a2 && b == b2 && c == c2)) by (nonlinear_arith)
        requires
            k == a as int + b as int * 65536 + c as int * 4294967296,
            k2 == a2 as int + b2 as int * 65536 + c2 as int * 4294967296,
            0 <= a < 65536, 0 <= b < 65536, 0 <= c < 65536,
            0 <= a2 < 65536, 0 <= b2 < 65536, 0 <= c2 < 65536,
    ;
    assert((k < k2) <==> (c < c2 || (c == c2 && (b < b2 || (b == b2 && a < a2))))) by (nonlinear_arith)
        requires
            k == a as int + b as int * 65536 + c as int * 4294967296,
            k2 == a2 as int + b2 as int * 65536 + c2 as int * 4294967296,
            0 <= a < 65536, 0 <= b < 65536, 0 <= c < 65536,
            0 <= a2 < 65536, 0 <= b2 < 65536, 0 <= c2 < 65536,
    ;
}

/// The three values are recovered from a `pack3` key.
pub proof fn lemma_pack3_unpack(a: u16, b: u16, c: u16)
    ensures
        pack3(a, b, c) % 65536 == a,
        (pack3(a, b, c) / 65536) % 65536 == b,
        (pack3(a, b, c) / 4294967296) % 65536 == c,
{
    let k = a as int + b as int * 65536 + c as int * 4294967296;
    assert(pack3(a, b, c) as int == k);
    assert(k % 65536 == a as int) by (nonlinear_arith)
        requires
            k == a as int + b as int * 65536 + c as int * 4294967296,
            0 <= a < 65536, 0 <= b < 65536, 0 <= c < 65536,
    ;
    assert(k / 65536 == b as int + c as int * 65536) by (nonlinear_arith)
        requires
            k == a as int + b as int * 65536 + c as int * 4294967296,
            0 <= a < 65536, 0 <= b < 65536, 0 <= c < 65536,
    ;
    assert((b as int + c as int * 65536) % 65536 == b as int) by (nonlinear_arith)
        requires
            0 <= b < 65536, 0 <= c < 65536,
    ;
    assert(k / 4294967296 == c as int) by (nonlinear_arith)
        requires
            k == a as int + b as int * 65536 + c as int * 4294967296,
            0 <= a < 65536, 0 <= b < 65536, 0 <= c < 65536,
    ;
}

/// Executable `pack3`.
pub fn pack3_exec(a: u16, b: u16, c: u16) -> (r: u64)
    ensures
        r == pack3(a, b, c),
{
    a as u64 + (b as u64) * 65536 + (c as u64) * 4294967296
}

/// Every position is rebuilt from its chunk and local index.
pub proof fn lemma_local_index_round_trip(pos: WorldPos)
    ensures
        local_pos_fits(pos.spec_chunk_coord(), pos.spec_local_index()),
        spec_world_pos_from_local(pos.spec_chunk_coord(), pos.spec_local_index()) == pos,
{
}

/// Every local index of a chunk names a position of that chunk with that index.
#[verifier::spinoff_prover]
pub proof fn lemma_local_position_inverse(c: ChunkCoord, local: int)
    requires
        0 <= local < CHUNK_VOLUME,
        c.x <= 2047,
        c.y <= 2047,
        c.z <= 2047,
    ensures
        local_pos_fits(c, local),
        spec_world_pos_from_local(c, local).spec_chunk_coord() == c,
        spec_world_pos_from_local(c, local).spec_local_index() == local,
{
    let lx = local % 32;
    let q = local / 32;
    let ly = q % 32;
    let lz = local / 1024;
    assert(local == 32 * q + lx && 0 <= lx < 32) by (nonlinear_arith)
        requires
            lx == local % 32,
            q == local / 32,
            0 <= local,
    ;
    assert(q == 32 * lz + ly && 0 <= ly < 32 && 0 <= lz < 32) by (nonlinear_arith)
        requires
            q == local / 32,
            ly == q % 32,
            lz == local / 1024,
            0 <= local < 32768,
    ;
    assert(lz % 65536 == lz);
    let p = spec_world_pos_from_local(c, local);
    assert(p.x == c.x * 32 + lx && p.y == c.y * 32 + ly && p.z == c.z * 32 + lz);
    assert(p.x / 32 == c.x && p.x % 32 == lx) by (nonlinear_arith)
        requires
            p.x == c.x * 32 + lx,
            0 <= lx < 32,
            0 <= c.x,
    ;
    assert(p.y / 32 == c.y && p.y % 32 == ly) by (nonlinear_arith)
        requires
            p.y == c.y * 32 + ly,
            0 <= ly < 32,
            0 <= c.y,
    ;
    assert(p.z / 32 == c.z && p.z % 32 == lz) by (nonlinear_arith)
        requires
            p.z == c.z * 32 + lz,
            0 <= lz < 32,
            0 <= c.z,
    ;
}

/// For a position in the world, `neighbors_6` lists exactly its in-world face
/// neighbors, each once.
#[verifier::spinoff_prover]
#[verifier::rlimit(40)]
pub proof fn lemma_neighbors_6_are_face_neighbors(p: WorldPos, q: WorldPos)
    requires
        p.spec_in_bounds(),
    ensures
        spec_neighbors_6(p).contains(q) <==> (q.spec_in_bounds() && face_adjacent(p, q)),
        spec_neighbors_6(p).no_duplicates(),
        !spec_neighbors_6(p).contains(p),
{
    let s0 = push_some(Seq::empty(), offset_neighbor(p, 1, 0, 0));
    let s1 = push_some(s0, offset_neighbor(p, -1, 0, 0));
    let s2 = push_some(s1, offset_neighbor(p, 0, 1, 0));
    let s3 = push_some(s2, offset_neighbor(p, 0, -1, 0));
    let s4 = push_some(s3, offset_neighbor(p, 0, 0, 1));
    lemma_push_some_contains(Seq::empty(), offset_neighbor(p, 1, 0, 0), q);
    lemma_push_some_contains(s0, offset_neighbor(p, -1, 0, 0), q);
    lemma_push_some_contains(s1, offset_neighbor(p, 0, 1, 0), q);
    lemma_push_some_contains(s2, offset_neighbor(p, 0, -1, 0), q);
    lemma_push_some_contains(s3, offset_neighbor(p, 0, 0, 1), q);
    lemma_push_some_contains(s4, offset_neighbor(p, 0, 0, -1), q);
    if q.spec_in_bounds() && face_adjacent(p, q) {
        if q.x as int == p.x + 1 {
            assert(offset_neighbor(p, 1, 0, 0) == Some(q));
        } else if q.x as int == p.x - 1 {
            assert(offset_neighbor(p, -1, 0, 0) == Some(q));
        } else if q.y as int == p.y + 1 {
            assert(offset_neighbor(p, 0, 1, 0) == Some(q));
        } else if q.y as int == p.y - 1 {
            assert(offset_neighbor(p, 0, -1, 0) == Some(q));
        } else if q.z as int == p.z + 1 {
            assert(offset_neighbor(p, 0, 0, 1) == Some(q));
        } else {
            assert(offset_neighbor(p, 0, 0, -1) == Some(q));
        }
    }
}

proof fn lemma_push_some_contains(s: Seq<WorldPos>, o: Option<WorldPos>, q: WorldPos)
    ensures
        push_some(s, o).contains(q) <==> (s.contains(q) || o == Some(q)),
{
    match o {
        Some(v) => {
            if s.push(v).contains(q) {
                let i = choose|i: int| 0 <= i < s.push(v).len() && s.push(v)[i] == q;
                if i < s.len() {
                    assert(s[i] == q);
                }
            }
            if s.contains(q) {
                let i = choose|i: int| 0 <= i < s.len() && s[i] == q;
                assert(s.push(v)[i] == q);
            }
            assert(s.push(v)[s.len() as int] == v);
        },
        None => {},
    }
}

} // verus!
