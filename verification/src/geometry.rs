//! Integer geometry of the voxel world: chunk locations, block locations,
//! positions inside a chunk and the six block faces.
use vstd::prelude::*;

verus! {

/// Edge length of a chunk, in blocks, along each axis.
pub const CHUNK_SIZE: u8 = 32;

/// Number of blocks stored in one chunk.
pub const BLOCKS_PER_CHUNK: usize = 32768;

/// Key by which chunk locations are stored in hash tables.
pub type ChunkKey = (i32, i32, i32);

/// Position of a chunk in the grid of chunks.
#[derive(Clone, Copy, Debug, PartialEq, Eq, Hash, Structural)]
pub struct ChunkLocation {
    pub x: i32,
    pub y: i32,
    pub z: i32,
}

impl Default for ChunkLocation {
    /// The chunk at the origin.
    fn default() -> (d: ChunkLocation)
        ensures
            d.x == 0 && d.y == 0 && d.z == 0,
    {
        ChunkLocation { x: 0, y: 0, z: 0 }
    }
}

/// Position of a block in the world.
#[derive(Clone, Copy, Debug, PartialEq, Eq, Hash, Structural)]
pub struct BlockLocation {
    pub x: i32,
    pub y: i32,
    pub z: i32,
}

impl Default for BlockLocation {
    /// The block at the origin.
    fn default() -> (d: BlockLocation)
        ensures
            d.x == 0 && d.y == 0 && d.z == 0,
    {
        BlockLocation { x: 0, y: 0, z: 0 }
    }
}

/// Position of a block inside its chunk, stored as the flat index
/// `x + y * CHUNK_SIZE + z * CHUNK_SIZE * CHUNK_SIZE`.
#[derive(Clone, Copy, Debug, PartialEq, Eq, Hash, Structural)]
pub struct ChunkPos(pub u16);

impl Default for ChunkPos {
    /// The first position of a chunk.
    fn default() -> (d: ChunkPos)
        ensures
            d.0 == 0,
    {
        ChunkPos(0)
    }
}

/// The six faces of a block.
#[derive(Clone, Copy, Debug, PartialEq, Eq, Hash, Structural)]
pub enum FaceType {
    /// Towards negative Y.
    Bottom,
    /// Towards positive Y.
    Top,
    /// Towards positive Z.
    Front,
    /// Towards negative Z.
    Back,
    /// Towards negative X.
    Left,
    /// Towards positive X.
    Right,
}

/// Euclidean quotient of `n` by the chunk size.
pub open spec fn chunk_of(n: int) -> int {
    n / (CHUNK_SIZE as int)
}

/// Euclidean remainder of `n` by the chunk size.
pub open spec fn offset_in_chunk(n: int) -> int {
    n % (CHUNK_SIZE as int)
}

/// Whether every block of the chunk at `(x, y, z)` has a location that fits in `i32`.
pub open spec fn chunk_coords_in_range(x: int, y: int, z: int) -> bool {
    &&& i32::MIN <= x * 32 && x * 32 + 31 <= i32::MAX
    &&& i32::MIN <= y * 32 && y * 32 + 31 <= i32::MAX
    &&& i32::MIN <= z * 32 && z * 32 + 31 <= i32::MAX
}

/// Flat index of the in-chunk coordinates `(x, y, z)`.
pub open spec fn flat_index(x: int, y: int, z: int) -> int {
    x + y * 32 + z * 1024
}

impl ChunkLocation {
    /// The key of this location in hash tables.
    pub open spec fn key(self) -> ChunkKey {
        (self.x, self.y, self.z)
    }

    pub open spec fn in_range(self) -> bool {
        chunk_coords_in_range(self.x as int, self.y as int, self.z as int)
    }

    pub open spec fn from_key(k: ChunkKey) -> ChunkLocation {
        ChunkLocation { x: k.0, y: k.1, z: k.2 }
    }

    /// The key of this location in hash tables.
    pub fn as_key(&self) -> (k: ChunkKey)
        ensures
            k == self.key(),
    {
        (self.x, self.y, self.z)
    }

    /// The location whose key is `k`.
    pub fn of_key(k: ChunkKey) -> (l: ChunkLocation)
        ensures
            l == ChunkLocation::from_key(k),
            l.key() == k,
    {
        ChunkLocation { x: k.0, y: k.1, z: k.2 }
    }

    /// Whether every block of this chunk has a location that fits in `i32`.
    pub fn is_in_range(&self) -> (b: bool)
        ensures
            b == self.in_range(),
    {
        let lo: i64 = i32::MIN as i64;
        let hi: i64 = i32::MAX as i64;
        let x: i64 = self.x as i64 * 32;
        let y: i64 = self.y as i64 * 32;
        let z: i64 = self.z as i64 * 32;
        lo <= x && x + 31 <= hi && lo <= y && y + 31 <= hi && lo <= z && z + 31 <= hi
    }

    /// The chunk location that contains `block`.
    pub fn from_block(block: &BlockLocation) -> (l: ChunkLocation)
        ensures
            l.x == chunk_of(block.x as int),
            l.y == chunk_of(block.y as int),
            l.z == chunk_of(block.z as int),
            l.in_range(),
    {
        ChunkLocation {
            x: floor_div_chunk(block.x),
            y: floor_div_chunk(block.y),
            z: floor_div_chunk(block.z),
        }
    }

    /// The neighbouring chunk location across face `ft`.
    pub fn neighbor(&self, ft: FaceType) -> (l: ChunkLocation)
        requires
            self.x != i32::MIN && self.x != i32::MAX,
            self.y != i32::MIN && self.y != i32::MAX,
            self.z != i32::MIN && self.z != i32::MAX,
        ensures
            l == self.spec_neighbor(ft),
    {
        let (dx, dy, dz) = ft.as_vector();
        ChunkLocation { x: self.x + dx, y: self.y + dy, z: self.z + dz }
    }

    pub open spec fn spec_neighbor(self, ft: FaceType) -> ChunkLocation {
        let v = ft.spec_vector();
        ChunkLocation {
            x: (self.x + v.0) as i32,
            y: (self.y + v.1) as i32,
            z: (self.z + v.2) as i32,
        }
    }

    /// Whether no coordinate is at the edge of the `i32` range.
    pub open spec fn not_at_edge(self) -> bool {
        &&& self.x != i32::MIN && self.x != i32::MAX
        &&& self.y != i32::MIN && self.y != i32::MAX
        &&& self.z != i32::MIN && self.z != i32::MAX
    }

    /// Whether no coordinate is at the edge of the `i32` range.
    pub fn is_not_at_edge(&self) -> (b: bool)
        ensures
            b == self.not_at_edge(),
    {
        self.x != i32::MIN && self.x != i32::MAX && self.y != i32::MIN && self.y != i32::MAX
            && self.z != i32::MIN && self.z != i32::MAX
    }
}

/// Floor division of a coordinate by the chunk size.
fn floor_div_chunk(n: i32) -> (q: i32)
    ensures
        q == chunk_of(n as int),
        i32::MIN <= q * 32 && q * 32 + 31 <= i32::MAX,
{
    if n >= 0 {
        let u: u32 = n as u32;
        (u / 32) as i32
    } else {
        let m: u32 = (-(n + 1)) as u32;
        let q: i32 = -((m / 32) as i32) - 1;
        assert(q == chunk_of(n as int)) by {
            assert(n as int == -(m as int) - 1);
            let k = m as int / 32;
            let r = m as int % 32;
            assert(m as int == 32 * k + r && 0 <= r < 32);
            assert(n as int == 32 * (-k - 1) + (31 - r));
            vstd::arithmetic::div_mod::lemma_fundamental_div_mod_converse(
                n as int,
                32,
                -k - 1,
                31 - r,
            );
        }
        q
    }
}

/// Euclidean remainder of a coordinate by the chunk size.
fn mod_chunk(n: i32) -> (r: u8)
    ensures
        r == offset_in_chunk(n as int),
        r < 32,
{
    if n >= 0 {
        let u: u32 = n as u32;
        (u % 32) as u8
    } else {
        let m: u32 = (-(n + 1)) as u32;
        let r: u8 = (31 - (m % 32)) as u8;
        assert(r == offset_in_chunk(n as int)) by {
            let k = m as int / 32;
            let rr = m as int % 32;
            assert(m as int == 32 * k + rr && 0 <= rr < 32);
            assert(n as int == 32 * (-k - 1) + (31 - rr));
            vstd::arithmetic::div_mod::lemma_fundamental_div_mod_converse(
                n as int,
                32,
                -k - 1,
                31 - rr,
            );
        }
        r
    }
}

impl ChunkPos {
    /// Whether this position addresses a block of a chunk.
    pub open spec fn wf(self) -> bool {
        (self.0 as int) < BLOCKS_PER_CHUNK as int
    }

    pub open spec fn spec_x(self) -> int {
        (self.0 as int) % 32
    }

    pub open spec fn spec_y(self) -> int {
        ((self.0 as int) / 32) % 32
    }

    pub open spec fn spec_z(self) -> int {
        (self.0 as int) / 1024
    }

    /// The position with in-chunk coordinates `(x, y, z)`, or `None` when a
    /// coordinate is not below the chunk size.
    pub fn new(x: u8, y: u8, z: u8) -> (p: Option<ChunkPos>)
        ensures
            p is Some <==> (x < 32 && y < 32 && z < 32),
            p matches Some(p) ==> p.0 == flat_index(x as int, y as int, z as int) && p.wf()
                && p.spec_x() == x && p.spec_y() == y && p.spec_z() == z,
    {
        if x < CHUNK_SIZE && y < CHUNK_SIZE && z < CHUNK_SIZE {
            let idx: u16 = x as u16 + (y as u16) * 32 + (z as u16) * 1024;
            let p = ChunkPos(idx);
            proof {
                lemma_flat_index_coords(x as int, y as int, z as int);
            }
            Some(p)
        } else {
            None
        }
    }

    /// The X coordinate inside the chunk.
    pub fn x(&self) -> (r: u8)
        ensures
            r == self.spec_x(),
            r < 32,
    {
        (self.0 % 32) as u8
    }

    /// The Y coordinate inside the chunk.
    pub fn y(&self) -> (r: u8)
        ensures
            r == self.spec_y(),
            r < 32,
    {
        ((self.0 / 32) % 32) as u8
    }

    /// The Z coordinate inside the chunk.
    pub fn z(&self) -> (r: u8)
        ensures
            r == self.spec_z(),
            self.wf() ==> r < 32,
    {
        (self.0 / 1024) as u8
    }

    /// The in-chunk position of `block`.
    pub fn from_block(block: &BlockLocation) -> (p: ChunkPos)
        ensures
            p.wf(),
            p.0 == flat_index(
                offset_in_chunk(block.x as int),
                offset_in_chunk(block.y as int),
                offset_in_chunk(block.z as int),
            ),
            p.spec_x() == offset_in_chunk(block.x as int),
            p.spec_y() == offset_in_chunk(block.y as int),
            p.spec_z() == offset_in_chunk(block.z as int),
    {
        let x = mod_chunk(block.x);
        let y = mod_chunk(block.y);
        let z = mod_chunk(block.z);
        proof {
            lemma_flat_index_coords(x as int, y as int, z as int);
        }
        ChunkPos(x as u16 + (y as u16) * 32 + (z as u16) * 1024)
    }

    /// The position next to this one across face `ft`: `Ok` when it lies in
    /// the same chunk, `Err` with the position inside the neighbouring chunk
    /// otherwise.
    pub open spec fn spec_adjacent(self, ft: FaceType) -> Result<ChunkPos, ChunkPos> {
        let v = ft.spec_vector();
        let nx = self.spec_x() + v.0;
        let ny = self.spec_y() + v.1;
        let nz = self.spec_z() + v.2;
        let wrapped = ChunkPos(
            flat_index(offset_in_chunk(nx), offset_in_chunk(ny), offset_in_chunk(nz)) as u16,
        );
        if 0 <= nx < 32 && 0 <= ny < 32 && 0 <= nz < 32 {
            Ok(wrapped)
        } else {
            Err(wrapped)
        }
    }

    pub fn adjacent_to_face(&self, ft: FaceType) -> (r: Result<ChunkPos, ChunkPos>)
        requires
            self.wf(),
        ensures
            r == self.spec_adjacent(ft),
            r matches Ok(p) ==> p.wf(),
            r matches Err(p) ==> p.wf(),
    {
        let x = self.x() as i32;
        let y = self.y() as i32;
        let z = self.z() as i32;
        let (dx, dy, dz) = ft.as_vector();
        let nx = x + dx;
        let ny = y + dy;
        let nz = z + dz;
        let inside = 0 <= nx && nx < 32 && 0 <= ny && ny < 32 && 0 <= nz && nz < 32;
        let wx = mod_chunk(nx);
        let wy = mod_chunk(ny);
        let wz = mod_chunk(nz);
        proof {
            lemma_flat_index_coords(wx as int, wy as int, wz as int);
        }
        let p = ChunkPos(wx as u16 + (wy as u16) * 32 + (wz as u16) * 1024);
        if inside {
            Ok(p)
        } else {
            Err(p)
        }
    }
}

/// The flat index of in-chunk coordinates is in range and gives them back.
pub proof fn lemma_flat_index_coords(x: int, y: int, z: int)
    requires
        0 <= x < 32,
        0 <= y < 32,
        0 <= z < 32,
    ensures
        0 <= flat_index(x, y, z) < 32768,
        flat_index(x, y, z) % 32 == x,
        (flat_index(x, y, z) / 32) % 32 == y,
        flat_index(x, y, z) / 1024 == z,
{
    let i = flat_index(x, y, z);
    vstd::arithmetic::div_mod::lemma_fundamental_div_mod_converse(i, 32, y + z * 32, x);
    vstd::arithmetic::div_mod::lemma_fundamental_div_mod_converse(y + z * 32, 32, z, y);
    vstd::arithmetic::div_mod::lemma_fundamental_div_mod_converse(i, 1024, z, x + y * 32);
}

/// A flat index below the chunk volume is the flat index of its coordinates.
pub proof fn lemma_coords_flat_index(i: int)
    requires
        0 <= i < 32768,
    ensures
        0 <= i % 32 < 32,
        0 <= (i / 32) % 32 < 32,
        0 <= i / 1024 < 32,
        flat_index(i % 32, (i / 32) % 32, i / 1024) == i,
{
    let a = i / 32;
    assert(i == 32 * a + i % 32);
    assert(a == 32 * (a / 32) + a % 32);
    vstd::arithmetic::div_mod::lemma_div_denominator(i, 32, 32);
    assert(i / 1024 == a / 32);
}

impl FaceType {
    /// Every face, in the order in which meshes list them.
    pub open spec fn spec_all() -> Seq<FaceType> {
        seq![
            FaceType::Top,
            FaceType::Bottom,
            FaceType::Left,
            FaceType::Right,
            FaceType::Front,
            FaceType::Back,
        ]
    }

    /// Every face, in the order in which meshes list them.
    pub fn all() -> (r: [FaceType; 6])
        ensures
            r@ == FaceType::spec_all(),
    {
        [
            FaceType::Top,
            FaceType::Bottom,
            FaceType::Left,
            FaceType::Right,
            FaceType::Front,
            FaceType::Back,
        ]
    }

    /// Position of the face in declaration order.
    pub open spec fn spec_index(self) -> int {
        match self {
            FaceType::Bottom => 0,
            FaceType::Top => 1,
            FaceType::Front => 2,
            FaceType::Back => 3,
            FaceType::Left => 4,
            FaceType::Right => 5,
        }
    }

    /// Position of the face in declaration order.
    pub fn index(&self) -> (r: usize)
        ensures
            r == self.spec_index(),
            r < 6,
    {
        match self {
            FaceType::Bottom => 0,
            FaceType::Top => 1,
            FaceType::Front => 2,
            FaceType::Back => 3,
            FaceType::Left => 4,
            FaceType::Right => 5,
        }
    }

    /// The face at position `i` in declaration order (`Right` past the end).
    pub open spec fn spec_from_index(i: int) -> FaceType {
        if i == 0 {
            FaceType::Bottom
        } else if i == 1 {
            FaceType::Top
        } else if i == 2 {
            FaceType::Front
        } else if i == 3 {
            FaceType::Back
        } else if i == 4 {
            FaceType::Left
        } else {
            FaceType::Right
        }
    }

    /// The face at position `i` in declaration order.
    pub fn from_repr(i: u8) -> (r: Option<FaceType>)
        ensures
            r is Some <==> i < 6,
            r matches Some(f) ==> f.spec_index() == i,
    {
        match i {
            0 => Some(FaceType::Bottom),
            1 => Some(FaceType::Top),
            2 => Some(FaceType::Front),
            3 => Some(FaceType::Back),
            4 => Some(FaceType::Left),
            5 => Some(FaceType::Right),
            _ => None,
        }
    }

    /// Unit vector pointing out of the face.
    pub open spec fn spec_vector(self) -> (i32, i32, i32) {
        match self {
            FaceType::Bottom => (0i32, -1i32, 0i32),
            FaceType::Top => (0, 1, 0),
            FaceType::Front => (0, 0, 1),
            FaceType::Back => (0i32, 0i32, -1i32),
            FaceType::Left => (-1i32, 0i32, 0i32),
            FaceType::Right => (1, 0, 0),
        }
    }

    /// Unit vector pointing out of the face.
    pub fn as_vector(&self) -> (v: (i32, i32, i32))
        ensures
            v == self.spec_vector(),
    {
        match self {
            FaceType::Bottom => (0, -1, 0),
            FaceType::Top => (0, 1, 0),
            FaceType::Front => (0, 0, 1),
            FaceType::Back => (0, 0, -1),
            FaceType::Left => (-1, 0, 0),
            FaceType::Right => (1, 0, 0),
        }
    }
}

impl BlockLocation {
    pub open spec fn spec_from_chunk(loc: ChunkLocation) -> BlockLocation {
        BlockLocation {
            x: (loc.x * 32) as i32,
            y: (loc.y * 32) as i32,
            z: (loc.z * 32) as i32,
        }
    }

    pub open spec fn spec_from_chunk_parts(loc: ChunkLocation, pos: ChunkPos) -> BlockLocation {
        BlockLocation {
            x: (loc.x * 32 + pos.spec_x()) as i32,
            y: (loc.y * 32 + pos.spec_y()) as i32,
            z: (loc.z * 32 + pos.spec_z()) as i32,
        }
    }

    pub open spec fn spec_chunk_parts(self) -> (ChunkLocation, ChunkPos) {
        (
            ChunkLocation {
                x: chunk_of(self.x as int) as i32,
                y: chunk_of(self.y as int) as i32,
                z: chunk_of(self.z as int) as i32,
            },
            ChunkPos(
                flat_index(
                    offset_in_chunk(self.x as int),
                    offset_in_chunk(self.y as int),
                    offset_in_chunk(self.z as int),
                ) as u16,
            ),
        )
    }

    /// The location of the first block (lowest coordinates) of chunk `loc`.
    pub fn from_chunk_location(loc: &ChunkLocation) -> (b: BlockLocation)
        requires
            loc.in_range(),
        ensures
            b == BlockLocation::spec_from_chunk(*loc),
    {
        BlockLocation { x: loc.x * 32, y: loc.y * 32, z: loc.z * 32 }
    }

    /// The world location of block `pos` of chunk `loc`.
    pub fn from_chunk_parts(loc: &ChunkLocation, pos: &ChunkPos) -> (b: BlockLocation)
        requires
            loc.in_range(),
            pos.wf(),
        ensures
            b == BlockLocation::spec_from_chunk_parts(*loc, *pos),
    {
        let base = Self::from_chunk_location(loc);
        let px = pos.x() as i32;
        let py = pos.y() as i32;
        let pz = pos.z() as i32;
        BlockLocation { x: base.x + px, y: base.y + py, z: base.z + pz }
    }

    /// The chunk that holds this block and the block's position inside it.
    pub fn as_chunk_parts(&self) -> (r: (ChunkLocation, ChunkPos))
        ensures
            r == self.spec_chunk_parts(),
            r.0.in_range(),
            r.1.wf(),
    {
        (ChunkLocation::from_block(self), ChunkPos::from_block(self))
    }

    /// The neighbouring block across face `ft`.
    pub fn neighbor(&self, ft: FaceType) -> (b: BlockLocation)
        requires
            self.x != i32::MIN && self.x != i32::MAX,
            self.y != i32::MIN && self.y != i32::MAX,
            self.z != i32::MIN && self.z != i32::MAX,
        ensures
            b == self.spec_neighbor(ft),
    {
        let (dx, dy, dz) = ft.as_vector();
        BlockLocation { x: self.x + dx, y: self.y + dy, z: self.z + dz }
    }

    pub open spec fn spec_neighbor(self, ft: FaceType) -> BlockLocation {
        let v = ft.spec_vector();
        BlockLocation {
            x: (self.x + v.0) as i32,
            y: (self.y + v.1) as i32,
            z: (self.z + v.2) as i32,
        }
    }

    /// Whether no coordinate is at the edge of the `i32` range.
    pub open spec fn not_at_edge(self) -> bool {
        &&& self.x != i32::MIN && self.x != i32::MAX
        &&& self.y != i32::MIN && self.y != i32::MAX
        &&& self.z != i32::MIN && self.z != i32::MAX
    }

    /// Whether no coordinate is at the edge of the `i32` range.
    pub fn is_not_at_edge(&self) -> (b: bool)
        ensures
            b == self.not_at_edge(),
    {
        self.x != i32::MIN && self.x != i32::MAX && self.y != i32::MIN && self.y != i32::MAX
            && self.z != i32::MIN && self.z != i32::MAX
    }
}

/// Splitting a block location into chunk parts and joining them again gives
/// the block location back.
pub proof fn lemma_chunk_parts_round_trip(b: BlockLocation)
    ensures
        b.spec_chunk_parts().0.in_range(),
        b.spec_chunk_parts().1.wf(),
        BlockLocation::spec_from_chunk_parts(b.spec_chunk_parts().0, b.spec_chunk_parts().1) == b,
{
    let (l, p) = b.spec_chunk_parts();
    let ox = offset_in_chunk(b.x as int);
    let oy = offset_in_chunk(b.y as int);
    let oz = offset_in_chunk(b.z as int);
    lemma_flat_index_coords(ox, oy, oz);
    lemma_chunk_of_range(b.x as int);
    lemma_chunk_of_range(b.y as int);
    lemma_chunk_of_range(b.z as int);
}

/// The chunk of an `i32` coordinate has all its blocks in the `i32` range.
proof fn lemma_chunk_of_range(n: int)
    requires
        i32::MIN <= n <= i32::MAX,
    ensures
        n == chunk_of(n) * 32 + offset_in_chunk(n),
        0 <= offset_in_chunk(n) < 32,
        i32::MIN <= chunk_of(n) * 32,
        chunk_of(n) * 32 + 31 <= i32::MAX,
{
    assert(n == 32 * (n / 32) + n % 32);
}

/// Joining chunk parts into a block location and splitting it again gives the
/// parts back.
pub proof fn lemma_block_location_round_trip(loc: ChunkLocation, pos: ChunkPos)
    requires
        loc.in_range(),
        pos.wf(),
    ensures
        BlockLocation::spec_from_chunk_parts(loc, pos).spec_chunk_parts() == (loc, pos),
{
    let b = BlockLocation::spec_from_chunk_parts(loc, pos);
    lemma_coords_flat_index(pos.0 as int);
    let px = pos.spec_x();
    let py = pos.spec_y();
    let pz = pos.spec_z();
    vstd::arithmetic::div_mod::lemma_fundamental_div_mod_converse(b.x as int, 32, loc.x as int, px);
    vstd::arithmetic::div_mod::lemma_fundamental_div_mod_converse(b.y as int, 32, loc.y as int, py);
    vstd::arithmetic::div_mod::lemma_fundamental_div_mod_converse(b.z as int, 32, loc.z as int, pz);
}

} // verus!
