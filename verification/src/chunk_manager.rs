//! The client's chunk manager: which chunks are loaded, how far each is on
//! its way to a GPU mesh, and which chunks to ask for.
use vstd::prelude::*;
use crate::chunk::{Block, BakeState, ChunkData, ClientChunk, dirtied};
use crate::events::{ChunkGenEvent, ChunkGenRequestEvent};
use crate::geometry::{BlockLocation, ChunkKey, ChunkLocation, ChunkPos, FaceType};
use crate::render_distance::{RenderDistance, xzy_before, before_cursor};
use crate::save::{ChunkSaveCache, WorldSaver};
use crate::tables::{ChunkTable, TimerTable, chunk_table_contents, timer_table_contents, no_chunks, no_timers};

verus! {

/// How long, in nanoseconds, a generation request stays outstanding before
/// the same chunk may be asked for again.
pub const REQ_TIMEOUT: u64 = 5_000_000_000;

/// The chunks held by the client.
pub struct ChunkManager {
    loaded: ChunkTable,
    recently_requested_gen: TimerTable,
    max_bakes_per_frame: usize,
}

/// What one frame of chunk management asks the renderer and the generator to do.
#[derive(Debug)]
pub struct ChunkUpdate {
    /// Chunks that left the render distance while holding a mesh, current or
    /// stale: their meshes are to be freed.
    pub unbaked: Vec<ChunkLocation>,
    /// Chunks whose meshes are to be built now; they are already marked baked.
    pub baked: Vec<ChunkLocation>,
    /// Chunks to generate or load.
    pub requests: Vec<ChunkGenRequestEvent>,
}

impl ChunkManager {
    /// The loaded chunks.
    pub closed spec fn loaded_view(&self) -> Map<ChunkKey, ClientChunk> {
        chunk_table_contents(self.loaded)
    }

    /// The outstanding generation requests with their remaining time.
    pub closed spec fn requested_view(&self) -> Map<ChunkKey, u64> {
        timer_table_contents(self.recently_requested_gen)
    }

    /// How many meshes may be built in one frame.
    pub closed spec fn spec_max_bakes(&self) -> usize {
        self.max_bakes_per_frame
    }

    /// Every loaded chunk holds a full set of blocks, is stored under its own
    /// location, and lies where block coordinates fit in `i32`.
    pub open spec fn wf(&self) -> bool {
        loaded_wf(self.loaded_view())
    }
    /// Whether `chunk_loc` is within `render_distance` of `center`, computed as in
    /// the engine: the offset shifted by the distance must lie in `0..=2 * distance`.
    pub fn in_render_distance_with(
        chunk_loc: &ChunkLocation,
        center: &ChunkLocation,
        render_distance: &RenderDistance,
    ) -> (b: bool)
        requires
            render_distance.fits(*chunk_loc, *center),
        ensures
            b == render_distance.covers(*chunk_loc, *center),
    {
        let ox = chunk_loc.x - center.x;
        let oy = chunk_loc.y - center.y;
        let oz = chunk_loc.z - center.z;
        let rx = render_distance.0 as i32;
        let ry = render_distance.1 as i32;
        let rz = render_distance.2 as i32;
        let nx = ox + rx;
        let ny = oy + ry;
        let nz = oz + rz;
        let out_x = nx as i64 > 2 * (rx as i64) || nx < 0;
        let out_y = ny as i64 > 2 * (ry as i64) || ny < 0;
        let out_z = nz as i64 > 2 * (rz as i64) || nz < 0;
        !(out_x || out_y || out_z)
    }

    /// Every chunk location within `render_distance` of `center`, ordered by `x`,
    /// then `z`, then `y`.
    pub fn renderable_locations_with(center: &ChunkLocation, render_distance: &RenderDistance) -> (r:
        Vec<ChunkLocation>)
        requires
            render_distance.box_fits(*center),
        ensures
            forall|i: int, j: int| 0 <= i < j < r@.len() ==> xzy_before(#[trigger] r@[i], #[trigger] r@[j]),
            forall|l: ChunkLocation| r@.contains(l) <==> render_distance.covers(l, *center),
            r@.len() == render_distance.spec_total_chunks(),
    {
        let min_x: i64 = center.x as i64 - render_distance.0 as i64;
        let max_x: i64 = center.x as i64 + render_distance.0 as i64;
        let min_y: i64 = center.y as i64 - render_distance.1 as i64;
        let max_y: i64 = center.y as i64 + render_distance.1 as i64;
        let min_z: i64 = center.z as i64 - render_distance.2 as i64;
        let max_z: i64 = center.z as i64 + render_distance.2 as i64;
        let ghost rd = *render_distance;
        let ghost c = *center;
        let ghost ny: int = 2 * rd.1 + 1;
        let ghost nz: int = 2 * rd.2 + 1;
        let mut out: Vec<ChunkLocation> = Vec::new();
        let mut x: i64 = min_x;
        assert((x - min_x) * (nz * ny) == 0) by (nonlinear_arith)
            requires
                x == min_x,
        ;
        while x <= max_x
            invariant
                min_x == c.x - rd.0,
                max_x == c.x + rd.0,
                min_y == c.y - rd.1,
                max_y == c.y + rd.1,
                min_z == c.z - rd.2,
                max_z == c.z + rd.2,
                rd.box_fits(c),
                min_x <= x <= max_x + 1,
                ny == 2 * rd.1 + 1,
                nz == 2 * rd.2 + 1,
                out@.len() == (x - min_x) * (nz * ny),
                forall|i: int, j: int|
                    0 <= i < j < out@.len() ==> xzy_before(#[trigger] out@[i], #[trigger] out@[j]),
                forall|l: ChunkLocation|
                    out@.contains(l) <==> (rd.covers(l, c) && before_cursor(l, x as int, min_z as int, min_y as int)),
                forall|i: int| 0 <= i < out@.len() ==> before_cursor(#[trigger] out@[i], x as int, min_z as int, min_y as int),
            decreases max_x + 1 - x,
        {
            let mut z: i64 = min_z;
            assert((z - min_z) * ny == 0) by (nonlinear_arith)
                requires
                    z == min_z,
            ;
            while z <= max_z
                invariant
                    min_x == c.x - rd.0,
                    max_x == c.x + rd.0,
                    min_y == c.y - rd.1,
                    max_y == c.y + rd.1,
                    min_z == c.z - rd.2,
                    max_z == c.z + rd.2,
                    rd.box_fits(c),
                    min_x <= x <= max_x,
                    min_z <= z <= max_z + 1,
                    ny == 2 * rd.1 + 1,
                    nz == 2 * rd.2 + 1,
                    out@.len() == (x - min_x) * (nz * ny) + (z - min_z) * ny,
                    forall|i: int, j: int|
                        0 <= i < j < out@.len() ==> xzy_before(#[trigger] out@[i], #[trigger] out@[j]),
                    forall|l: ChunkLocation|
                        out@.contains(l) <==> (rd.covers(l, c) && before_cursor(l, x as int, z as int, min_y as int)),
                    forall|i: int| 0 <= i < out@.len() ==> before_cursor(#[trigger] out@[i], x as int, z as int, min_y as int),
                decreases max_z + 1 - z,
            {
                let mut y: i64 = min_y;
                while y <= max_y
                    invariant
                        min_x == c.x - rd.0,
                        max_x == c.x + rd.0,
                        min_y == c.y - rd.1,
                        max_y == c.y + rd.1,
                        min_z == c.z - rd.2,
                        max_z == c.z + rd.2,
                        rd.box_fits(c),
                        min_x <= x <= max_x,
                        min_z <= z <= max_z,
                        min_y <= y <= max_y + 1,
                        ny == 2 * rd.1 + 1,
                        nz == 2 * rd.2 + 1,
                        out@.len() == (x - min_x) * (nz * ny) + (z - min_z) * ny + (y - min_y),
                        forall|i: int, j: int|
                            0 <= i < j < out@.len() ==> xzy_before(#[trigger] out@[i], #[trigger] out@[j]),
                        forall|l: ChunkLocation|
                            out@.contains(l) <==> (rd.covers(l, c) && before_cursor(l, x as int, z as int, y as int)),
                        forall|i: int| 0 <= i < out@.len() ==> before_cursor(#[trigger] out@[i], x as int, z as int, y as int),
                    decreases max_y + 1 - y,
                {
                    let loc = ChunkLocation { x: x as i32, y: y as i32, z: z as i32 };
                    let ghost prev = out@;
                    out.push(loc);
                    proof {
                        assert forall|i: int, j: int| 0 <= i < j < out@.len() implies xzy_before(
                            #[trigger] out@[i],
                            #[trigger] out@[j],
                        ) by {
                            if j == prev.len() {
                                assert(before_cursor(prev[i], x as int, z as int, y as int));
                            } else {
                                assert(xzy_before(prev[i], prev[j]));
                            }
                        }
                        assert forall|l: ChunkLocation| out@.contains(l) <==> (rd.covers(l, c) && before_cursor(
                            l,
                            x as int,
                            z as int,
                            y + 1,
                        )) by {
                            if out@.contains(l) {
                                let k = choose|k: int| 0 <= k < out@.len() && out@[k] == l;
                                if k < prev.len() {
                                    assert(prev.contains(l));
                                }
                            }
                            if rd.covers(l, c) && before_cursor(l, x as int, z as int, y + 1) {
                                if l == loc {
                                    assert(out@[prev.len() as int] == l);
                                } else {
                                    assert(before_cursor(l, x as int, z as int, y as int));
                                    assert(prev.contains(l));
                                    let k = choose|k: int| 0 <= k < prev.len() && prev[k] == l;
                                    assert(out@[k] == l);
                                }
                            }
                        }
                        assert forall|i: int| 0 <= i < out@.len() implies before_cursor(
                            #[trigger] out@[i],
                            x as int,
                            z as int,
                            y + 1,
                        ) by {
                            if i < prev.len() {
                                assert(before_cursor(prev[i], x as int, z as int, y as int));
                            }
                        }
                    }
                    y = y + 1;
                }
                proof {
                    assert((x - min_x) * (nz * ny) + (z - min_z) * ny + (y - min_y) == (x - min_x) * (nz * ny) + (
                    z + 1 - min_z) * ny) by (nonlinear_arith)
                        requires
                            y - min_y == ny,
                    ;
                    assert forall|l: ChunkLocation| rd.covers(l, c) implies (before_cursor(
                        l,
                        x as int,
                        z as int,
                        y as int,
                    ) <==> before_cursor(l, x as int, z + 1, min_y as int)) by {}
                    assert forall|i: int| 0 <= i < out@.len() implies before_cursor(
                        #[trigger] out@[i],
                        x as int,
                        z + 1,
                        min_y as int,
                    ) by {
                        assert(before_cursor(out@[i], x as int, z as int, y as int));
                    }
                }
                z = z + 1;
            }
            proof {
                assert((x - min_x) * (nz * ny) + (z - min_z) * ny == (x + 1 - min_x) * (nz * ny)) by (nonlinear_arith)
                    requires
                        z - min_z == nz,
                ;
                assert forall|l: ChunkLocation| rd.covers(l, c) implies (before_cursor(
                    l,
                    x as int,
                    z as int,
                    min_y as int,
                ) <==> before_cursor(l, x + 1, min_z as int, min_y as int)) by {}
                assert forall|i: int| 0 <= i < out@.len() implies before_cursor(
                    #[trigger] out@[i],
                    x + 1,
                    min_z as int,
                    min_y as int,
                ) by {
                    assert(before_cursor(out@[i], x as int, z as int, min_y as int));
                }
            }
            x = x + 1;
        }
        proof {
            assert forall|l: ChunkLocation| rd.covers(l, c) implies before_cursor(
                l,
                x as int,
                min_z as int,
                min_y as int,
            ) by {}
            assert((x - min_x) * (nz * ny) == rd.spec_total_chunks()) by (nonlinear_arith)
                requires
                    x - min_x == 2 * rd.0 + 1,
                    ny == 2 * rd.1 + 1,
                    nz == 2 * rd.2 + 1,
            ;
        }
        out
    }


    /// A manager with nothing loaded and nothing requested; the expected
    /// render distance sizes the table.
    pub fn new(max_bakes_per_frame: usize, expected_render_dist: Option<&RenderDistance>) -> (m:
        ChunkManager)
        ensures
            m.loaded_view() == no_chunks(),
            m.requested_view() == no_timers(),
            m.spec_max_bakes() == max_bakes_per_frame,
            m.wf(),
    {
        let size: u64 = match expected_render_dist {
            Some(rd) => rd.total_chunks(),
            None => 0,
        };
        let capacity: usize = if size <= usize::MAX as u64 {
            size as usize
        } else {
            usize::MAX
        };
        ChunkManager {
            loaded: ChunkTable::with_capacity(capacity),
            recently_requested_gen: TimerTable::new(),
            max_bakes_per_frame,
        }
    }

    /// Forgets every outstanding generation request.
    pub fn clear_recently_requested(&mut self)
        ensures
            final(self).requested_view() == no_timers(),
            final(self).loaded_view() == old(self).loaded_view(),
            final(self).spec_max_bakes() == old(self).spec_max_bakes(),
    {
        self.recently_requested_gen.clear();
    }

    /// The loaded chunk at `location`, if any.
    pub fn get_chunk_ref(&self, location: &ChunkLocation) -> (r: Option<&ClientChunk>)
        ensures
            r is Some <==> self.loaded_view().dom().contains(location.key()),
            r matches Some(c) ==> *c == self.loaded_view()[location.key()],
    {
        let k = location.as_key();
        self.loaded.get(&k)
    }

    /// The loaded chunk at `location`, if any, to change in place.
    pub fn get_chunk_mut(&mut self, location: &ChunkLocation) -> (r: Option<&mut ClientChunk>)
        ensures
            r is Some <==> old(self).loaded_view().dom().contains(location.key()),
            r matches Some(c) ==> *c == old(self).loaded_view()[location.key()] && final(self).loaded_view()
                == old(self).loaded_view().insert(location.key(), *final(c)),
            r is None ==> final(self).loaded_view() == old(self).loaded_view(),
            final(self).requested_view() == old(self).requested_view(),
            final(self).spec_max_bakes() == old(self).spec_max_bakes(),
    {
        let k = location.as_key();
        self.loaded.get_mut(&k)
    }

    /// The block at `block_loc`, if its chunk is loaded, to change in place;
    /// the rest of the chunk and the other chunks stay as they are.
    pub fn get_block_mut(&mut self, block_loc: &BlockLocation) -> (r: Option<&mut Block>)
        requires
            old(self).wf(),
        ensures
            r is Some <==> block_at(old(self).loaded_view(), *block_loc) is Some,
            r matches Some(b) ==> {
                let (k, p) = parts_of(*block_loc);
                let m = old(self).loaded_view();
                let m2 = final(self).loaded_view();
                &&& Some(*b) == block_at(m, *block_loc)
                &&& m2.dom() == m.dom()
                &&& forall|j: ChunkKey| #[trigger] m.dom().contains(j) && j != k ==> m2[j] == m[j]
                &&& m2[k].bake == m[k].bake
                &&& m2[k].has_mesh == m[k].has_mesh
                &&& m2[k].data.location == m[k].data.location
                &&& m2[k].data.blocks@ == m[k].data.blocks@.update(p.0 as int, *final(b))
            },
            r is None ==> final(self).loaded_view() == old(self).loaded_view(),
            final(self).requested_view() == old(self).requested_view(),
            final(self).spec_max_bakes() == old(self).spec_max_bakes(),
    {
        let (loc, pos) = block_loc.as_chunk_parts();
        let k = loc.as_key();
        proof {
            crate::geometry::lemma_chunk_parts_round_trip(*block_loc);
        }
        match self.loaded.get_mut(&k) {
            Some(c) => {
                proof {
                    assert(old(self).loaded_view().dom().contains(k));
                    assert(c.data.wf());
                }
                Some(&mut c.data.blocks[pos.0 as usize])
            },
            None => None,
        }
    }

    /// The block at `block_loc`, if its chunk is loaded.
    pub fn get_block(&self, block_loc: &BlockLocation) -> (r: Option<Block>)
        requires
            self.wf(),
        ensures
            r == block_at(self.loaded_view(), *block_loc),
    {
        let (loc, pos) = block_loc.as_chunk_parts();
        let k = loc.as_key();
        match self.loaded.get(&k) {
            Some(c) => {
                proof {
                    assert(self.loaded_view().dom().contains(k));
                }
                Some(*c.data.get_block(pos))
            },
            None => None,
        }
    }

    /// The locations of the loaded chunks, each once, in table order.
    pub fn loaded_locations(&self) -> (r: Vec<ChunkLocation>)
        ensures
            r@.no_duplicates(),
            forall|l: ChunkLocation| r@.contains(l) <==> self.loaded_view().dom().contains(l.key()),
    {
        let keys = self.loaded.keys();
        let mut out: Vec<ChunkLocation> = Vec::new();
        let mut i: usize = 0;
        while i < keys.len()
            invariant
                i <= keys@.len(),
                keys@.no_duplicates(),
                out@.len() == i,
                forall|j: int| 0 <= j < i ==> (#[trigger] out@[j]).key() == keys@[j],
            decreases keys@.len() - i,
        {
            out.push(ChunkLocation::of_key(keys[i]));
            i = i + 1;
        }
        proof {
            assert forall|a: int, b: int| 0 <= a < out@.len() && 0 <= b < out@.len() && a != b implies out@[a]
                != out@[b] by {
                assert(out@[a].key() == keys@[a]);
                assert(out@[b].key() == keys@[b]);
            }
            assert forall|l: ChunkLocation| out@.contains(l) <==> self.loaded_view().dom().contains(l.key()) by {
                if out@.contains(l) {
                    let j = choose|j: int| 0 <= j < out@.len() && out@[j] == l;
                    assert(keys@.contains(keys@[j]));
                }
                if self.loaded_view().dom().contains(l.key()) {
                    assert(keys@.contains(l.key()));
                    let j = choose|j: int| 0 <= j < keys@.len() && keys@[j] == l.key();
                    assert(out@[j].key() == l.key());
                    assert(out@[j] == l);
                }
            }
        }
        out
    }


    /// Sorts clients' chunk requests, in request order: those whose chunk is
    /// loaded, to be sent back at once, and those to be generated first.
    pub fn split_chunk_requests(&self, requests: &Vec<ChunkLocation>) -> (r: (Vec<ChunkLocation>, Vec<ChunkLocation>))
        ensures
            r.0@ == requests@.filter(|l: ChunkLocation| self.loaded_view().dom().contains(l.key())),
            r.1@ == requests@.filter(|l: ChunkLocation| !self.loaded_view().dom().contains(l.key())),
    {
        let ghost loaded = |l: ChunkLocation| self.loaded_view().dom().contains(l.key());
        let ghost missing = |l: ChunkLocation| !self.loaded_view().dom().contains(l.key());
        let mut send: Vec<ChunkLocation> = Vec::new();
        let mut generate: Vec<ChunkLocation> = Vec::new();
        let mut i: usize = 0;
        while i < requests.len()
            invariant
                i <= requests@.len(),
                loaded == (|l: ChunkLocation| self.loaded_view().dom().contains(l.key())),
                missing == (|l: ChunkLocation| !self.loaded_view().dom().contains(l.key())),
                send@ == requests@.subrange(0, i as int).filter(loaded),
                generate@ == requests@.subrange(0, i as int).filter(missing),
            decreases requests@.len() - i,
        {
            let loc = requests[i];
            proof {
                assert(requests@.subrange(0, i + 1) =~= requests@.subrange(0, i as int).push(loc));
                requests@.subrange(0, i as int).lemma_filter_push(loc, loaded);
                requests@.subrange(0, i as int).lemma_filter_push(loc, missing);
            }
            let k = loc.as_key();
            if self.loaded.contains_key(&k) {
                send.push(loc);
            } else {
                generate.push(loc);
            }
            i = i + 1;
        }
        proof {
            assert(requests@.subrange(0, requests@.len() as int) =~= requests@);
        }
        (send, generate)
    }
    /// Runs every request timer down by `delta` nanoseconds and drops those
    /// that run out.
    fn tick_requests(&mut self, delta: u64)
        ensures
            final(self).requested_view() == ticked(old(self).requested_view(), delta),
            final(self).loaded_view() == old(self).loaded_view(),
            final(self).spec_max_bakes() == old(self).spec_max_bakes(),
    {
        let ghost t0 = self.requested_view();
        let keys = self.recently_requested_gen.keys();
        let mut i: usize = 0;
        while i < keys.len()
            invariant
                i <= keys@.len(),
                keys@.no_duplicates(),
                forall|k: ChunkKey| keys@.contains(k) <==> t0.dom().contains(k),
                self.requested_view() == Map::new(
                    |k: ChunkKey| t0.dom().contains(k) && (!keys@.take(i as int).contains(k) || t0[k] > delta),
                    |k: ChunkKey| if keys@.take(i as int).contains(k) { (t0[k] - delta) as u64 } else { t0[k] },
                ),
                self.loaded_view() == old(self).loaded_view(),
                self.max_bakes_per_frame == old(self).max_bakes_per_frame,
            decreases keys@.len() - i,
        {
            let k = keys[i];
            proof {
                lemma_take_step(keys@, i as int);
                assert(keys@.contains(k));
            }
            let t = self.recently_requested_gen.remove(&k);
            match t {
                Some(t) => {
                    if t > delta {
                        self.recently_requested_gen.insert(k, t - delta);
                    }
                },
                None => {},
            }
            proof {
                let t1 = keys@.take(i + 1);
                assert(self.requested_view() =~= Map::new(
                    |kk: ChunkKey| t0.dom().contains(kk) && (!t1.contains(kk) || t0[kk] > delta),
                    |kk: ChunkKey| if t1.contains(kk) { (t0[kk] - delta) as u64 } else { t0[kk] },
                ));
            }
            i = i + 1;
        }
        proof {
            assert(keys@.take(keys@.len() as int) =~= keys@);
            assert(self.requested_view() =~= ticked(t0, delta));
        }
    }

    /// Loads a received chunk: settles its request, marks the meshes of its
    /// neighbours stale, and loads it unless a chunk is already loaded there.
    fn receive_chunk(&mut self, data: ChunkData)
        requires
            old(self).wf(),
            data.wf(),
            data.location.in_range(),
        ensures
            (final(self).loaded_view(), final(self).requested_view()) == after_receive(
                old(self).loaded_view(),
                old(self).requested_view(),
                data,
            ),
            final(self).wf(),
            final(self).spec_max_bakes() == old(self).spec_max_bakes(),
    {
        let ghost m0 = self.loaded_view();
        let loc = data.location;
        let k = loc.as_key();
        self.recently_requested_gen.remove(&k);
        let faces = FaceType::all();
        let mut j: usize = 0;
        while j < 6
            invariant
                j <= 6,
                faces@ == FaceType::spec_all(),
                loc.in_range(),
                self.loaded_view() == mark_neighbors(m0, loc, j as int),
                loaded_wf(self.loaded_view()),
                self.requested_view() == old(self).requested_view().remove(k),
                self.max_bakes_per_frame == old(self).max_bakes_per_frame,
            decreases 6 - j,
        {
            let ft = faces[j];
            let nk = loc.neighbor(ft).as_key();
            let ghost before = self.loaded_view();
            match self.loaded.remove(&nk) {
                Some(mut c) => {
                    c.set_dirty();
                    self.loaded.insert(nk, c);
                },
                None => {},
            }
            proof {
                assert(nk == face_neighbor_key(loc, FaceType::spec_all()[j as int]));
                assert forall|kk: ChunkKey| #[trigger] neighbor_upto(kk, loc, j + 1) <==> (neighbor_upto(
                    kk,
                    loc,
                    j as int,
                ) || kk == nk) by {
                    if neighbor_upto(kk, loc, j + 1) {
                        let w = choose|w: int| 0 <= w < j + 1 && kk == #[trigger] face_neighbor_key(
                            loc,
                            FaceType::spec_all()[w],
                        );
                        if w < j {
                            assert(neighbor_upto(kk, loc, j as int));
                        }
                    }
                    if neighbor_upto(kk, loc, j as int) {
                        let w = choose|w: int| 0 <= w < j && kk == #[trigger] face_neighbor_key(
                            loc,
                            FaceType::spec_all()[w],
                        );
                        assert(0 <= w < j + 1);
                    }
                }
                assert(self.loaded_view() =~= mark_neighbors(m0, loc, j + 1));
            }
            j = j + 1;
        }
        if !self.loaded.contains_key(&k) {
            self.loaded.insert(k, ClientChunk { data, bake: BakeState::DontBake, has_mesh: false });
        }
    }

    /// Brings every bake state up to date with the render distance around
    /// `center`, and lists the chunks whose meshes are to be freed.
    fn refresh_bake_states(&mut self, center: &ChunkLocation, render_dist: &RenderDistance) -> (r: Vec<
        ChunkLocation,
    >)
        requires
            old(self).wf(),
            center.in_range(),
        ensures
            final(self).loaded_view() == refreshed(old(self).loaded_view(), *center, *render_dist),
            final(self).requested_view() == old(self).requested_view(),
            final(self).spec_max_bakes() == old(self).spec_max_bakes(),
            final(self).wf(),
            r@.no_duplicates(),
            forall|l: ChunkLocation|
                r@.contains(l) <==> stale(old(self).loaded_view(), *center, *render_dist, l),
    {
        let ghost m0 = self.loaded_view();
        let ghost c0 = *center;
        let ghost rd = *render_dist;
        let keys = self.loaded.keys();
        let mut out: Vec<ChunkLocation> = Vec::new();
        let mut i: usize = 0;
        while i < keys.len()
            invariant
                i <= keys@.len(),
                keys@.no_duplicates(),
                forall|k: ChunkKey| keys@.contains(k) <==> m0.dom().contains(k),
                loaded_wf(m0),
                c0.in_range(),
                c0 == *center,
                rd == *render_dist,
                self.loaded_view() == Map::new(
                    |k: ChunkKey| m0.dom().contains(k),
                    |k: ChunkKey|
                        if keys@.take(i as int).contains(k) {
                            refreshed(m0, c0, rd)[k]
                        } else {
                            m0[k]
                        },
                ),
                out@.no_duplicates(),
                forall|l: ChunkLocation|
                    out@.contains(l) <==> (keys@.take(i as int).contains(l.key()) && stale(m0, c0, rd, l)),
                self.requested_view() == old(self).requested_view(),
                self.max_bakes_per_frame == old(self).max_bakes_per_frame,
            decreases keys@.len() - i,
        {
            let k = keys[i];
            proof {
                lemma_take_step(keys@, i as int);
                assert(keys@.contains(k));
                assert(!keys@.take(i as int).contains(k)) by {
                    lemma_no_dup_take(keys@, i as int);
                }
            }
            let loc = ChunkLocation::of_key(k);
            proof {
                crate::render_distance::lemma_in_range_fits(loc, c0, rd);
            }
            let in_rend = Self::in_render_distance_with(&loc, center, render_dist);
            let ghost out0 = out@;
            proof {
                assert(self.loaded_view().dom().contains(k));
                assert(!out0.contains(loc)) by {
                    if out0.contains(loc) {
                        assert(keys@.take(i as int).contains(loc.key()));
                    }
                }
            }
            match self.loaded.remove(&k) {
                Some(mut c) => {
                    let next = match (c.bake, in_rend) {
                        (BakeState::DontBake, true) => BakeState::NeedsBaking,
                        (BakeState::NeedsBaking, false) => BakeState::DontBake,
                        (BakeState::Baked, false) => BakeState::DontBake,
                        (s, _) => s,
                    };
                    if c.has_mesh && !in_rend {
                        out.push(loc);
                    }
                    c.bake = next;
                    c.has_mesh = c.has_mesh && in_rend;
                    self.loaded.insert(k, c);
                },
                None => {},
            }
            proof {
                let t1 = keys@.take(i + 1);
                assert(self.loaded_view() =~= Map::new(
                    |kk: ChunkKey| m0.dom().contains(kk),
                    |kk: ChunkKey| if t1.contains(kk) { refreshed(m0, c0, rd)[kk] } else { m0[kk] },
                ));
                assert forall|l: ChunkLocation| out@.contains(l) <==> (t1.contains(l.key()) && stale(m0, c0, rd, l)) by {
                    if out@.contains(l) && !out0.contains(l) {
                        assert(out@ == out0.push(loc));
                        assert(l == loc);
                    }
                    if out0.contains(l) {
                        let a = choose|a: int| 0 <= a < out0.len() && out0[a] == l;
                        assert(out@[a] == l);
                    }
                    if t1.contains(l.key()) && stale(m0, c0, rd, l) && l.key() == k {
                        assert(l == loc);
                        assert(out@ == out0.push(loc));
                        assert(out@[out0.len() as int] == l);
                    }
                }
                assert forall|kk: ChunkKey| #[trigger] self.loaded_view().dom().contains(kk) implies {
                    &&& self.loaded_view()[kk].data.wf()
                    &&& self.loaded_view()[kk].data.location.key() == kk
                    &&& ChunkLocation::from_key(kk).in_range()
                } by {
                    assert(m0.dom().contains(kk));
                }
            }
            i = i + 1;
        }
        proof {
            assert(keys@.take(keys@.len() as int) =~= keys@);
            assert(self.loaded_view() =~= refreshed(m0, c0, rd));
            assert forall|l: ChunkLocation| out@.contains(l) <==> stale(m0, c0, rd, l) by {
                if stale(m0, c0, rd, l) {
                    assert(keys@.contains(l.key()));
                }
            }
        }
        out
    }

    /// Picks up to the per-frame limit of chunks that need baking, in table
    /// order, and marks them baked.
    fn take_bake_batch(&mut self) -> (r: Vec<ChunkLocation>)
        requires
            old(self).wf(),
        ensures
            batch_ok(old(self).loaded_view(), r@, old(self).spec_max_bakes() as int),
            final(self).loaded_view() == marked_baked(old(self).loaded_view(), r@),
            final(self).requested_view() == old(self).requested_view(),
            final(self).spec_max_bakes() == old(self).spec_max_bakes(),
            final(self).wf(),
    {
        let ghost m0 = self.loaded_view();
        let keys = self.loaded.keys();
        let mut out: Vec<ChunkLocation> = Vec::new();
        let mut i: usize = 0;
        while i < keys.len() && out.len() < self.max_bakes_per_frame
            invariant
                i <= keys@.len(),
                keys@.no_duplicates(),
                forall|k: ChunkKey| keys@.contains(k) <==> m0.dom().contains(k),
                loaded_wf(m0),
                self.loaded_view() == marked_baked(m0, out@),
                out@.no_duplicates(),
                out@.len() <= self.max_bakes_per_frame,
                forall|a: int|
                    0 <= a < out@.len() ==> keys@.take(i as int).contains((#[trigger] out@[a]).key())
                        && m0.dom().contains(out@[a].key()) && m0[out@[a].key()].bake
                        == BakeState::NeedsBaking,
                forall|k: ChunkKey|
                    #[trigger] keys@.take(i as int).contains(k) && m0[k].bake == BakeState::NeedsBaking
                        ==> out@.contains(ChunkLocation::from_key(k)),
                self.requested_view() == old(self).requested_view(),
                self.max_bakes_per_frame == old(self).max_bakes_per_frame,
            decreases keys@.len() - i,
        {
            let k = keys[i];
            proof {
                lemma_take_step(keys@, i as int);
                assert(keys@.contains(k));
                assert(!keys@.take(i as int).contains(k)) by {
                    lemma_no_dup_take(keys@, i as int);
                }
            }
            let needs = match self.loaded.get(&k) {
                Some(c) => c.bake == BakeState::NeedsBaking,
                None => false,
            };
            let ghost out0 = out@;
            if needs {
                match self.loaded.remove(&k) {
                    Some(mut c) => {
                        c.bake = BakeState::Baked;
                        c.has_mesh = true;
                        self.loaded.insert(k, c);
                        out.push(ChunkLocation::of_key(k));
                    },
                    None => {},
                }
            }
            proof {
                let t1 = keys@.take(i + 1);
                let loc = ChunkLocation::from_key(k);
                assert(!out0.contains(loc)) by {
                    if out0.contains(loc) {
                        let a = choose|a: int| 0 <= a < out0.len() && out0[a] == loc;
                        assert(keys@.take(i as int).contains(out0[a].key()));
                    }
                }
                if needs {
                    assert(out@ == out0.push(loc));
                    assert forall|kk: ChunkKey| out@.contains(ChunkLocation::from_key(kk)) <==> (out0.contains(
                        ChunkLocation::from_key(kk),
                    ) || kk == k) by {
                        if kk == k {
                            assert(out@[out0.len() as int] == loc);
                        }
                        if out0.contains(ChunkLocation::from_key(kk)) {
                            let a = choose|a: int| 0 <= a < out0.len() && out0[a] == ChunkLocation::from_key(kk);
                            assert(out@[a] == ChunkLocation::from_key(kk));
                        }
                    }
                    assert(self.loaded_view() =~= marked_baked(m0, out@));
                }
                assert forall|a: int|
                    0 <= a < out@.len() implies t1.contains((#[trigger] out@[a]).key()) && m0.dom().contains(
                    out@[a].key(),
                ) && m0[out@[a].key()].bake == BakeState::NeedsBaking by {
                    if a < out0.len() {
                        assert(keys@.take(i as int).contains(out0[a].key()));
                    } else {
                        assert(t1[i as int] == k);
                    }
                }
                assert forall|kk: ChunkKey|
                    #[trigger] t1.contains(kk) && m0[kk].bake == BakeState::NeedsBaking implies out@.contains(
                    ChunkLocation::from_key(kk),
                ) by {
                    if kk != k {
                        assert(keys@.take(i as int).contains(kk));
                        assert(out0.contains(ChunkLocation::from_key(kk)));
                        let a = choose|a: int| 0 <= a < out0.len() && out0[a] == ChunkLocation::from_key(kk);
                        assert(out@[a] == ChunkLocation::from_key(kk));
                    } else {
                        assert(out@[out0.len() as int] == loc);
                    }
                }
                assert forall|kk: ChunkKey| #[trigger] self.loaded_view().dom().contains(kk) implies {
                    &&& self.loaded_view()[kk].data.wf()
                    &&& self.loaded_view()[kk].data.location.key() == kk
                    &&& ChunkLocation::from_key(kk).in_range()
                } by {
                    assert(m0.dom().contains(kk));
                }
            }
            i = i + 1;
        }
        proof {
            if out@.len() < self.max_bakes_per_frame {
                assert(keys@.take(keys@.len() as int) =~= keys@);
                assert forall|k: ChunkKey|
                    #[trigger] m0.dom().contains(k) && m0[k].bake == BakeState::NeedsBaking implies out@.contains(
                    ChunkLocation::from_key(k),
                ) by {
                    assert(keys@.contains(k));
                    assert(keys@.take(i as int).contains(k));
                }
            }
        }
        out
    }

    /// Asks for every chunk within the render distance that is neither loaded
    /// nor already asked for, in `x`, `z`, `y` order, and starts a timer for
    /// each request.
    fn request_missing(&mut self, center: &ChunkLocation, render_dist: &RenderDistance) -> (r: Vec<
        ChunkGenRequestEvent,
    >)
        requires
            center.in_range(),
        ensures
            requests_ok(
                request_locations(r@),
                *center,
                *render_dist,
                old(self).loaded_view().dom(),
                old(self).requested_view().dom(),
            ),
            final(self).requested_view() == with_requests(old(self).requested_view(), request_locations(r@)),
            final(self).loaded_view() == old(self).loaded_view(),
            final(self).spec_max_bakes() == old(self).spec_max_bakes(),
    {
        let ghost ld = self.loaded_view().dom();
        let ghost rq = self.requested_view().dom();
        let ghost t0 = self.requested_view();
        let ghost c0 = *center;
        let ghost rd = *render_dist;
        let locs = Self::renderable_locations_with(center, render_dist);
        let mut out: Vec<ChunkGenRequestEvent> = Vec::new();
        let mut i: usize = 0;
        while i < locs.len()
            invariant
                i <= locs@.len(),
                forall|a: int, b: int| 0 <= a < b < locs@.len() ==> xzy_before(#[trigger] locs@[a], #[trigger] locs@[b]),
                forall|l: ChunkLocation| locs@.contains(l) <==> rd.covers(l, c0),
                self.loaded_view().dom() == ld,
                self.requested_view().dom() == rq,
                forall|a: int, b: int|
                    0 <= a < b < out@.len() ==> xzy_before(#[trigger] out@[a].0, #[trigger] out@[b].0),
                forall|a: int|
                    0 <= a < out@.len() ==> exists|b: int| 0 <= b < i && (#[trigger] out@[a]).0 == locs@[b],
                forall|l: ChunkLocation|
                    request_locations(out@).contains(l) <==> (locs@.take(i as int).contains(l) && !ld.contains(l.key())
                        && !rq.contains(l.key())),
            decreases locs@.len() - i,
        {
            let l = locs[i];
            let k = l.as_key();
            let ghost out0 = out@;
            if !self.loaded.contains_key(&k) && !self.recently_requested_gen.contains_key(&k) {
                out.push(ChunkGenRequestEvent(l));
                proof {
                    assert forall|a: int, b: int| 0 <= a < b < out@.len() implies xzy_before(
                        #[trigger] out@[a].0,
                        #[trigger] out@[b].0,
                    ) by {
                        if b == out0.len() {
                            let w = choose|w: int| 0 <= w < i && out0[a].0 == locs@[w];
                            assert(xzy_before(locs@[w], locs@[i as int]));
                        } else {
                            assert(xzy_before(out0[a].0, out0[b].0));
                        }
                    }
                    assert forall|a: int| 0 <= a < out@.len() implies exists|b: int|
                        0 <= b < i + 1 && (#[trigger] out@[a]).0 == locs@[b] by {
                        if a == out0.len() {
                            assert(out@[a].0 == locs@[i as int]);
                        } else {
                            let w = choose|w: int| 0 <= w < i && out0[a].0 == locs@[w];
                            assert(out@[a].0 == locs@[w]);
                        }
                    }
                    assert(request_locations(out@) =~= request_locations(out0).push(l));
                }
            } else {
                proof {
                    assert forall|a: int| 0 <= a < out@.len() implies exists|b: int|
                        0 <= b < i + 1 && (#[trigger] out@[a]).0 == locs@[b] by {
                        let w = choose|w: int| 0 <= w < i && out0[a].0 == locs@[w];
                        assert(out@[a].0 == locs@[w]);
                    }
                }
            }
            proof {
                lemma_take_step(locs@, i as int);
                assert forall|ll: ChunkLocation|
                    request_locations(out@).contains(ll) <==> (locs@.take(i + 1).contains(ll) && !ld.contains(
                        ll.key(),
                    ) && !rq.contains(ll.key())) by {
                    if request_locations(out@).contains(ll) && !request_locations(out0).contains(ll) {
                        assert(request_locations(out@) =~= request_locations(out0).push(l));
                        assert(ll == l);
                    }
                    if request_locations(out0).contains(ll) {
                        let a = choose|a: int| 0 <= a < request_locations(out0).len() && request_locations(out0)[a] == ll;
                        assert(request_locations(out@)[a] == ll);
                    }
                    if locs@.take(i + 1).contains(ll) && !ld.contains(ll.key()) && !rq.contains(ll.key()) && ll == l {
                        assert(request_locations(out@)[out0.len() as int] == ll);
                    }
                }
            }
            i = i + 1;
        }
        proof {
            assert(locs@.take(locs@.len() as int) =~= locs@);
            let rl = request_locations(out@);
            assert forall|a: int, b: int| 0 <= a < b < rl.len() implies xzy_before(#[trigger] rl[a], #[trigger] rl[b]) by {
                assert(xzy_before(out@[a].0, out@[b].0));
            }
        }
        let mut j: usize = 0;
        while j < out.len()
            invariant
                j <= out@.len(),
                self.requested_view() == with_requests(t0, request_locations(out@).take(j as int)),
                self.loaded_view().dom() == ld,
                self.loaded_view() == old(self).loaded_view(),
                self.max_bakes_per_frame == old(self).max_bakes_per_frame,
            decreases out@.len() - j,
        {
            let k = out[j].0.as_key();
            self.recently_requested_gen.insert(k, REQ_TIMEOUT);
            proof {
                let rl = request_locations(out@);
                lemma_take_step(rl, j as int);
                assert(rl[j as int] == out@[j as int].0);
                assert(self.requested_view() =~= with_requests(t0, rl.take(j + 1)));
            }
            j = j + 1;
        }
        proof {
            assert(request_locations(out@).take(out@.len() as int) =~= request_locations(out@));
        }
        out
    }

    /// One frame of chunk management: run the request timers down by
    /// `delta_time` nanoseconds, load the received chunks in order, bring the
    /// bake states up to date with the render distance around `center`, pick
    /// the chunks to bake this frame, and ask for the missing chunks.
    pub fn update(
        &mut self,
        center: &ChunkLocation,
        delta_time: u64,
        received_chunks: Vec<ChunkGenEvent>,
        render_dist: &RenderDistance,
    ) -> (r: ChunkUpdate)
        requires
            old(self).wf(),
            center.in_range(),
            receivable(received_chunks@),
        ensures
            ({
                let t1 = ticked(old(self).requested_view(), delta_time);
                let after = receive_all(old(self).loaded_view(), t1, received_chunks@);
                let m3 = refreshed(after.0, *center, *render_dist);
                &&& r.unbaked@.no_duplicates()
                &&& forall|l: ChunkLocation|
                    r.unbaked@.contains(l) <==> stale(after.0, *center, *render_dist, l)
                &&& batch_ok(m3, r.baked@, old(self).spec_max_bakes() as int)
                &&& final(self).loaded_view() == marked_baked(m3, r.baked@)
                &&& requests_ok(
                    request_locations(r.requests@),
                    *center,
                    *render_dist,
                    after.0.dom(),
                    after.1.dom(),
                )
                &&& final(self).requested_view() == with_requests(after.1, request_locations(r.requests@))
            }),
            final(self).wf(),
            final(self).spec_max_bakes() == old(self).spec_max_bakes(),
    {
        let ghost orig = received_chunks@;
        let ghost m0 = self.loaded_view();
        self.tick_requests(delta_time);
        let ghost t1 = self.requested_view();
        let mut rest = received_chunks;
        let mut n: usize = 0;
        let total = rest.len();
        while rest.len() > 0
            invariant
                n + rest@.len() == orig.len(),
                total == orig.len(),
                rest@ == orig.skip(n as int),
                receivable(orig),
                self.wf(),
                (self.loaded_view(), self.requested_view()) == receive_all(m0, t1, orig.take(n as int)),
                self.max_bakes_per_frame == old(self).max_bakes_per_frame,
            decreases rest@.len(),
        {
            let evt = rest.remove(0);
            proof {
                assert(evt == orig[n as int]);
                assert(orig.take(n + 1).drop_last() =~= orig.take(n as int));
                assert(orig.take(n + 1).last() == orig[n as int]);
                assert(rest@ =~= orig.skip(n + 1));
                assert(orig[n as int].0.wf() && orig[n as int].0.location.in_range());
            }
            let ChunkGenEvent(data) = evt;
            self.receive_chunk(data);
            n = n + 1;
        }
        proof {
            assert(orig.take(n as int) =~= orig);
        }
        let ghost after = (self.loaded_view(), self.requested_view());
        let unbaked = self.refresh_bake_states(center, render_dist);
        let baked = self.take_bake_batch();
        let requests = self.request_missing(center, render_dist);
        ChunkUpdate { unbaked, baked, requests }
    }

    /// Unloads every chunk that no player's render distance covers, caching
    /// its blocks in `world_saver`, and lists the unloaded locations so that
    /// their meshes can be freed.
    pub fn unload_chunks(
        &mut self,
        players_info: &Vec<(ChunkLocation, RenderDistance)>,
        world_saver: &mut WorldSaver,
    ) -> (r: Vec<ChunkLocation>)
        requires
            old(self).wf(),
            players_in_range(players_info@),
        ensures
            final(self).loaded_view() == Map::new(
                |k: ChunkKey|
                    old(self).loaded_view().dom().contains(k) && covered_by_any(
                        players_info@,
                        ChunkLocation::from_key(k),
                    ),
                |k: ChunkKey| old(self).loaded_view()[k],
            ),
            r@.no_duplicates(),
            forall|l: ChunkLocation|
                r@.contains(l) <==> (old(self).loaded_view().dom().contains(l.key()) && !covered_by_any(
                    players_info@,
                    l,
                )),
            final(world_saver).cached().dom() == old(world_saver).cached().dom().union(
                Set::new(|k: ChunkKey| r@.contains(ChunkLocation::from_key(k))),
            ),
            forall|l: ChunkLocation|
                #[trigger] r@.contains(l) ==> final(world_saver).cached()[l.key()].1 == (ChunkSaveCache {
                    data: old(self).loaded_view()[l.key()].data,
                }),
            forall|k: ChunkKey|
                #[trigger] old(world_saver).cached().dom().contains(k) && !r@.contains(ChunkLocation::from_key(k))
                    ==> final(world_saver).cached()[k] == old(world_saver).cached()[k],
            final(world_saver).saved() == old(world_saver).saved(),
            final(self).requested_view() == old(self).requested_view(),
            final(self).spec_max_bakes() == old(self).spec_max_bakes(),
            final(self).wf(),
    {
        let ghost m0 = self.loaded_view();
        let ghost w0 = world_saver.cached();
        let ghost p = players_info@;
        let keys = self.loaded.keys();
        let mut out: Vec<ChunkLocation> = Vec::new();
        let mut i: usize = 0;
        while i < keys.len()
            invariant
                i <= keys@.len(),
                keys@.no_duplicates(),
                forall|k: ChunkKey| keys@.contains(k) <==> m0.dom().contains(k),
                loaded_wf(m0),
                p == players_info@,
                players_in_range(p),
                self.loaded_view() == Map::new(
                    |k: ChunkKey|
                        m0.dom().contains(k) && (!keys@.take(i as int).contains(k) || covered_by_any(
                            p,
                            ChunkLocation::from_key(k),
                        )),
                    |k: ChunkKey| m0[k],
                ),
                out@.no_duplicates(),
                forall|l: ChunkLocation|
                    #[trigger] out@.contains(l) <==> (keys@.take(i as int).contains(l.key()) && !covered_by_any(p, l)),
                world_saver.cached().dom() == w0.dom().union(
                    Set::new(|k: ChunkKey| out@.contains(ChunkLocation::from_key(k))),
                ),
                forall|l: ChunkLocation|
                    #[trigger] out@.contains(l) ==> world_saver.cached()[l.key()].1 == (ChunkSaveCache {
                        data: m0[l.key()].data,
                    }),
                forall|k: ChunkKey|
                    #[trigger] w0.dom().contains(k) && !out@.contains(ChunkLocation::from_key(k))
                        ==> world_saver.cached()[k] == w0[k],
                world_saver.saved() == old(world_saver).saved(),
                world_saver.spec_default_cache_time() == old(world_saver).spec_default_cache_time(),
                self.requested_view() == old(self).requested_view(),
                self.max_bakes_per_frame == old(self).max_bakes_per_frame,
            decreases keys@.len() - i,
        {
            let k = keys[i];
            proof {
                lemma_take_step(keys@, i as int);
                assert(keys@.contains(k));
                assert(!keys@.take(i as int).contains(k)) by {
                    lemma_no_dup_take(keys@, i as int);
                }
            }
            let loc = ChunkLocation::of_key(k);
            let covered = covered_by_any_player(players_info, &loc);
            let ghost out0 = out@;
            let ghost ws0 = world_saver.cached();
            proof {
                assert(self.loaded_view().dom().contains(k));
                assert(covered == covered_by_any(p, loc));
            }
            if !covered {
                match self.loaded.remove(&k) {
                    Some(c) => {
                        world_saver.cache(loc, c.data);
                        out.push(loc);
                    },
                    None => {},
                }
            }
            proof {
                let t1 = keys@.take(i + 1);
                assert(self.loaded_view() =~= Map::new(
                    |kk: ChunkKey| m0.dom().contains(kk) && (!t1.contains(kk) || covered_by_any(p, ChunkLocation::from_key(kk))),
                    |kk: ChunkKey| m0[kk],
                ));
                assert(!out0.contains(loc)) by {
                    if out0.contains(loc) {
                        assert(keys@.take(i as int).contains(loc.key()));
                    }
                }
                if !covered {
                    assert(out@ == out0.push(loc));
                    assert forall|kk: ChunkKey| out@.contains(ChunkLocation::from_key(kk)) <==> (out0.contains(
                        ChunkLocation::from_key(kk),
                    ) || kk == k) by {
                        if kk == k {
                            assert(out@[out0.len() as int] == loc);
                        }
                        if out0.contains(ChunkLocation::from_key(kk)) {
                            let a = choose|a: int| 0 <= a < out0.len() && out0[a] == ChunkLocation::from_key(kk);
                            assert(out@[a] == ChunkLocation::from_key(kk));
                        }
                    }
                    assert(world_saver.cached().dom() =~= w0.dom().union(
                        Set::new(|kk: ChunkKey| out@.contains(ChunkLocation::from_key(kk))),
                    ));
                    assert forall|l: ChunkLocation| #[trigger] out@.contains(l) implies world_saver.cached()[l.key()].1
                        == (ChunkSaveCache { data: m0[l.key()].data }) by {
                        if l != loc {
                            assert(out0.contains(l));
                            assert(ws0.remove(loc.key()).dom().contains(l.key()));
                            assert(world_saver.cached().remove(loc.key())[l.key()] == ws0.remove(loc.key())[l.key()]);
                        }
                    }
                    assert forall|kk: ChunkKey|
                        #[trigger] w0.dom().contains(kk) && !out@.contains(ChunkLocation::from_key(kk)) implies world_saver.cached()[kk]
                        == w0[kk] by {
                        assert(kk != k);
                        assert(!out0.contains(ChunkLocation::from_key(kk)));
                        assert(ws0.remove(loc.key()).dom().contains(kk));
                        assert(world_saver.cached().remove(loc.key())[kk] == ws0.remove(loc.key())[kk]);
                    }
                }
                assert(covered ==> out@ == out0);
                assert(!covered ==> out@ == out0.push(loc));
                lemma_listed_step(out0, out@, keys@, i as int, |l: ChunkLocation| !covered_by_any(p, l));
                assert forall|kk: ChunkKey| #[trigger] self.loaded_view().dom().contains(kk) implies {
                    &&& self.loaded_view()[kk].data.wf()
                    &&& self.loaded_view()[kk].data.location.key() == kk
                    &&& ChunkLocation::from_key(kk).in_range()
                } by {
                    assert(m0.dom().contains(kk));
                }
            }
            i = i + 1;
        }
        proof {
            assert(keys@.take(keys@.len() as int) =~= keys@);
            assert forall|l: ChunkLocation| out@.contains(l) <==> (m0.dom().contains(l.key()) && !covered_by_any(p, l)) by {
                if m0.dom().contains(l.key()) {
                    assert(keys@.contains(l.key()));
                    assert(keys@.take(i as int).contains(l.key()));
                }
                if out@.contains(l) {
                    assert(keys@.take(i as int).contains(l.key()));
                    assert(keys@.contains(l.key()));
                }
            }
            assert(self.loaded_view() =~= Map::new(
                |k: ChunkKey| m0.dom().contains(k) && covered_by_any(p, ChunkLocation::from_key(k)),
                |k: ChunkKey| m0[k],
            ));
        }
        out
    }

    /// Replaces the block at `block_loc` if its chunk is loaded, and hands
    /// back the block that was there. When the block changes, the chunk's mesh
    /// goes stale, and so does the mesh of every chunk holding a non-air block
    /// next to it.
    pub fn modify_block(&mut self, block_loc: &BlockLocation, new: Block) -> (r: Option<Block>)
        requires
            old(self).wf(),
            block_at(old(self).loaded_view(), *block_loc) matches Some(b) && b != new ==> block_loc.not_at_edge(),
        ensures
            r == block_at(old(self).loaded_view(), *block_loc),
            (r is None || r == Some(new)) ==> final(self).loaded_view() == old(self).loaded_view(),
            (r is Some && r != Some(new)) ==> modified(
                old(self).loaded_view(),
                final(self).loaded_view(),
                *block_loc,
                new,
            ),
            final(self).requested_view() == old(self).requested_view(),
            final(self).spec_max_bakes() == old(self).spec_max_bakes(),
            final(self).wf(),
    {
        let ghost m0 = self.loaded_view();
        let (loc, pos) = block_loc.as_chunk_parts();
        let k = loc.as_key();
        let mut c = match self.loaded.remove(&k) {
            Some(c) => c,
            None => {
                return None;
            },
        };
        let prev = *c.data.get_block(pos);
        if prev == new {
            self.loaded.insert(k, c);
            proof {
                assert(self.loaded_view() =~= m0);
            }
            return Some(prev);
        }
        proof {
            crate::geometry::lemma_chunk_parts_round_trip(*block_loc);
            assert(block_at(m0, *block_loc) == Some(prev));
        }
        c.data.set_block(pos, new);
        c.set_dirty();
        self.loaded.insert(k, c);
        let ghost m1 = self.loaded_view();
        let ghost b = *block_loc;
        let faces = FaceType::all();
        let mut j: usize = 0;
        while j < 6
            invariant
                j <= 6,
                faces@ == FaceType::spec_all(),
                b == *block_loc,
                b.not_at_edge(),
                k == parts_of(b).0,
                m1.dom() == m0.dom(),
                loaded_wf(m1),
                loaded_wf(m0),
                m1[k].bake == dirtied(m0[k].bake),
                m1[k].has_mesh == m0[k].has_mesh,
                forall|kk: ChunkKey| #[trigger] m0.dom().contains(kk) && kk != k ==> m1[kk] == m0[kk],
                forall|kk: ChunkKey| #[trigger] m0.dom().contains(kk) ==> self.loaded_view()[kk].has_mesh == m0[kk].has_mesh,
                self.loaded_view().dom() == m0.dom(),
                forall|kk: ChunkKey|
                    #[trigger] m0.dom().contains(kk) ==> self.loaded_view()[kk].data == m1[kk].data
                        && self.loaded_view()[kk].bake == (if kk == k || exists|w: int|
                        0 <= w < j && #[trigger] marks_through(kk, b, w, m1[kk].data.blocks@) {
                        dirtied(m0[kk].bake)
                    } else {
                        m0[kk].bake
                    }),
                self.requested_view() == old(self).requested_view(),
                self.max_bakes_per_frame == old(self).max_bakes_per_frame,
            decreases 6 - j,
        {
            let nb = block_loc.neighbor(faces[j]);
            let (nl, np) = nb.as_chunk_parts();
            let nk = nl.as_key();
            let ghost before = self.loaded_view();
            let hit = match self.loaded.get(&nk) {
                Some(nc) => !nc.data.get_block(np).is_air(),
                None => false,
            };
            if hit {
                match self.loaded.remove(&nk) {
                    Some(mut nc) => {
                        nc.set_dirty();
                        self.loaded.insert(nk, nc);
                    },
                    None => {},
                }
            }
            proof {
                assert(nb == b.spec_neighbor(FaceType::spec_all()[j as int]));
                assert forall|kk: ChunkKey| #[trigger] m0.dom().contains(kk) implies self.loaded_view()[kk].data
                    == m1[kk].data && self.loaded_view()[kk].bake == (if kk == k || exists|w: int|
                    0 <= w < j + 1 && #[trigger] marks_through(kk, b, w, m1[kk].data.blocks@) {
                    dirtied(m0[kk].bake)
                } else {
                    m0[kk].bake
                }) by {
                    let old_marked = kk == k || exists|w: int|
                        0 <= w < j && #[trigger] marks_through(kk, b, w, m1[kk].data.blocks@);
                    let new_marked = kk == k || exists|w: int|
                        0 <= w < j + 1 && #[trigger] marks_through(kk, b, w, m1[kk].data.blocks@);
                    if kk == nk && hit {
                        assert(marks_through(kk, b, j as int, m1[kk].data.blocks@));
                        assert(new_marked);
                    } else {
                        if new_marked && !old_marked {
                            assert(marks_through(kk, b, j as int, m1[kk].data.blocks@));
                            assert(kk == nk);
                            assert(before[nk].data == m1[nk].data);
                            assert(false);
                        }
                        if old_marked {
                            if kk != k {
                                let w = choose|w: int| 0 <= w < j && #[trigger] marks_through(kk, b, w, m1[kk].data.blocks@);
                                assert(0 <= w < j + 1 && marks_through(kk, b, w, m1[kk].data.blocks@));
                            }
                        }
                    }
                }
                assert forall|kk: ChunkKey| #[trigger] m0.dom().contains(kk) implies self.loaded_view()[kk].has_mesh
                    == m0[kk].has_mesh by {
                    assert(before[kk].has_mesh == m0[kk].has_mesh);
                }
                assert forall|kk: ChunkKey| #[trigger] self.loaded_view().dom().contains(kk) implies {
                    &&& self.loaded_view()[kk].data.wf()
                    &&& self.loaded_view()[kk].data.location.key() == kk
                    &&& ChunkLocation::from_key(kk).in_range()
                } by {
                    assert(m0.dom().contains(kk));
                    assert(m1.dom().contains(kk));
                }
            }
            j = j + 1;
        }
        proof {
            assert forall|kk: ChunkKey| #[trigger] m0.dom().contains(kk) implies {
                &&& self.loaded_view()[kk].has_mesh == m0[kk].has_mesh
                &&& self.loaded_view()[kk].data.location == m0[kk].data.location
                &&& self.loaded_view()[kk].data.blocks@ == (if kk == parts_of(b).0 {
                    m0[kk].data.blocks@.update(parts_of(b).1.0 as int, new)
                } else {
                    m0[kk].data.blocks@
                })
                &&& self.loaded_view()[kk].bake == (if kk == parts_of(b).0 || exists|w: int|
                    0 <= w < 6 && #[trigger] marks_through(
                        kk,
                        b,
                        w,
                        self.loaded_view()[kk].data.blocks@,
                    ) {
                    dirtied(m0[kk].bake)
                } else {
                    m0[kk].bake
                })
            } by {
                assert(self.loaded_view()[kk].data == m1[kk].data);
            }
        }
        Some(prev)
    }
}

/// Every chunk of `m` holds a full set of blocks, is stored under its own
/// location, and lies where block coordinates fit in `i32`; a chunk marked
/// baked holds a mesh.
pub open spec fn loaded_wf(m: Map<ChunkKey, ClientChunk>) -> bool {
    forall|k: ChunkKey|
        #[trigger] m.dom().contains(k) ==> {
            &&& m[k].data.wf()
            &&& m[k].data.location.key() == k
            &&& ChunkLocation::from_key(k).in_range()
            &&& (m[k].bake == BakeState::Baked ==> m[k].has_mesh)
        }
}

/// The request timers after `delta` nanoseconds: each runs down by `delta`,
/// and those that run out are dropped.
pub open spec fn ticked(t: Map<ChunkKey, u64>, delta: u64) -> Map<ChunkKey, u64> {
    Map::new(|k: ChunkKey| t.dom().contains(k) && t[k] > delta, |k: ChunkKey| (t[k] - delta) as u64)
}

/// Key of the chunk next to `loc` across face `ft`.
pub open spec fn face_neighbor_key(loc: ChunkLocation, ft: FaceType) -> ChunkKey {
    loc.spec_neighbor(ft).key()
}

/// Whether `k` is the neighbour of `loc` across one of the first `n` faces
/// of `FaceType::all()`.
pub open spec fn neighbor_upto(k: ChunkKey, loc: ChunkLocation, n: int) -> bool {
    exists|j: int| 0 <= j < n && k == #[trigger] face_neighbor_key(loc, FaceType::spec_all()[j])
}

/// Whether `k` is the key of one of the six chunks sharing a face with `loc`.
pub open spec fn is_face_neighbor(k: ChunkKey, loc: ChunkLocation) -> bool {
    neighbor_upto(k, loc, 6)
}

/// `m` with the chunks next to `loc` (across the first `n` faces) marked dirty.
pub open spec fn mark_neighbors(m: Map<ChunkKey, ClientChunk>, loc: ChunkLocation, n: int) -> Map<
    ChunkKey,
    ClientChunk,
> {
    Map::new(
        |k: ChunkKey| m.dom().contains(k),
        |k: ChunkKey|
            if neighbor_upto(k, loc, n) {
                ClientChunk { data: m[k].data, bake: dirtied(m[k].bake), has_mesh: m[k].has_mesh }
            } else {
                m[k]
            },
    )
}

/// Loaded chunks and request timers after receiving chunk `c`: its request is
/// settled, its neighbours' meshes go stale, and it is loaded unless a chunk
/// is already loaded at its location.
pub open spec fn after_receive(
    m: Map<ChunkKey, ClientChunk>,
    t: Map<ChunkKey, u64>,
    c: ChunkData,
) -> (Map<ChunkKey, ClientChunk>, Map<ChunkKey, u64>) {
    let k = c.location.key();
    let m1 = mark_neighbors(m, c.location, 6);
    (
        if m1.dom().contains(k) {
            m1
        } else {
            m1.insert(k, ClientChunk { data: c, bake: BakeState::DontBake, has_mesh: false })
        },
        t.remove(k),
    )
}

/// Loaded chunks and request timers after receiving the chunks of `s` in order.
pub open spec fn receive_all(
    m: Map<ChunkKey, ClientChunk>,
    t: Map<ChunkKey, u64>,
    s: Seq<ChunkGenEvent>,
) -> (Map<ChunkKey, ClientChunk>, Map<ChunkKey, u64>)
    decreases s.len(),
{
    if s.len() == 0 {
        (m, t)
    } else {
        let prev = receive_all(m, t, s.drop_last());
        after_receive(prev.0, prev.1, s.last().0)
    }
}

/// Whether every chunk of `s` may be loaded: full, and where block
/// coordinates fit in `i32`.
pub open spec fn receivable(s: Seq<ChunkGenEvent>) -> bool {
    forall|i: int| 0 <= i < s.len() ==> (#[trigger] s[i]).0.wf() && s[i].0.location.in_range()
}

/// The bake state of a chunk once it is known whether it is in render distance.
pub open spec fn bake_transition(s: BakeState, in_rend: bool) -> BakeState {
    match (s, in_rend) {
        (BakeState::DontBake, true) => BakeState::NeedsBaking,
        (BakeState::NeedsBaking, false) => BakeState::DontBake,
        (BakeState::Baked, false) => BakeState::DontBake,
        _ => s,
    }
}

/// `m` with every bake state brought up to date with the render distance.
pub open spec fn refreshed(m: Map<ChunkKey, ClientChunk>, center: ChunkLocation, rd: RenderDistance) -> Map<
    ChunkKey,
    ClientChunk,
> {
    Map::new(
        |k: ChunkKey| m.dom().contains(k),
        |k: ChunkKey|
            ClientChunk {
                data: m[k].data,
                bake: bake_transition(m[k].bake, rd.covers(ChunkLocation::from_key(k), center)),
                has_mesh: m[k].has_mesh && rd.covers(ChunkLocation::from_key(k), center),
            },
    )
}

/// Whether the chunk at `l` holds a mesh, current or stale, but left the
/// render distance.
pub open spec fn stale(m: Map<ChunkKey, ClientChunk>, center: ChunkLocation, rd: RenderDistance, l: ChunkLocation) -> bool {
    m.dom().contains(l.key()) && m[l.key()].has_mesh && !rd.covers(l, center)
}

/// Whether `batch` is a choice of chunks to bake from `m`: distinct chunks
/// that need baking, at most `max` of them, and all such chunks when fewer
/// than `max` were chosen.
pub open spec fn batch_ok(m: Map<ChunkKey, ClientChunk>, batch: Seq<ChunkLocation>, max: int) -> bool {
    &&& batch.no_duplicates()
    &&& batch.len() <= max
    &&& forall|i: int|
        0 <= i < batch.len() ==> m.dom().contains((#[trigger] batch[i]).key()) && m[batch[i].key()].bake
            == BakeState::NeedsBaking
    &&& batch.len() < max ==> forall|k: ChunkKey|
        #[trigger] m.dom().contains(k) && m[k].bake == BakeState::NeedsBaking ==> batch.contains(
            ChunkLocation::from_key(k),
        )
}

/// `m` with the chunks of `batch` marked baked.
pub open spec fn marked_baked(m: Map<ChunkKey, ClientChunk>, batch: Seq<ChunkLocation>) -> Map<
    ChunkKey,
    ClientChunk,
> {
    Map::new(
        |k: ChunkKey| m.dom().contains(k),
        |k: ChunkKey|
            if batch.contains(ChunkLocation::from_key(k)) {
                ClientChunk { data: m[k].data, bake: BakeState::Baked, has_mesh: true }
            } else {
                m[k]
            },
    )
}

/// The locations asked for by a list of requests.
pub open spec fn request_locations(r: Seq<ChunkGenRequestEvent>) -> Seq<ChunkLocation> {
    r.map_values(|e: ChunkGenRequestEvent| e.0)
}

/// Whether `r` lists, in `x`, `z`, `y` order, exactly the locations within
/// the render distance that are neither loaded nor already requested.
pub open spec fn requests_ok(
    r: Seq<ChunkLocation>,
    center: ChunkLocation,
    rd: RenderDistance,
    loaded: Set<ChunkKey>,
    requested: Set<ChunkKey>,
) -> bool {
    &&& forall|i: int, j: int| 0 <= i < j < r.len() ==> xzy_before(#[trigger] r[i], #[trigger] r[j])
    &&& forall|l: ChunkLocation|
        r.contains(l) <==> (rd.covers(l, center) && !loaded.contains(l.key()) && !requested.contains(
            l.key(),
        ))
}

/// Request timers with a fresh timeout for each location of `r`.
pub open spec fn with_requests(t: Map<ChunkKey, u64>, r: Seq<ChunkLocation>) -> Map<ChunkKey, u64> {
    Map::new(
        |k: ChunkKey| t.dom().contains(k) || r.contains(ChunkLocation::from_key(k)),
        |k: ChunkKey|
            if r.contains(ChunkLocation::from_key(k)) {
                REQ_TIMEOUT
            } else {
                t[k]
            },
    )
}

/// Whether some player's render distance covers `l`.
pub open spec fn covered_by_any(players: Seq<(ChunkLocation, RenderDistance)>, l: ChunkLocation) -> bool {
    exists|i: int| 0 <= i < players.len() && (#[trigger] players[i]).1.covers(l, players[i].0)
}

/// Whether every player stands where block coordinates fit in `i32`.
pub open spec fn players_in_range(players: Seq<(ChunkLocation, RenderDistance)>) -> bool {
    forall|i: int| 0 <= i < players.len() ==> (#[trigger] players[i]).0.in_range()
}

/// The key of the chunk holding block `b`, and the block's position in it.
pub open spec fn parts_of(b: BlockLocation) -> (ChunkKey, ChunkPos) {
    (b.spec_chunk_parts().0.key(), b.spec_chunk_parts().1)
}

/// The block at `b` among the loaded chunks `m`, if its chunk is loaded.
pub open spec fn block_at(m: Map<ChunkKey, ClientChunk>, b: BlockLocation) -> Option<Block> {
    let (k, p) = parts_of(b);
    if m.dom().contains(k) {
        Some(m[k].data.blocks@[p.0 as int])
    } else {
        None
    }
}

/// Whether replacing block `b` marks chunk `k` dirty through the neighbour of
/// `b` across face `j`: that neighbour lies in `k` and is not air once `b`
/// is replaced (`blocks` are the blocks of `k` at that point).
pub open spec fn marks_through(k: ChunkKey, b: BlockLocation, j: int, blocks: Seq<Block>) -> bool {
    let n = b.spec_neighbor(FaceType::spec_all()[j]);
    parts_of(n).0 == k && blocks[parts_of(n).1.0 as int] != Block::Air
}

/// Whether `m2` is `m` after replacing block `b` with `new`: the block changes
/// in its chunk, that chunk's mesh goes stale, and so does the mesh of every
/// chunk holding a non-air block next to `b`.
pub open spec fn modified(
    m: Map<ChunkKey, ClientChunk>,
    m2: Map<ChunkKey, ClientChunk>,
    b: BlockLocation,
    new: Block,
) -> bool {
    let (pk, p) = parts_of(b);
    &&& m2.dom() == m.dom()
    &&& forall|k: ChunkKey|
        #[trigger] m.dom().contains(k) ==> {
            &&& m2[k].data.location == m[k].data.location
            &&& m2[k].data.blocks@ == (if k == pk {
                m[k].data.blocks@.update(p.0 as int, new)
            } else {
                m[k].data.blocks@
            })
            &&& m2[k].has_mesh == m[k].has_mesh
            &&& m2[k].bake == (if k == pk || exists|w: int|
                0 <= w < 6 && #[trigger] marks_through(k, b, w, m2[k].data.blocks@) {
                dirtied(m[k].bake)
            } else {
                m[k].bake
            })
        }
}

/// Reading a block after replacing it in a loaded chunk gives the new block,
/// and every other block reads as it did before.
pub proof fn lemma_modified_block_reads_back(
    m: Map<ChunkKey, ClientChunk>,
    m2: Map<ChunkKey, ClientChunk>,
    b: BlockLocation,
    new: Block,
    other: BlockLocation,
)
    requires
        loaded_wf(m),
        m.dom().contains(parts_of(b).0),
        modified(m, m2, b, new),
    ensures
        block_at(m2, b) == Some(new),
        other != b ==> block_at(m2, other) == block_at(m, other),
{
    let (k, p) = parts_of(b);
    let (k2, p2) = parts_of(other);
    crate::geometry::lemma_chunk_parts_round_trip(b);
    crate::geometry::lemma_chunk_parts_round_trip(other);
    assert(m[k].data.wf());
    if other != b && k2 == k && m.dom().contains(k2) {
        assert(b.spec_chunk_parts().0 == other.spec_chunk_parts().0);
        if p2 == p {
            assert(b.spec_chunk_parts() == other.spec_chunk_parts());
        }
    }
}

/// After an update, bake states agree with the render distance: a loaded
/// chunk inside it is waiting for a mesh or baked, one outside it is left
/// unbaked and holds no mesh, and a baked chunk holds a mesh. Here `after`
/// are the loaded chunks once received, and `batch` the chunks picked for
/// baking, as `update` states them.
pub proof fn lemma_update_bake_states(
    after: Map<ChunkKey, ClientChunk>,
    center: ChunkLocation,
    rd: RenderDistance,
    batch: Seq<ChunkLocation>,
    max: int,
    k: ChunkKey,
)
    requires
        loaded_wf(after),
        batch_ok(refreshed(after, center, rd), batch, max),
        marked_baked(refreshed(after, center, rd), batch).dom().contains(k),
    ensures
        ({
            let m = marked_baked(refreshed(after, center, rd), batch);
            &&& rd.covers(ChunkLocation::from_key(k), center) ==> m[k].bake != BakeState::DontBake
            &&& !rd.covers(ChunkLocation::from_key(k), center) ==> m[k].bake == BakeState::DontBake
                && !m[k].has_mesh
            &&& m[k].bake == BakeState::Baked ==> m[k].has_mesh
        }),
{
    let m3 = refreshed(after, center, rd);
    let l = ChunkLocation::from_key(k);
    if batch.contains(l) {
        let i = choose|i: int| 0 <= i < batch.len() && batch[i] == l;
        assert(m3[batch[i].key()].bake == BakeState::NeedsBaking);
        assert(l.key() == k);
    }
}

/// Receiving chunks only settles requests: a timer survives exactly when it
/// was running and no received chunk lies at its location.
pub proof fn lemma_receive_keeps_timers(
    m: Map<ChunkKey, ClientChunk>,
    t: Map<ChunkKey, u64>,
    s: Seq<ChunkGenEvent>,
    k: ChunkKey,
)
    ensures
        receive_all(m, t, s).1.dom().contains(k) <==> (t.dom().contains(k) && forall|i: int|
            0 <= i < s.len() ==> (#[trigger] s[i]).0.location.key() != k),
    decreases s.len(),
{
    if s.len() > 0 {
        lemma_receive_keeps_timers(m, t, s.drop_last(), k);
        assert forall|i: int| 0 <= i < s.len() - 1 implies (#[trigger] s.drop_last()[i]) == s[i] by {}
        if t.dom().contains(k) && forall|i: int| 0 <= i < s.len() ==> (#[trigger] s[i]).0.location.key() != k {
            assert forall|i: int| 0 <= i < s.drop_last().len() implies (#[trigger] s.drop_last()[i]).0.location.key()
                != k by {
                assert(s.drop_last()[i] == s[i]);
            }
        }
        if !(forall|i: int| 0 <= i < s.len() ==> (#[trigger] s[i]).0.location.key() != k) {
            let i = choose|i: int| 0 <= i < s.len() && (#[trigger] s[i]).0.location.key() == k;
            if i < s.len() - 1 {
                assert(s.drop_last()[i] == s[i]);
            }
        }
    }
}

/// A chunk asked for is not asked for again before its request times out:
/// in the next update, after `delta` nanoseconds shorter than the timeout and
/// with no chunk received at its location, it is not requested.
pub proof fn lemma_request_not_repeated(
    m: Map<ChunkKey, ClientChunk>,
    timers: Map<ChunkKey, u64>,
    requested: Seq<ChunkLocation>,
    l: ChunkLocation,
    delta: u64,
    received: Seq<ChunkGenEvent>,
    next: Seq<ChunkLocation>,
    center: ChunkLocation,
    rd: RenderDistance,
)
    requires
        requested.contains(l),
        delta < REQ_TIMEOUT,
        forall|i: int| 0 <= i < received.len() ==> (#[trigger] received[i]).0.location.key() != l.key(),
        ({
            let after = receive_all(m, ticked(with_requests(timers, requested), delta), received);
            requests_ok(next, center, rd, after.0.dom(), after.1.dom())
        }),
    ensures
        !next.contains(l),
{
    let t = with_requests(timers, requested);
    assert(ChunkLocation::from_key(l.key()) == l);
    assert(t.dom().contains(l.key()) && t[l.key()] == REQ_TIMEOUT);
    assert(ticked(t, delta).dom().contains(l.key()));
    lemma_receive_keeps_timers(m, ticked(t, delta), received, l.key());
}

/// Once a request's timer has run out, the chunk is asked for again if it
/// is still not loaded and lies in the render distance.
pub proof fn lemma_request_repeated_after_timeout(
    m: Map<ChunkKey, ClientChunk>,
    timers: Map<ChunkKey, u64>,
    l: ChunkLocation,
    delta: u64,
    received: Seq<ChunkGenEvent>,
    next: Seq<ChunkLocation>,
    center: ChunkLocation,
    rd: RenderDistance,
)
    requires
        timers.dom().contains(l.key()) ==> timers[l.key()] <= delta,
        rd.covers(l, center),
        ({
            let after = receive_all(m, ticked(timers, delta), received);
            &&& !after.0.dom().contains(l.key())
            &&& requests_ok(next, center, rd, after.0.dom(), after.1.dom())
        }),
    ensures
        next.contains(l),
{
    assert(!ticked(timers, delta).dom().contains(l.key()));
    lemma_receive_keeps_timers(m, ticked(timers, delta), received, l.key());
}

/// Whether some player's render distance covers `loc`.
fn covered_by_any_player(players: &Vec<(ChunkLocation, RenderDistance)>, loc: &ChunkLocation) -> (b: bool)
    requires
        players_in_range(players@),
        loc.in_range(),
    ensures
        b == covered_by_any(players@, *loc),
{
    let mut i: usize = 0;
    while i < players.len()
        invariant
            i <= players@.len(),
            players_in_range(players@),
            loc.in_range(),
            forall|j: int| 0 <= j < i ==> !(#[trigger] players@[j]).1.covers(*loc, players@[j].0),
        decreases players@.len() - i,
    {
        let (center, rd) = players[i];
        proof {
            assert(players@[i as int].0.in_range());
            crate::render_distance::lemma_in_range_fits(*loc, center, rd);
        }
        if ChunkManager::in_render_distance_with(loc, &center, &rd) {
            return true;
        }
        i = i + 1;
    }
    false
}

/// Extending a list of the locations, among the first `i` keys, that satisfy
/// `pred`, by the `i`-th key when it satisfies `pred`.
pub proof fn lemma_listed_step(
    out0: Seq<ChunkLocation>,
    out1: Seq<ChunkLocation>,
    keys: Seq<ChunkKey>,
    i: int,
    pred: spec_fn(ChunkLocation) -> bool,
)
    requires
        0 <= i < keys.len(),
        forall|l: ChunkLocation| out0.contains(l) <==> (keys.take(i).contains(l.key()) && pred(l)),
        out1 == (if pred(ChunkLocation::from_key(keys[i])) {
            out0.push(ChunkLocation::from_key(keys[i]))
        } else {
            out0
        }),
    ensures
        forall|l: ChunkLocation| out1.contains(l) <==> (keys.take(i + 1).contains(l.key()) && pred(l)),
{
    lemma_take_step(keys, i);
    let loc = ChunkLocation::from_key(keys[i]);
    assert forall|l: ChunkLocation| out1.contains(l) <==> (keys.take(i + 1).contains(l.key()) && pred(l)) by {
        if out1.contains(l) {
            let a = choose|a: int| 0 <= a < out1.len() && out1[a] == l;
            if a < out0.len() {
                assert(out0[a] == l);
                assert(out0.contains(l));
            } else {
                assert(l == loc);
            }
        }
        if keys.take(i + 1).contains(l.key()) && pred(l) {
            if l.key() == keys[i] {
                assert(l == loc);
                assert(out1[out1.len() - 1] == l);
            } else {
                assert(keys.take(i).contains(l.key()));
                assert(out0.contains(l));
                let a = choose|a: int| 0 <= a < out0.len() && out0[a] == l;
                assert(out1[a] == l);
            }
        }
    }
}

/// Taking one more element of a sequence adds exactly that element.
pub proof fn lemma_take_step<A>(s: Seq<A>, i: int)
    requires
        0 <= i < s.len(),
    ensures
        s.take(i + 1) == s.take(i).push(s[i]),
        forall|x: A| s.take(i + 1).contains(x) <==> (s.take(i).contains(x) || x == s[i]),
{
    assert(s.take(i + 1) =~= s.take(i).push(s[i]));
    assert forall|x: A| s.take(i + 1).contains(x) <==> (s.take(i).contains(x) || x == s[i]) by {
        if s.take(i + 1).contains(x) {
            let j = choose|j: int| 0 <= j < i + 1 && #[trigger] s.take(i + 1)[j] == x;
            if j < i {
                assert(s.take(i)[j] == x);
            }
        }
        if s.take(i).contains(x) {
            let j = choose|j: int| 0 <= j < i && #[trigger] s.take(i)[j] == x;
            assert(s.take(i + 1)[j] == x);
        }
        if x == s[i] {
            assert(s.take(i + 1)[i] == x);
        }
    }
}

/// In a sequence without duplicates, an element does not occur before its position.
pub proof fn lemma_no_dup_take<A>(s: Seq<A>, i: int)
    requires
        0 <= i < s.len(),
        s.no_duplicates(),
    ensures
        !s.take(i).contains(s[i]),
{
    if s.take(i).contains(s[i]) {
        let j = choose|j: int| 0 <= j < i && #[trigger] s.take(i)[j] == s[i];
        assert(s[j] == s[i]);
    }
}

} // verus!
