use engine::chunk::{BakeState, Block, ChunkData, ClientChunk};
use engine::chunk_manager::ChunkManager;
use engine::chunk_mesh::ChunkMeshContext;
use engine::events::{ChunkGenEvent, ChunkGenRequestEvent, ClientChunkRequest};
use engine::geometry::{BlockLocation, ChunkLocation, ChunkPos, FaceType};
use engine::render_distance::RenderDistance;
use engine::save::{SaveLookup, WorldSaver};
use engine::structure::Structure;

fn loc(x: i32, y: i32, z: i32) -> ChunkLocation {
    ChunkLocation { x, y, z }
}

fn chunk_with(location: ChunkLocation, blocks: &[(u8, u8, u8, Block)]) -> ChunkData {
    let mut c = ChunkData::empty(location);
    for &(x, y, z, b) in blocks {
        c.set_block(ChunkPos::new(x, y, z).unwrap(), b);
    }
    c
}

#[test]
fn test_chunk_offset_into_chunk_vec() {
    let render = (5, 3, 2);
    let offset = (3 - 6, 9 - 7, -1 - 0);
    let norm_offset = (offset.0 + render.0, offset.1 + render.1, offset.2 + render.2);
    assert!(norm_offset.0 >= 0 && norm_offset.1 >= 0 && norm_offset.2 >= 0);
    assert_eq!(norm_offset, (2, 5, 1));
    assert!(ChunkManager::in_render_distance_with(&loc(3, 9, -1), &loc(6, 7, 0), &RenderDistance(5, 3, 2)));
}

#[test]
fn render_distance_bounds() {
    let rd = RenderDistance(2, 1, 3);
    let c = loc(0, 0, 0);
    assert!(ChunkManager::in_render_distance_with(&loc(2, -1, 3), &c, &rd));
    assert!(ChunkManager::in_render_distance_with(&loc(-2, 1, -3), &c, &rd));
    assert!(!ChunkManager::in_render_distance_with(&loc(3, 0, 0), &c, &rd));
    assert!(!ChunkManager::in_render_distance_with(&loc(0, 2, 0), &c, &rd));
    assert!(!ChunkManager::in_render_distance_with(&loc(0, 0, -4), &c, &rd));
    assert_eq!(rd.total_chunks(), 5 * 3 * 7);
}

#[test]
fn renderable_locations_order_and_extent() {
    let rd = RenderDistance(1, 1, 1);
    let c = loc(10, -5, 7);
    let locs = ChunkManager::renderable_locations_with(&c, &rd);
    assert_eq!(locs.len(), 27);
    assert_eq!(locs[0], loc(9, -6, 6));
    assert_eq!(locs[1], loc(9, -5, 6));
    assert_eq!(locs[3], loc(9, -6, 7));
    assert_eq!(locs[26], loc(11, -4, 8));
    for w in locs.windows(2) {
        let (a, b) = (w[0], w[1]);
        assert!((a.x, a.z, a.y) < (b.x, b.z, b.y));
    }
    for l in &locs {
        assert!(ChunkManager::in_render_distance_with(l, &c, &rd));
    }
    let flat = ChunkManager::renderable_locations_with(&loc(0, 0, 0), &RenderDistance(0, 0, 0));
    assert_eq!(flat, vec![loc(0, 0, 0)]);
}

#[test]
fn chunk_parts_round_trip() {
    for &(x, y, z) in &[(0, 0, 0), (31, 32, -1), (-33, -32, 65), (i32::MAX, i32::MIN, 5)] {
        let b = BlockLocation { x, y, z };
        let (l, p) = b.as_chunk_parts();
        assert_eq!(BlockLocation::from_chunk_parts(&l, &p), b);
    }
    let (l, p) = BlockLocation { x: -1, y: 33, z: 64 }.as_chunk_parts();
    assert_eq!(l, loc(-1, 1, 2));
    assert_eq!((p.x(), p.y(), p.z()), (31, 1, 0));
    let b = BlockLocation::from_chunk_parts(&loc(-2, 0, 3), &ChunkPos::new(4, 5, 6).unwrap());
    assert_eq!(b, BlockLocation { x: -60, y: 5, z: 102 });
    assert_eq!(BlockLocation::from_chunk_location(&loc(1, -1, 2)), BlockLocation { x: 32, y: -32, z: 64 });
}

#[test]
fn chunk_positions() {
    assert!(ChunkPos::new(32, 0, 0).is_none());
    let p = ChunkPos::new(1, 2, 3).unwrap();
    assert_eq!(p.0, 1 + 2 * 32 + 3 * 1024);
    assert_eq!(ChunkPos::new(0, 0, 0).unwrap().adjacent_to_face(FaceType::Left), Err(ChunkPos::new(31, 0, 0).unwrap()));
    assert_eq!(ChunkPos::new(0, 31, 0).unwrap().adjacent_to_face(FaceType::Top), Err(ChunkPos::new(0, 0, 0).unwrap()));
    assert_eq!(ChunkPos::new(5, 5, 5).unwrap().adjacent_to_face(FaceType::Front), Ok(ChunkPos::new(5, 5, 6).unwrap()));
    assert_eq!(FaceType::Back.as_vector(), (0, 0, -1));
    assert_eq!(FaceType::from_repr(4), Some(FaceType::Left));
    assert_eq!(FaceType::from_repr(6), None);
    assert_eq!(FaceType::all().len(), 6);
    assert_eq!(FaceType::Right.index(), 5);
}

#[test]
fn chunk_data_and_dirty() {
    let mut c = ChunkData::empty(loc(1, 2, 3));
    assert_eq!(c.blocks.len(), 32768);
    let p = ChunkPos::new(3, 4, 5).unwrap();
    assert_eq!(*c.get_block(p), Block::Air);
    c.set_block(p, Block::Stone);
    assert_eq!(*c.get_block(p), Block::Stone);
    let mut cc = ClientChunk { data: c, bake: BakeState::Baked, has_mesh: true };
    cc.set_dirty();
    assert_eq!(cc.bake, BakeState::NeedsBaking);
    cc.bake = BakeState::DontBake;
    cc.set_dirty();
    assert_eq!(cc.bake, BakeState::DontBake);
}

#[test]
fn update_loads_bakes_and_requests() {
    let mut mgr = ChunkManager::new(2, Some(&RenderDistance(1, 0, 0)));
    let center = loc(0, 0, 0);
    let rd = RenderDistance(1, 0, 0);
    let first = mgr.update(&center, 0, Vec::new(), &rd);
    let asked: Vec<ChunkLocation> = first.requests.iter().map(|r| r.0).collect();
    assert_eq!(asked, vec![loc(-1, 0, 0), loc(0, 0, 0), loc(1, 0, 0)]);
    assert!(first.baked.is_empty() && first.unbaked.is_empty());
    // requested chunks are not asked for again while their timers run
    let again = mgr.update(&center, 1_000_000_000, Vec::new(), &rd);
    assert!(again.requests.is_empty());
    // the timers run out after five seconds
    let later = mgr.update(&center, 4_000_000_000, Vec::new(), &rd);
    assert_eq!(later.requests.len(), 3);
    // receive the three chunks and a fourth one out of range
    let received = vec![
        ChunkGenEvent(ChunkData::empty(loc(-1, 0, 0))),
        ChunkGenEvent(ChunkData::empty(loc(0, 0, 0))),
        ChunkGenEvent(ChunkData::empty(loc(1, 0, 0))),
        ChunkGenEvent(ChunkData::empty(loc(5, 0, 0))),
    ];
    let upd = mgr.update(&center, 0, received, &rd);
    assert!(upd.requests.is_empty());
    assert_eq!(upd.baked.len(), 2);
    let next = mgr.update(&center, 0, Vec::new(), &rd);
    assert_eq!(next.baked.len(), 1);
    let mut all_baked = upd.baked.clone();
    all_baked.extend(next.baked.iter().copied());
    all_baked.sort_by_key(|l| l.x);
    assert_eq!(all_baked, vec![loc(-1, 0, 0), loc(0, 0, 0), loc(1, 0, 0)]);
    assert_eq!(mgr.get_chunk_ref(&loc(5, 0, 0)).unwrap().bake, BakeState::DontBake);
    assert_eq!(mgr.loaded_locations().len(), 4);
    // moving away unbakes the chunks that left the render distance
    let moved = mgr.update(&loc(10, 0, 0), 0, Vec::new(), &rd);
    assert_eq!(moved.unbaked.len(), 3);
    assert_eq!(moved.requests.len(), 3);
    mgr.clear_recently_requested();
    let asked_again = mgr.update(&loc(10, 0, 0), 0, Vec::new(), &rd);
    assert_eq!(asked_again.requests.len(), 3);
}

#[test]
fn received_chunk_does_not_replace_loaded_one() {
    let mut mgr = ChunkManager::new(4, None);
    let rd = RenderDistance(0, 0, 0);
    let c = loc(0, 0, 0);
    mgr.update(&c, 0, vec![ChunkGenEvent(chunk_with(c, &[(0, 0, 0, Block::Dirt)]))], &rd);
    mgr.update(&c, 0, vec![ChunkGenEvent(chunk_with(c, &[(0, 0, 0, Block::Stone)]))], &rd);
    assert_eq!(mgr.get_block(&BlockLocation { x: 0, y: 0, z: 0 }), Some(Block::Dirt));
}

#[test]
fn neighbour_arrival_marks_baked_chunk_stale() {
    let mut mgr = ChunkManager::new(4, None);
    let rd = RenderDistance(1, 0, 0);
    let c = loc(0, 0, 0);
    mgr.update(&c, 0, vec![ChunkGenEvent(ChunkData::empty(c))], &rd);
    assert_eq!(mgr.get_chunk_ref(&c).unwrap().bake, BakeState::Baked);
    let upd = mgr.update(&c, 0, vec![ChunkGenEvent(ChunkData::empty(loc(1, 0, 0)))], &rd);
    let mut baked = upd.baked.clone();
    baked.sort_by_key(|l| l.x);
    assert_eq!(baked, vec![loc(0, 0, 0), loc(1, 0, 0)]);
}

#[test]
fn modify_block_and_neighbours() {
    let mut mgr = ChunkManager::new(8, None);
    let rd = RenderDistance(1, 0, 0);
    let c = loc(0, 0, 0);
    let received = vec![
        ChunkGenEvent(ChunkData::empty(loc(0, 0, 0))),
        ChunkGenEvent(chunk_with(loc(1, 0, 0), &[(0, 0, 0, Block::Stone)])),
        ChunkGenEvent(ChunkData::empty(loc(-1, 0, 0))),
    ];
    mgr.update(&c, 0, received, &rd);
    for l in [loc(-1, 0, 0), loc(0, 0, 0), loc(1, 0, 0)] {
        assert_eq!(mgr.get_chunk_ref(&l).unwrap().bake, BakeState::Baked);
    }
    let b = BlockLocation { x: 31, y: 0, z: 0 };
    assert_eq!(mgr.modify_block(&b, Block::Air), Some(Block::Air));
    assert_eq!(mgr.get_chunk_ref(&c).unwrap().bake, BakeState::Baked);
    assert_eq!(mgr.modify_block(&b, Block::Dirt), Some(Block::Air));
    assert_eq!(mgr.get_block(&b), Some(Block::Dirt));
    assert_eq!(mgr.get_chunk_ref(&c).unwrap().bake, BakeState::NeedsBaking);
    // the stone next to it across the chunk border makes that chunk stale too
    assert_eq!(mgr.get_chunk_ref(&loc(1, 0, 0)).unwrap().bake, BakeState::NeedsBaking);
    // the air neighbour on the other side leaves its chunk alone
    assert_eq!(mgr.get_chunk_ref(&loc(-1, 0, 0)).unwrap().bake, BakeState::Baked);
    assert_eq!(mgr.modify_block(&BlockLocation { x: 0, y: 40, z: 0 }, Block::Dirt), None);
    assert_eq!(mgr.get_block(&BlockLocation { x: 0, y: 40, z: 0 }), None);
}

#[test]
fn unload_caches_chunks_outside_every_render_distance() {
    let mut mgr = ChunkManager::new(8, None);
    let rd = RenderDistance(0, 0, 0);
    let received = vec![
        ChunkGenEvent(ChunkData::empty(loc(0, 0, 0))),
        ChunkGenEvent(chunk_with(loc(3, 0, 0), &[(1, 1, 1, Block::Grass)])),
    ];
    mgr.update(&loc(0, 0, 0), 0, received, &rd);
    let mut saver = WorldSaver::new(0, &Vec::new());
    let players = vec![(loc(0, 0, 0), RenderDistance(1, 1, 1))];
    let unloaded = mgr.unload_chunks(&players, &mut saver);
    assert_eq!(unloaded, vec![loc(3, 0, 0)]);
    assert!(mgr.get_chunk_ref(&loc(3, 0, 0)).is_none());
    assert!(mgr.get_chunk_ref(&loc(0, 0, 0)).is_some());
    match saver.try_get(&loc(3, 0, 0)) {
        SaveLookup::Cached(c) => {
            assert_eq!(c.data.location, loc(3, 0, 0));
            assert_eq!(*c.data.get_block(ChunkPos::new(1, 1, 1).unwrap()), Block::Grass);
        }
        other => panic!("expected a cached chunk, got {other:?}"),
    }
}

#[test]
fn world_saver_cycle() {
    let mut saver = WorldSaver::new(1_000, &vec![loc(9, 9, 9)]);
    saver.cache_until(loc(1, 0, 0), ChunkData::empty(loc(1, 0, 0)), 100);
    saver.cache_until(loc(2, 0, 0), ChunkData::empty(loc(2, 0, 0)), 300);
    let due = saver.process_at(200);
    assert_eq!(due.len(), 1);
    assert_eq!(due[0].0, loc(1, 0, 0));
    assert!(matches!(saver.try_get(&loc(1, 0, 0)), SaveLookup::Saved));
    assert!(matches!(saver.try_get(&loc(9, 9, 9)), SaveLookup::Saved));
    assert!(matches!(saver.try_get(&loc(7, 7, 7)), SaveLookup::Absent));
    saver.forget_saved(&loc(9, 9, 9));
    assert!(matches!(saver.try_get(&loc(9, 9, 9)), SaveLookup::Absent));
    let rest = saver.save_all();
    assert_eq!(rest.len(), 1);
    assert_eq!(rest[0].0, loc(2, 0, 0));
    assert!(matches!(saver.try_get(&loc(2, 0, 0)), SaveLookup::Saved));
    assert!(saver.process_at(u64::MAX).is_empty());
    saver.cache(loc(4, 0, 0), ChunkData::empty(loc(4, 0, 0)));
    assert!(matches!(saver.try_get(&loc(4, 0, 0)), SaveLookup::Cached(_)));
    assert!(matches!(saver.try_get(&loc(4, 0, 0)), SaveLookup::Absent));
}

#[test]
fn mesh_of_single_block() {
    let center = chunk_with(loc(0, 0, 0), &[(5, 5, 5, Block::Stone)]);
    let mgr = ChunkManager::new(1, None);
    let ctx = ChunkMeshContext::from_manager(&mgr, &center);
    let faces = ctx.faces();
    assert_eq!(faces.len(), 6);
    let p = ChunkPos::new(5, 5, 5).unwrap();
    let order: Vec<FaceType> = faces.iter().map(|f| f.1).collect();
    assert_eq!(order, FaceType::all().to_vec());
    assert!(faces.iter().all(|f| f.0 == p && f.2 == Block::Stone));
}

#[test]
fn mesh_hides_covered_faces() {
    let center = chunk_with(loc(0, 0, 0), &[(5, 5, 5, Block::Stone), (6, 5, 5, Block::Dirt), (31, 0, 0, Block::Grass)]);
    let mut mgr = ChunkManager::new(1, None);
    mgr.update(&loc(0, 0, 0), 0, vec![ChunkGenEvent(chunk_with(loc(1, 0, 0), &[(0, 0, 0, Block::Stone)]))], &RenderDistance(0, 0, 0));
    let ctx = ChunkMeshContext::from_manager(&mgr, &center);
    let faces = ctx.faces();
    // two touching blocks show 10 faces; the block at the border hides the face
    // towards the loaded neighbour's stone
    assert_eq!(faces.len(), 10 + 5);
    let grass = ChunkPos::new(31, 0, 0).unwrap();
    assert!(!faces.iter().any(|f| f.0 == grass && f.1 == FaceType::Right));
    assert!(faces.iter().any(|f| f.0 == grass && f.1 == FaceType::Bottom));
}

#[test]
fn structure_boxes() {
    assert!(Structure::new((2, 3, 4), ChunkPos::new(1, 2, 3).unwrap()).is_some());
    assert!(Structure::new((2, 3, 4), ChunkPos::new(2, 0, 0).unwrap()).is_none());
    assert!(Structure::new((40, 1, 1), ChunkPos::new(0, 0, 0).unwrap()).is_none());
    // an invalid size is refused before the block count is computed
    assert!(Structure::new((40, 40, 1), ChunkPos::new(0, 0, 0).unwrap()).is_none());
    assert!(Structure::new((31, 31, 31), ChunkPos::new(31, 0, 0).unwrap()).is_none());
    let s = Structure::new((2, 3, 4), ChunkPos::new(1, 1, 1).unwrap()).unwrap();
    assert_eq!((s.size().x(), s.size().y(), s.size().z()), (2, 3, 4));
    assert_eq!(s.origin(), ChunkPos::new(1, 1, 1).unwrap());
    assert_eq!(s.get(ChunkPos::new(1, 2, 3).unwrap()), Some(&Block::Air));
    assert_eq!(s.get(ChunkPos::new(3, 0, 0).unwrap()), None);
    let mut s = s;
    *s.get_mut(ChunkPos::new(1, 2, 3).unwrap()).unwrap() = Block::Stone;
    assert_eq!(s.get(ChunkPos::new(1, 2, 3).unwrap()), Some(&Block::Stone));
    assert_eq!(s.get(ChunkPos::new(0, 2, 3).unwrap()), Some(&Block::Air));
    assert!(s.get_mut(ChunkPos::new(0, 4, 0).unwrap()).is_none());
}

#[test]
fn request_conversions() {
    let r = ClientChunkRequest::from_gen_request(ChunkGenRequestEvent(loc(1, 2, 3)));
    assert_eq!(r.0, loc(1, 2, 3));
    assert_eq!(ChunkGenRequestEvent::from_client_request(r), ChunkGenRequestEvent(loc(1, 2, 3)));
}

#[test]
fn client_chunk_requests_are_split_by_loaded() {
    let mut mgr = ChunkManager::new(4, None);
    let rd = RenderDistance(0, 0, 0);
    let c = loc(0, 0, 0);
    mgr.update(&c, 0, vec![ChunkGenEvent(ChunkData::empty(c))], &rd);
    let reqs = vec![loc(1, 0, 0), c, loc(2, 0, 0), c];
    let (send, generate) = mgr.split_chunk_requests(&reqs);
    assert_eq!(send, vec![c, c]);
    assert_eq!(generate, vec![loc(1, 0, 0), loc(2, 0, 0)]);
}

#[test]
fn chunk_locations_in_range() {
    assert!(loc(0, 0, 0).is_in_range());
    assert!(loc(67_108_863, -67_108_864, 5).is_in_range());
    assert!(!loc(67_108_864, 0, 0).is_in_range());
    assert!(!loc(0, -67_108_865, 0).is_in_range());
}

#[test]
fn blocks_change_in_place() {
    let mut mgr = ChunkManager::new(4, None);
    let rd = RenderDistance(0, 0, 0);
    let c = loc(0, 0, 0);
    mgr.update(&c, 0, vec![ChunkGenEvent(ChunkData::empty(c))], &rd);
    let b = BlockLocation { x: 3, y: 4, z: 5 };
    *mgr.get_block_mut(&b).unwrap() = Block::Stone;
    assert_eq!(mgr.get_block(&b), Some(Block::Stone));
    assert_eq!(mgr.get_block(&BlockLocation { x: 4, y: 4, z: 5 }), Some(Block::Air));
    assert!(mgr.get_block_mut(&BlockLocation { x: 32, y: 0, z: 0 }).is_none());
    mgr.get_chunk_mut(&c).unwrap().bake = BakeState::DontBake;
    assert_eq!(mgr.get_chunk_ref(&c).unwrap().bake, BakeState::DontBake);
    assert!(mgr.get_chunk_mut(&loc(1, 0, 0)).is_none());
}

#[test]
fn stale_mesh_is_freed_when_its_chunk_leaves() {
    let mut mgr = ChunkManager::new(4, None);
    let rd = RenderDistance(0, 0, 0);
    let c = loc(0, 0, 0);
    let first = mgr.update(&c, 0, vec![ChunkGenEvent(ChunkData::empty(c))], &rd);
    assert_eq!(first.baked, vec![c]);
    assert!(mgr.get_chunk_ref(&c).unwrap().has_mesh);
    // an edit makes the mesh stale, but it is still held
    assert_eq!(mgr.modify_block(&BlockLocation { x: 1, y: 1, z: 1 }, Block::Stone), Some(Block::Air));
    assert_eq!(mgr.get_chunk_ref(&c).unwrap().bake, BakeState::NeedsBaking);
    assert!(mgr.get_chunk_ref(&c).unwrap().has_mesh);
    // leaving the render distance lists it to be freed
    let away = mgr.update(&loc(5, 0, 0), 0, vec![], &rd);
    assert_eq!(away.unbaked, vec![c]);
    let chunk = mgr.get_chunk_ref(&c).unwrap();
    assert_eq!(chunk.bake, BakeState::DontBake);
    assert!(!chunk.has_mesh);
    // and only once
    let again = mgr.update(&loc(5, 0, 0), 0, vec![], &rd);
    assert!(again.unbaked.is_empty());
}

#[test]
fn modify_block_at_the_edge_of_the_world() {
    let mut mgr = ChunkManager::new(4, None);
    let edge = BlockLocation { x: i32::MAX, y: 0, z: 0 };
    // nothing loaded there: nothing to change
    assert_eq!(mgr.modify_block(&edge, Block::Stone), None);
    let c = loc(67_108_863, 0, 0);
    mgr.update(&c, 0, vec![ChunkGenEvent(ChunkData::empty(c))], &RenderDistance(0, 0, 0));
    // writing the block that is there changes nothing
    assert_eq!(mgr.modify_block(&edge, Block::Air), Some(Block::Air));
    assert_eq!(mgr.get_chunk_ref(&c).unwrap().bake, BakeState::Baked);
}

#[test]
fn renderable_box_size() {
    let c = loc(3, -2, 7);
    for rd in [RenderDistance(0, 0, 0), RenderDistance(1, 0, 2), RenderDistance(2, 1, 1)] {
        let list = ChunkManager::renderable_locations_with(&c, &rd);
        assert_eq!(list.len() as u64, rd.total_chunks());
    }
}
