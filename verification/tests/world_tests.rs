use voxelcore::block::{BlockProto, BlockProtoSet};
use voxelcore::chunkset::ChunkSet;
use voxelcore::world::World;

fn terrain_blocks() -> BlockProtoSet {
    let mut blocks = Vec::new();
    for n in 0..6 {
        blocks.push(BlockProto {
            name: format!("b{}", n),
            textures: vec![],
            tex_face_map: [0, 0, 0, 0, 0, 0],
            solid: n != 0,
            transparent: n == 0,
        });
    }
    BlockProtoSet { blocks }
}

fn flat_heights() -> Vec<i64> {
    vec![0i64; 256]
}

#[test]
fn chunkset_index_independent_of_center() {
    // the array index of a coordinate depends only on the coordinate modulo
    // the array side, never on the center
    let a = ChunkSet::new((0, 0, 0), 2);
    let b = ChunkSet::new((40, -17, 3), 2);
    for coord in [(0, 0, 0), (-1, -1, -1), (7, -13, 22), (-1000, 999, 5)] {
        assert_eq!(a.chunk_coord_to_arr_index(coord), b.chunk_coord_to_arr_index(coord));
        assert_eq!(a.chunk_coord_to_real_index(coord), b.chunk_coord_to_real_index(coord));
    }
}

#[test]
fn chunkset_euclidean_modulo() {
    let a = ChunkSet::new((0, 0, 0), 2); // side 5
    assert_eq!(a.chunk_coord_to_arr_index((-1, -6, 4)), (4, 4, 4));
    assert_eq!(a.chunk_coord_to_arr_index((5, 6, 7)), (0, 1, 2));
}

#[test]
fn chunkset_recenter_keeps_indices() {
    let mut a = ChunkSet::new((0, 0, 0), 1);
    let before = a.chunk_coord_to_real_index((2, -3, 1));
    a.recenter((9, 9, 9));
    assert_eq!(a.chunk_coord_to_real_index((2, -3, 1)), before);
}

#[test]
fn chunkset_bounds_window() {
    let a = ChunkSet::new((10, 0, 0), 2);
    assert!(a.check_in_bounds((8, 0, 0)));
    assert!(a.check_in_bounds((12, 2, -2)));
    assert!(!a.check_in_bounds((7, 0, 0)));
    assert!(!a.check_in_bounds((10, 3, 0)));
}

#[test]
fn chunkset_generate_and_unload() {
    let mut a = ChunkSet::new((0, 0, 0), 1);
    let bps = terrain_blocks();
    assert!(a.is_unloaded((0, 0, 0)));
    a.generate_chunk((0, 0, 0), &flat_heights(), &bps);
    assert!(!a.is_unloaded((0, 0, 0)));
    assert!(a.holds_coord((0, 0, 0)));
    let c = a.get_chunk_at_chunk_coords((0, 0, 0)).unwrap();
    assert!(c.ready_to_display);
    assert_eq!(c.get_block_id_at(0, 0, 0), 4);

    a.mark_unloaded((0, 0, 0));
    assert!(a.is_unloaded((0, 0, 0)));
    assert!(a.get_chunk_at_chunk_coords((0, 0, 0)).is_none());
}

#[test]
fn chunkset_stale_occupant_detected() {
    // (0,0,0) and (3,0,0) map to the same slot at render distance 1; the
    // old occupant must be reported as not holding the new coordinate
    let mut a = ChunkSet::new((0, 0, 0), 1);
    let bps = terrain_blocks();
    a.generate_chunk((0, 0, 0), &flat_heights(), &bps);
    assert_eq!(
        a.chunk_coord_to_real_index((0, 0, 0)),
        a.chunk_coord_to_real_index((3, 0, 0))
    );
    assert!(!a.is_unloaded((3, 0, 0)));
    assert!(!a.holds_coord((3, 0, 0)));
    assert!(a.holds_coord((0, 0, 0)));
}

#[test]
fn world_block_queries_degrade_to_air() {
    let mut w = World::new(terrain_blocks(), (0, 0, 0), 1);
    assert_eq!(w.get_block_id_at(3, 4, 5), 0);
    assert_eq!(w.set_block_id_at(3, 4, 5, 2), None);
    w.complete_generation((0, 0, 0), &flat_heights());
    assert_eq!(w.get_block_id_at(3, 4, 0), 4);
    assert_eq!(w.get_block_id_at(3, 4, 5), 0);
    assert_eq!(w.set_block_id_at(3, 4, 5, 2), Some(()));
    assert_eq!(w.get_block_id_at(3, 4, 5), 2);
    // far outside the window: still air, no error
    assert_eq!(w.get_block_id_at(1000, -1000, 0), 0);
}

#[test]
fn world_mesh_queue_drains() {
    let mut w = World::new(terrain_blocks(), (0, 0, 0), 1);
    w.complete_generation((0, 0, 0), &flat_heights());
    assert_eq!(w.set_block_id_at(1, 1, 5, 3), Some(()));
    assert!(w.spawn_mesh_updates());
    assert!(!w.spawn_mesh_updates());
    let (vertices, indices) = w.get_all_chunk_meshes();
    assert!(vertices.len() > 0);
    assert_eq!(vertices.len() % 4, 0);
    assert_eq!(indices.len(), vertices.len() / 4 * 6);
    for i in &indices {
        assert!((*i as usize) < vertices.len());
    }
}

#[test]
fn world_generation_queue_order() {
    let mut w = World::new(terrain_blocks(), (0, 0, 0), 1);
    w.queue_chunk_update((1, 0, 0));
    w.queue_chunk_update((0, 1, 0));
    assert_eq!(w.next_generation_task(), Some((1, 0, 0)));
    assert_eq!(w.next_generation_task(), Some((0, 1, 0)));
    assert_eq!(w.next_generation_task(), None);
}

#[test]
fn world_streaming_pass_moves_window() {
    // Build the full window around the origin, then step the viewer one
    // chunk along +X: exactly the plane that left the window is evicted,
    // exactly the plane that entered it is queued, and no coordinate is
    // both evicted and queued.
    let mut w = World::new(terrain_blocks(), (0, 0, 0), 1);
    assert!(w.update_loaded_chunks((0, 0, 0)));
    assert_eq!(w.need_generation_update.len(), 27);
    while let Some(c) = w.next_generation_task() {
        w.complete_generation(c, &flat_heights());
    }
    for x in -1..=1 {
        for y in -1..=1 {
            for z in -1..=1 {
                assert!(w.chunks.holds_coord((x, y, z)));
            }
        }
    }

    // repeat call for the same viewer chunk: nothing changes
    assert!(!w.update_loaded_chunks((0, 0, 0)));

    assert!(w.update_loaded_chunks((1, 0, 0)));
    let queued: Vec<(i64, i64, i64)> = w.need_generation_update.clone();
    assert_eq!(queued.len(), 9);
    for c in &queued {
        assert_eq!(c.0, 2); // only the newly in-range plane is queued
    }
    for y in -1..=1 {
        for z in -1..=1 {
            // the plane that left the window is gone
            assert!(!w.chunks.holds_coord((-1, y, z)));
            // the shared middle planes survive untouched
            assert!(w.chunks.holds_coord((0, y, z)));
            assert!(w.chunks.holds_coord((1, y, z)));
            // nothing evicted was re-queued
            assert!(!queued.contains(&(-1, y, z)));
        }
    }
}

#[test]
fn world_remesh_reflects_edit() {
    // an edit followed by a mesh pass must change the render payload by
    // exactly the six faces of the newly placed isolated block
    let mut w = World::new(terrain_blocks(), (0, 0, 0), 1);
    w.complete_generation((0, 0, 0), &flat_heights());
    let (v1, _) = w.get_all_chunk_meshes();
    assert!(v1.len() > 0);

    assert_eq!(w.set_block_id_at(8, 8, 9, 2), Some(()));
    assert!(w.spawn_mesh_updates());
    let (v2, i2) = w.get_all_chunk_meshes();
    assert_eq!(v2.len(), v1.len() + 24);
    assert_eq!(i2.len(), v2.len() / 4 * 6);
}
