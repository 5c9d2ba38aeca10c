use voxelcore::block::{BlockProto, BlockProtoSet};
use voxelcore::chunk::Chunk;
use voxelcore::geometry::{Facing, MeshVertex};
use voxelcore::tessellate::{squares_to_vertices, tessellate_slice, Square};

fn grid16() -> Vec<u16> {
    vec![0u16; 256]
}

fn set(grid: &mut Vec<u16>, x: usize, y: usize, id: u16) {
    grid[x * 16 + y] = id;
}

fn simple_blocks() -> BlockProtoSet {
    let mut blocks = Vec::new();
    for n in 0..8 {
        blocks.push(BlockProto {
            name: format!("b{}", n),
            textures: vec![],
            tex_face_map: [n, n, n, n, n, n],
            solid: n != 0,
            transparent: n == 0,
        });
    }
    BlockProtoSet { blocks }
}

#[test]
fn single_cell_gives_one_unit_square() {
    // A single isolated solid cell surrounded by air produces exactly one
    // 1 x 1 rectangle.
    let mut grid = grid16();
    set(&mut grid, 5, 9, 7);
    let squares = tessellate_slice(&grid, 16, 16);
    assert_eq!(squares.len(), 1);
    assert_eq!(squares[0], Square { x1: 5, y1: 9, x2: 6, y2: 10, id: 7 });
}

#[test]
fn uniform_slice_gives_one_full_square() {
    // A completely solid, uniform-ID slice produces exactly one rectangle
    // spanning the whole slice.
    let grid = vec![3u16; 256];
    let squares = tessellate_slice(&grid, 16, 16);
    assert_eq!(squares.len(), 1);
    assert_eq!(squares[0], Square { x1: 0, y1: 0, x2: 16, y2: 16, id: 3 });
}

#[test]
fn solid_block_region_gives_one_square() {
    // A 16 x 16 slice with a solid rectangle from (2,2) to (5,5) and
    // nothing else tessellates to exactly that one rectangle.
    let mut grid = grid16();
    for x in 2..5 {
        for y in 2..5 {
            set(&mut grid, x, y, 2);
        }
    }
    let squares = tessellate_slice(&grid, 16, 16);
    assert_eq!(squares.len(), 1);
    assert_eq!(squares[0], Square { x1: 2, y1: 2, x2: 5, y2: 5, id: 2 });
}

#[test]
fn tessellation_is_idempotent() {
    // The same static slice tessellated twice gives identical rectangle
    // lists: anchors are found in a deterministic scan order.
    let mut grid = grid16();
    set(&mut grid, 0, 0, 1);
    set(&mut grid, 1, 0, 1);
    set(&mut grid, 0, 1, 2);
    set(&mut grid, 7, 3, 1);
    set(&mut grid, 7, 4, 1);
    set(&mut grid, 15, 15, 5);
    let first = tessellate_slice(&grid, 16, 16);
    let second = tessellate_slice(&grid, 16, 16);
    assert_eq!(first, second);
    assert!(!first.is_empty());
}

#[test]
fn quads_round_trip_to_cells() {
    // Tessellate, emit quads, then re-derive the occupied cells from the
    // quad bounds alone: exactly the original non-air cells come back.
    let mut grid = grid16();
    set(&mut grid, 2, 2, 1);
    set(&mut grid, 2, 3, 1);
    set(&mut grid, 3, 2, 1);
    set(&mut grid, 9, 9, 4);
    set(&mut grid, 9, 10, 4);
    set(&mut grid, 0, 15, 2);
    let squares = tessellate_slice(&grid, 16, 16);
    let offset = (32i64, -16i64, 112i64);
    let verts = squares_to_vertices(&squares, offset, Facing::U, &simple_blocks());
    assert_eq!(verts.len(), 4 * squares.len());

    // for an up face the slice coordinates are x and y, read back from the
    // vertex positions minus the slice offset
    let mut derived = [[false; 16]; 16];
    for q in 0..verts.len() / 4 {
        let vs = &verts[4 * q..4 * q + 4];
        let us: Vec<i64> = vs.iter().map(|v| v.px - offset.0).collect();
        let ws: Vec<i64> = vs.iter().map(|v| v.py - offset.1).collect();
        let (u1, u2) = (*us.iter().min().unwrap(), *us.iter().max().unwrap());
        let (w1, w2) = (*ws.iter().min().unwrap(), *ws.iter().max().unwrap());
        for x in u1..u2 {
            for y in w1..w2 {
                assert!(!derived[x as usize][y as usize], "quads overlap");
                derived[x as usize][y as usize] = true;
            }
        }
    }
    for x in 0..16 {
        for y in 0..16 {
            assert_eq!(derived[x][y], grid[x * 16 + y] != 0);
        }
    }
}

#[test]
fn quad_vertices_exact_for_up_face() {
    let squares = vec![Square { x1: 2, y1: 2, x2: 5, y2: 5, id: 1 }];
    let bps = simple_blocks();
    let verts = squares_to_vertices(&squares, (0, 0, 7), Facing::U, &bps);
    assert_eq!(verts.len(), 4);
    // up faces sit one block above the slice offset and keep their corner
    // order: (x1,y2), (x1,y1), (x2,y1), (x2,y2)
    let expect = [
        MeshVertex { px: 2, py: 5, pz: 8, u: 0, v: 0, tex_id: 1 },
        MeshVertex { px: 2, py: 2, pz: 8, u: 0, v: 3, tex_id: 1 },
        MeshVertex { px: 5, py: 2, pz: 8, u: 3, v: 3, tex_id: 1 },
        MeshVertex { px: 5, py: 5, pz: 8, u: 3, v: 0, tex_id: 1 },
    ];
    assert_eq!(verts, expect);
}

#[test]
fn quad_vertices_mirrored_for_down_face() {
    let squares = vec![Square { x1: 0, y1: 0, x2: 1, y2: 1, id: 2 }];
    let bps = simple_blocks();
    let verts = squares_to_vertices(&squares, (0, 0, 0), Facing::D, &bps);
    assert_eq!(verts.len(), 4);
    // down faces reverse the corner order and rotate the texture corners
    // so the quad faces outward with upright texturing
    let expect = [
        MeshVertex { px: 1, py: 1, pz: 0, u: 1, v: 1, tex_id: 2 },
        MeshVertex { px: 1, py: 0, pz: 0, u: 1, v: 0, tex_id: 2 },
        MeshVertex { px: 0, py: 0, pz: 0, u: 0, v: 0, tex_id: 2 },
        MeshVertex { px: 0, py: 1, pz: 0, u: 0, v: 1, tex_id: 2 },
    ];
    assert_eq!(verts, expect);
}

#[test]
fn chunk_get_indices_pattern() {
    let mut c = Chunk::new(0, 0, 0);
    let v = MeshVertex { px: 0, py: 0, pz: 0, u: 0, v: 0, tex_id: 0 };
    c.mesh = vec![v; 8];
    let idx = c.get_indices(10);
    assert_eq!(idx, vec![10, 11, 12, 12, 13, 10, 14, 15, 16, 16, 17, 14]);
}

#[test]
fn chunk_block_edits() {
    let mut c = Chunk::new(16, -32, 0);
    assert!(c.check_inside_me(17, -20, 3));
    assert!(!c.check_inside_me(15, -20, 3));
    assert_eq!(c.get_block_id_at(17, -20, 3), 0);
    c.set_block_id_at(17, -20, 3, 9);
    assert_eq!(c.get_block_id_at(17, -20, 3), 9);
    assert_eq!(c.get_block_id_at(17, -20, 4), 0);
}

#[test]
fn chunk_generate_flat_layers() {
    let mut c = Chunk::new(0, 0, 0);
    c.generate_flat();
    // grass over two soil layers over stone, air above
    assert_eq!(c.get_block_id_at(3, 7, 0), 4);
    assert_eq!(c.get_block_id_at(3, 7, 1), 1);
    assert_eq!(c.get_block_id_at(3, 7, 2), 1);
    assert_eq!(c.get_block_id_at(3, 7, 3), 2);
    assert_eq!(c.get_block_id_at(3, 7, 4), 0);

    let mut above = Chunk::new(0, 0, 16);
    above.generate_flat();
    assert_eq!(above.get_block_id_at(3, 7, 16), 0);
}

#[test]
fn chunk_generate_planet_columns() {
    let mut c = Chunk::new(0, 0, 0);
    let mut heights = vec![-100i64; 256];
    heights[0] = 0; // column (0,0): surface right at the chunk floor
    heights[16] = 20; // column (1,0): surface far above: solid stone
    heights[2] = 3; // column (0,2): grass at 3, dirt at 2, stone below
    c.generate_planet(&heights);

    assert_eq!(c.get_block_id_at(0, 0, 0), 4);
    assert_eq!(c.get_block_id_at(0, 0, 1), 0);

    for z in 0..15 {
        assert_eq!(c.get_block_id_at(1, 0, z), 2);
    }
    assert_eq!(c.get_block_id_at(1, 0, 15), 2);

    assert_eq!(c.get_block_id_at(0, 2, 3), 4);
    assert_eq!(c.get_block_id_at(0, 2, 2), 5);
    assert_eq!(c.get_block_id_at(0, 2, 1), 2);
    assert_eq!(c.get_block_id_at(0, 2, 0), 2);
    assert_eq!(c.get_block_id_at(0, 2, 4), 0);

    // untouched columns stay air
    assert_eq!(c.get_block_id_at(5, 5, 0), 0);
}

#[test]
fn chunk_make_mesh_emits_whole_quads() {
    let mut c = Chunk::new(0, 0, 0);
    c.set_block_id_at(1, 1, 1, 2);
    c.make_mesh(&simple_blocks());
    // one isolated cube: six faces, one quad each
    assert_eq!(c.mesh.len(), 24);
}
