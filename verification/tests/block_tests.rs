use voxelcore::block::{default_solid, tex_face_map_zeros, BlockProto, BlockProtoSet};
use voxelcore::geometry::Facing;

fn air() -> BlockProto {
    BlockProto {
        name: "Air".to_string(),
        textures: vec![],
        tex_face_map: [0, 0, 0, 0, 0, 0],
        solid: false,
        transparent: true,
    }
}

fn stone() -> BlockProto {
    BlockProto {
        name: "Stone".to_string(),
        textures: vec!["stone.png".to_string()],
        tex_face_map: [0, 0, 0, 0, 0, 0],
        solid: true,
        transparent: false,
    }
}

fn glass() -> BlockProto {
    BlockProto {
        name: "Glass".to_string(),
        textures: vec!["glass.png".to_string()],
        tex_face_map: [1, 1, 1, 1, 1, 1],
        solid: false,
        transparent: true,
    }
}

#[test]
fn test_new() {
    let block_proto_set = BlockProtoSet::new();
    assert!(block_proto_set.blocks.is_empty());
}

#[test]
fn test_by_id() {
    let block_proto_set = BlockProtoSet { blocks: vec![air(), stone()] };

    let block = block_proto_set.by_id(1);
    assert_eq!(block.name, "Stone");
}

#[test]
fn test_collect_textures() {
    let block_proto_set = BlockProtoSet { blocks: vec![air(), stone(), glass()] };

    let textures = block_proto_set.collect_textures();
    assert_eq!(textures, vec!["assets/textures/stone.png", "assets/textures/glass.png"]);
}

#[test]
fn test_from_protos() {
    let block_proto_set = BlockProtoSet::from_protos(vec![stone(), glass()]);
    assert_eq!(block_proto_set.blocks.len(), 3);
    assert_eq!(block_proto_set.blocks[0].name, "Air");
    assert!(!block_proto_set.blocks[0].solid);
    assert_eq!(block_proto_set.blocks[1].name, "Stone");
    assert_eq!(block_proto_set.blocks[2].name, "Glass");
    // Stone's face table is unshifted; Glass's is rebased past Stone's one
    // texture, so its local index 1 becomes global index 2.
    assert_eq!(block_proto_set.blocks[1].tex_face_map, [0, 0, 0, 0, 0, 0]);
    assert_eq!(block_proto_set.blocks[2].tex_face_map, [2, 2, 2, 2, 2, 2]);
}

#[test]
fn test_get_tex_id() {
    let mut glassy = glass();
    glassy.tex_face_map = [1, 2, 3, 4, 5, 0];
    let set = BlockProtoSet { blocks: vec![air(), stone(), glassy] };
    assert_eq!(set.get_tex_id(2, Facing::N), 1);
    assert_eq!(set.get_tex_id(2, Facing::E), 2);
    assert_eq!(set.get_tex_id(2, Facing::W), 3);
    assert_eq!(set.get_tex_id(2, Facing::S), 4);
    assert_eq!(set.get_tex_id(2, Facing::U), 5);
    assert_eq!(set.get_tex_id(2, Facing::D), 0);
}

#[test]
fn test_defaults() {
    assert!(default_solid());
    assert_eq!(tex_face_map_zeros(), [0, 0, 0, 0, 0, 0]);
}
