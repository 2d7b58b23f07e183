use blockworld::block::{BlockType, PlaceMode};
use blockworld::coords::{
    get_chunk_diff, get_chunk_position, get_global_position, get_index_from_position,
    get_position_from_index, get_relative_position, modular, relative_coord_is_inside_bounds,
    IVec2, UVec2, CHUNK_AREA,
};

#[test]
fn floor_mod_values() {
    assert_eq!(modular(-1, 16), 15);
    assert_eq!(modular(16, 16), 0);
    assert_eq!(modular(-17, 16), 15);
    assert_eq!(modular(5, 16), 5);
    assert_eq!(modular(i32::MIN, 16), 0);
    assert_eq!(modular(-7, 3), 2);
}

#[test]
fn index_round_trip_all_cells() {
    for i in 0..CHUNK_AREA {
        let p = get_position_from_index(i);
        assert!(p.x < 16 && p.y < 16);
        assert_eq!(get_index_from_position(p), i);
    }
    assert_eq!(get_position_from_index(37), UVec2::new(5, 2));
    assert_eq!(get_index_from_position(UVec2::new(15, 15)), 255);
}

#[test]
fn position_from_index_wraps_past_chunk() {
    assert_eq!(get_position_from_index(256 + 17), UVec2::new(1, 1));
}

#[test]
fn chunk_position_uses_floor_division() {
    assert_eq!(get_chunk_position(IVec2::new(0, 15)), IVec2::new(0, 0));
    assert_eq!(get_chunk_position(IVec2::new(16, -1)), IVec2::new(1, -1));
    assert_eq!(get_chunk_position(IVec2::new(-16, -17)), IVec2::new(-1, -2));
    assert_eq!(get_chunk_position(IVec2::new(i32::MIN, i32::MAX)), IVec2::new(-134217728, 134217727));
    assert_eq!(get_chunk_diff(IVec2::new(-1, 16)), IVec2::new(-1, 1));
}

#[test]
fn coordinate_round_trip_samples() {
    for &(x, y) in &[(0, 0), (-1, -1), (17, -33), (-16, 16), (1000, -1000), (-123457, 98765)] {
        let p = IVec2::new(x, y);
        let c = get_chunk_position(p);
        let r = get_relative_position(p, c);
        assert!(r.x < 16 && r.y < 16);
        assert_eq!(get_global_position(c, r), p);
    }
}

#[test]
fn relative_bounds() {
    assert!(relative_coord_is_inside_bounds(IVec2::new(0, 15)));
    assert!(!relative_coord_is_inside_bounds(IVec2::new(16, 0)));
    assert!(!relative_coord_is_inside_bounds(IVec2::new(3, -1)));
}

#[test]
fn block_traits() {
    assert!(BlockType::AIR.is_transparent());
    assert!(BlockType::GLASS.is_transparent());
    assert!(BlockType::LEAVES.is_transparent());
    assert!(!BlockType::STONE.is_transparent());
    assert!(BlockType::AIR.is_passthrough());
    assert!(!BlockType::GLASS.is_passthrough());
    assert!(BlockType::GRASS.can_flip_horizontally());
    assert!(!BlockType::GRASS.can_flip_vertically());
    assert!(BlockType::TREE_LOG.can_flip_vertically());
    assert!(!BlockType::PLANKS.can_flip_horizontally());
    assert_eq!(BlockType::SIZE.ordinal(), 9);
    assert_eq!(BlockType::from_ordinal(7), Some(BlockType::LEAVES));
    assert_eq!(BlockType::from_ordinal(10), None);
    assert_eq!(PlaceMode::WALL.index(), 0);
    assert_eq!(PlaceMode::BLOCK.index(), 1);
}
