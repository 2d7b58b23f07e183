use blockworld::block::BlockType;
use blockworld::chunk::{Chunk, Chunks};
use blockworld::collision::{mesh_chunk, regenerate_collision, Rectangle};
use blockworld::coords::{IVec2, UVec2, CHUNK_AREA};

fn covered_cells(rects: &[Rectangle]) -> Vec<u32> {
    let mut count = vec![0u32; CHUNK_AREA];
    for r in rects {
        assert!(r.start.x <= r.end.x && r.end.x < 16);
        assert!(r.start.y <= r.end.y && r.end.y < 16);
        for y in r.start.y..=r.end.y {
            for x in r.start.x..=r.end.x {
                count[(x + y * 16) as usize] += 1;
            }
        }
    }
    count
}

#[test]
fn empty_grid_has_no_rectangles() {
    assert!(mesh_chunk([BlockType::AIR; CHUNK_AREA]).is_empty());
}

#[test]
fn full_grid_is_one_rectangle() {
    let rects = mesh_chunk([BlockType::STONE; CHUNK_AREA]);
    assert_eq!(rects, vec![Rectangle::new(UVec2::new(0, 0), UVec2::new(15, 15))]);
}

#[test]
fn glass_collides() {
    let mut grid = [BlockType::AIR; CHUNK_AREA];
    grid[0] = BlockType::GLASS;
    assert_eq!(mesh_chunk(grid), vec![Rectangle::new(UVec2::new(0, 0), UVec2::new(0, 0))]);
}

#[test]
fn mixed_grid_is_covered_exactly_once() {
    let mut grid = [BlockType::AIR; CHUNK_AREA];
    for i in 0..CHUNK_AREA {
        let (x, y) = (i % 16, i / 16);
        if (x * 7 + y * 3) % 5 < 2 || (x > 4 && x < 9 && y < 6) {
            grid[i] = BlockType::DIRT;
        }
    }
    let rects = mesh_chunk(grid);
    let count = covered_cells(&rects);
    for i in 0..CHUNK_AREA {
        let expected = if grid[i] == BlockType::AIR { 0 } else { 1 };
        assert_eq!(count[i], expected, "cell {}", i);
    }
}

#[test]
fn greedy_grows_up_then_right() {
    // A 2-wide, 3-tall block at the origin and a single cell to its right.
    let mut grid = [BlockType::AIR; CHUNK_AREA];
    for &(x, y) in &[(0, 0), (1, 0), (0, 1), (1, 1), (0, 2), (1, 2), (2, 0)] {
        grid[x + y * 16] = BlockType::STONE;
    }
    let rects = mesh_chunk(grid);
    assert_eq!(
        rects,
        vec![
            Rectangle::new(UVec2::new(0, 0), UVec2::new(1, 2)),
            Rectangle::new(UVec2::new(2, 0), UVec2::new(2, 0)),
        ]
    );
}

#[test]
fn collider_spawn_in_pixels() {
    let r = Rectangle::new(UVec2::new(1, 2), UVec2::new(3, 2));
    let d = r.as_collider_spawn();
    assert_eq!(d.size, UVec2::new(96, 32));
    assert_eq!(d.center, UVec2::new(48 + 32, 16 + 64));
}

#[test]
fn colliders_of_a_loaded_chunk() {
    let mut chunks = Chunks::new();
    let mut blocks = [BlockType::AIR; CHUNK_AREA];
    for x in 0..16 {
        blocks[x] = BlockType::STONE;
    }
    chunks.insert(IVec2::new(3, -1), Chunk::from_layers([BlockType::STONE; CHUNK_AREA], blocks));
    let colliders = regenerate_collision(&chunks, IVec2::new(3, -1)).unwrap();
    assert_eq!(colliders.len(), 1);
    assert_eq!(colliders[0].size, UVec2::new(512, 32));
    assert_eq!(colliders[0].center, UVec2::new(256, 16));
    assert!(regenerate_collision(&chunks, IVec2::new(0, 0)).is_none());
}
