use blockworld::block::{BlockType, PlaceMode};
use blockworld::chunk::{Chunk, Chunks};
use blockworld::coords::{IVec2, CHUNK_AREA};
use blockworld::mesh::{
    cell_uvs, flip_quad, generate_chunk_indices, generate_chunk_layer_mesh, remesh, MeshSettings,
    Shade, Vertex, CHUNK_INDEX_COUNT, CHUNK_MESH_SIZE,
};
use rand::{Rng, SeedableRng};

const PLAIN: MeshSettings = MeshSettings { smooth_lighting: false, wall_ambient_occlusion: false };

fn idx(x: usize, y: usize) -> usize {
    x + y * 16
}

fn blank() -> Vertex {
    Vertex { x: 0, y: 0, shade: Shade::Blank, u: 0, v: 0 }
}

fn coin(seed: i32) -> bool {
    rand::rngs::StdRng::seed_from_u64(seed as u32 as u64).gen::<bool>()
}

#[test]
fn default_indices() {
    let ind = generate_chunk_indices();
    assert_eq!(ind.len(), CHUNK_INDEX_COUNT);
    assert_eq!(&ind[0..12], &[0, 1, 2, 2, 3, 0, 4, 5, 6, 6, 7, 4]);
    assert_eq!(&ind[1530..1536], &[1020, 1021, 1022, 1022, 1023, 1020]);
}

#[test]
fn flipping_a_quad() {
    let mut ind = generate_chunk_indices();
    flip_quad(2, &mut ind);
    assert_eq!(&ind[12..18], &[8, 9, 11, 9, 10, 11]);
    assert_eq!(&ind[6..12], &[4, 5, 6, 6, 7, 4]);
    flip_quad(2, &mut ind);
    assert_eq!(&ind[12..18], &[8, 9, 11, 9, 10, 11]);
}

#[test]
fn empty_layer_mesh() {
    let m = generate_chunk_layer_mesh();
    assert_eq!(m.vertices.len(), CHUNK_MESH_SIZE);
    assert!(m.vertices.iter().all(|v| *v == blank()));
    assert_eq!(m.indices, generate_chunk_indices());
}

#[test]
fn air_cells_stay_blank() {
    let mut chunks = Chunks::new();
    let mut c = Chunk::from_layers([BlockType::AIR; CHUNK_AREA], [BlockType::AIR; CHUNK_AREA]);
    c.layers[1][idx(3, 2)] = BlockType::PLANKS;
    c.light = [15; CHUNK_AREA];
    chunks.insert(IVec2::new(0, 0), c);
    let m = remesh(&chunks, IVec2::new(0, 0), PlaceMode::BLOCK, PLAIN).unwrap();
    for i in 0..CHUNK_AREA {
        for k in 0..4 {
            if i != idx(3, 2) {
                assert_eq!(m.vertices[4 * i + k], blank());
            }
        }
    }
    let q = 4 * idx(3, 2);
    assert_eq!(m.vertices[q], Vertex { x: 96, y: 64, shade: Shade::Flat { light: 15 }, u: 4, v: 1 });
    assert_eq!(m.vertices[q + 1], Vertex { x: 128, y: 64, shade: Shade::Flat { light: 15 }, u: 5, v: 1 });
    assert_eq!(m.vertices[q + 2], Vertex { x: 128, y: 96, shade: Shade::Flat { light: 15 }, u: 5, v: 0 });
    assert_eq!(m.vertices[q + 3], Vertex { x: 96, y: 96, shade: Shade::Flat { light: 15 }, u: 4, v: 0 });
    assert_eq!(m.indices, generate_chunk_indices());
    let walls = remesh(&chunks, IVec2::new(0, 0), PlaceMode::WALL, PLAIN).unwrap();
    assert!(walls.vertices.iter().all(|v| *v == blank()));
    assert!(remesh(&chunks, IVec2::new(1, 0), PlaceMode::WALL, PLAIN).is_none());
}

#[test]
fn smooth_lighting_averages_corners() {
    let mut chunks = Chunks::new();
    let mut c = Chunk::from_layers([BlockType::AIR; CHUNK_AREA], [BlockType::AIR; CHUNK_AREA]);
    c.layers[1][idx(5, 5)] = BlockType::COBBLESTONE;
    for i in 0..CHUNK_AREA {
        c.light[i] = (i % 16) as u8;
    }
    chunks.insert(IVec2::new(0, 0), c);
    let settings = MeshSettings { smooth_lighting: true, wall_ambient_occlusion: false };
    let m = remesh(&chunks, IVec2::new(0, 0), PlaceMode::BLOCK, settings).unwrap();
    let q = 4 * idx(5, 5);
    // Bottom left: centre 5, left 4, bottom left 4, down 5.
    assert_eq!(m.vertices[q].shade, Shade::Smooth { sum: 18 });
    // Bottom right: centre 5, right 6, bottom right 6, down 5.
    assert_eq!(m.vertices[q + 1].shade, Shade::Smooth { sum: 22 });
    assert_eq!(m.vertices[q + 2].shade, Shade::Smooth { sum: 22 });
    assert_eq!(m.vertices[q + 3].shade, Shade::Smooth { sum: 18 });
}

#[test]
fn wall_occlusion_darkens_and_flips() {
    let mut chunks = Chunks::new();
    let mut c = Chunk::from_layers([BlockType::DIRT; CHUNK_AREA], [BlockType::AIR; CHUNK_AREA]);
    c.layers[1][idx(4, 4)] = BlockType::STONE; // bottom left of (5, 5)
    c.layers[1][idx(9, 10)] = BlockType::STONE; // up of (9, 9)
    c.light = [15; CHUNK_AREA];
    chunks.insert(IVec2::new(0, 0), c);
    let settings = MeshSettings { smooth_lighting: false, wall_ambient_occlusion: true };
    let m = remesh(&chunks, IVec2::new(0, 0), PlaceMode::WALL, settings).unwrap();
    let q = 4 * idx(5, 5);
    assert_eq!(m.vertices[q].shade, Shade::Occluded { light: 15 });
    assert_eq!(m.vertices[q + 1].shade, Shade::Flat { light: 15 });
    let j = 6 * idx(5, 5);
    let o = 4 * idx(5, 5) as u32;
    assert_eq!(&m.indices[j..j + 6], &[o, o + 1, o + 3, o + 1, o + 2, o + 3]);
    let q = 4 * idx(9, 9);
    assert_eq!(m.vertices[q].shade, Shade::Flat { light: 15 });
    assert_eq!(m.vertices[q + 2].shade, Shade::Occluded { light: 15 });
    assert_eq!(m.vertices[q + 3].shade, Shade::Occluded { light: 15 });
    let j = 6 * idx(9, 9);
    let o = 4 * idx(9, 9) as u32;
    assert_eq!(&m.indices[j..j + 6], &[o, o + 1, o + 2, o + 2, o + 3, o]);
    // The block layer gets no occlusion.
    let b = remesh(&chunks, IVec2::new(0, 0), PlaceMode::BLOCK, settings).unwrap();
    assert_eq!(b.indices, generate_chunk_indices());
}

#[test]
fn uv_mirroring() {
    assert_eq!(cell_uvs(BlockType::GRASS, false, false), [(0, 1), (1, 1), (1, 0), (0, 0)]);
    assert_eq!(cell_uvs(BlockType::DIRT, true, false), [(2, 1), (1, 1), (1, 0), (2, 0)]);
    assert_eq!(cell_uvs(BlockType::DIRT, false, true), [(1, 0), (2, 0), (2, 1), (1, 1)]);
}

#[test]
fn texture_flip_follows_seeded_generator() {
    let mut chunks = Chunks::new();
    let mut c = Chunk::from_layers([BlockType::AIR; CHUNK_AREA], [BlockType::AIR; CHUNK_AREA]);
    for x in 0..16 {
        c.layers[1][idx(x, 3)] = BlockType::DIRT;
    }
    chunks.insert(IVec2::new(-2, 1), c);
    let m = remesh(&chunks, IVec2::new(-2, 1), PlaceMode::BLOCK, PLAIN).unwrap();
    let gy = 16 + 3;
    for x in 0..16 {
        let gx = -32 + x as i32;
        let q = 4 * idx(x, 3);
        let expect_u = if coin(gx) { 2 } else { 1 };
        let expect_v = if coin(gy) { 0 } else { 1 };
        assert_eq!(m.vertices[q].u, expect_u, "column {}", gx);
        assert_eq!(m.vertices[q].v, expect_v);
    }
}
