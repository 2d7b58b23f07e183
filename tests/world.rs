use blockworld::block::{BlockType, PlaceMode};
use blockworld::chunk::{Chunk, Chunks};
use blockworld::codec::{decode_chunk_layers, encode_chunk_layers, DecodeError};
use blockworld::coords::{IVec2, UVec2, CHUNK_AREA};
use blockworld::generation::{generate_chunk, WorldGenPreset};
use blockworld::lighting::{calculate_lighting, light_round_once};
use blockworld::manager::{
    chunk_generator_task, load_chunks, process_chunk_loading_result, save_all_chunks, spawn_chunk,
    try_to_place_block_event, unload_and_save_chunks, ChunkFileRead, ChunkLoadError, SpawnChunk,
    TryPlaceBlock, UnloadChunks,
};
use blockworld::neighbors::{
    get_block, get_neighboring_blocks, get_neighboring_blocks_with_corners,
    get_neighboring_lights,
};

fn filled(walls: BlockType, blocks: BlockType) -> Chunk {
    Chunk::from_layers([walls; CHUNK_AREA], [blocks; CHUNK_AREA])
}

fn idx(x: usize, y: usize) -> usize {
    x + y * 16
}

#[test]
fn store_first_writer_wins() {
    let mut chunks = Chunks::new();
    assert!(chunks.insert(IVec2::new(0, 0), filled(BlockType::DIRT, BlockType::DIRT)));
    assert!(!chunks.insert(IVec2::new(0, 0), filled(BlockType::STONE, BlockType::STONE)));
    assert_eq!(chunks.len(), 1);
    assert_eq!(chunks.get(IVec2::new(0, 0)).unwrap().layers[1][0], BlockType::DIRT);
    assert!(chunks.get(IVec2::new(1, 0)).is_none());
    assert!(chunks.remove(IVec2::new(1, 0)).is_none());
    let removed = chunks.remove(IVec2::new(0, 0)).unwrap();
    assert_eq!(removed.layers[0][5], BlockType::DIRT);
    assert!(!chunks.contains_key(IVec2::new(0, 0)));
    chunks.insert(IVec2::new(2, 2), filled(BlockType::AIR, BlockType::AIR));
    chunks.insert(IVec2::new(-2, 2), filled(BlockType::AIR, BlockType::AIR));
    assert_eq!(chunks.keys().len(), 2);
    chunks.clear();
    assert_eq!(chunks.len(), 0);
}

#[test]
fn neighbour_lookup_crosses_chunks() {
    let mut chunks = Chunks::new();
    let mut a = filled(BlockType::AIR, BlockType::AIR);
    a.layers[1][idx(15, 0)] = BlockType::STONE;
    let mut b = filled(BlockType::AIR, BlockType::AIR);
    b.layers[1][idx(0, 0)] = BlockType::GLASS;
    b.light[idx(0, 0)] = 9;
    chunks.insert(IVec2::new(-1, 0), a);
    chunks.insert(IVec2::new(0, 0), b);
    // Global (0, 0) is the first cell of chunk (0, 0); its left neighbour is in chunk (-1, 0).
    let n = get_neighboring_blocks(&chunks, IVec2::new(0, 0), PlaceMode::BLOCK).unwrap();
    assert_eq!(n, [BlockType::GLASS, BlockType::AIR, BlockType::AIR, BlockType::AIR, BlockType::STONE]);
    assert_eq!(get_block(&chunks, IVec2::new(-1, 0), PlaceMode::BLOCK), BlockType::STONE);
    let l = get_neighboring_lights(&chunks, IVec2::new(1, 0)).unwrap();
    assert_eq!(l, [0, 0, 0, 0, 9]);
    assert!(get_neighboring_blocks(&chunks, IVec2::new(0, 40), PlaceMode::BLOCK).is_none());
    let ring = get_neighboring_blocks_with_corners(&chunks, IVec2::new(0, 1), PlaceMode::BLOCK).unwrap();
    // centre, down, right, up, left, bottom left, ...
    assert_eq!(ring[1], BlockType::GLASS);
    assert_eq!(ring[5], BlockType::STONE);
}

#[test]
fn open_cells_are_fully_lit() {
    let mut chunks = Chunks::new();
    let mut c = filled(BlockType::STONE, BlockType::STONE);
    c.layers[0][idx(3, 3)] = BlockType::AIR;
    c.layers[1][idx(3, 3)] = BlockType::AIR;
    c.layers[0][idx(10, 10)] = BlockType::GLASS;
    c.layers[1][idx(10, 10)] = BlockType::LEAVES;
    c.light = [0; CHUNK_AREA];
    chunks.insert(IVec2::new(0, 0), c);
    calculate_lighting(&mut chunks);
    let lit = chunks.get(IVec2::new(0, 0)).unwrap();
    assert_eq!(lit.light[idx(3, 3)], 15);
    assert_eq!(lit.light[idx(10, 10)], 15);
    assert_eq!(lit.light[idx(4, 3)], 14);
    assert_eq!(lit.light[idx(5, 4)], 12);
    assert_eq!(lit.light[idx(0, 15)], 0);
}

#[test]
fn light_spreads_across_chunks() {
    let mut chunks = Chunks::new();
    chunks.insert(IVec2::new(0, 0), filled(BlockType::AIR, BlockType::AIR));
    chunks.insert(IVec2::new(1, 0), filled(BlockType::STONE, BlockType::STONE));
    calculate_lighting(&mut chunks);
    let right = chunks.get(IVec2::new(1, 0)).unwrap();
    for x in 0..15 {
        assert_eq!(right.light[idx(x, 7)], 14 - x as u8);
    }
    assert_eq!(right.light[idx(15, 7)], 0);
}

#[test]
fn one_round_uses_the_state_before_it() {
    let mut chunks = Chunks::new();
    let mut c = filled(BlockType::STONE, BlockType::STONE);
    c.layers[0][0] = BlockType::AIR;
    c.layers[1][0] = BlockType::AIR;
    chunks.insert(IVec2::new(0, 0), c);
    light_round_once(&mut chunks);
    let after = chunks.get(IVec2::new(0, 0)).unwrap();
    assert_eq!(after.light[0], 15);
    assert_eq!(after.light[1], 0);
}

#[test]
fn lighting_twice_is_stable() {
    let mut chunks = Chunks::new();
    let mut a = filled(BlockType::DIRT, BlockType::AIR);
    a.layers[1][idx(4, 4)] = BlockType::STONE;
    a.light = [15; CHUNK_AREA];
    let mut b = filled(BlockType::STONE, BlockType::PLANKS);
    b.layers[0][idx(8, 2)] = BlockType::GLASS;
    b.layers[1][idx(8, 2)] = BlockType::AIR;
    b.light = [7; CHUNK_AREA];
    chunks.insert(IVec2::new(0, 0), a);
    chunks.insert(IVec2::new(0, -1), b);
    chunks.insert(IVec2::new(1, -1), filled(BlockType::STONE, BlockType::STONE));
    calculate_lighting(&mut chunks);
    let first: Vec<[u8; CHUNK_AREA]> = chunks.keys().iter().map(|k| chunks.get(*k).unwrap().light).collect();
    calculate_lighting(&mut chunks);
    let second: Vec<[u8; CHUNK_AREA]> = chunks.keys().iter().map(|k| chunks.get(*k).unwrap().light).collect();
    assert_eq!(first, second);
}

fn place(chunks: &mut Chunks, x: u32, y: u32, layer: PlaceMode, block_type: BlockType) -> bool {
    let ev = TryPlaceBlock { position: UVec2::new(x, y), chunk_position: IVec2::new(0, 0), layer, block_type };
    try_to_place_block_event(chunks, &ev)
}

#[test]
fn placement_needs_support() {
    let mut chunks = Chunks::new();
    chunks.insert(IVec2::new(0, 0), filled(BlockType::AIR, BlockType::AIR));
    assert!(!place(&mut chunks, 5, 5, PlaceMode::BLOCK, BlockType::STONE));
    assert_eq!(chunks.get(IVec2::new(0, 0)).unwrap().layers[1][idx(5, 5)], BlockType::AIR);

    let mut with_neighbour = filled(BlockType::AIR, BlockType::AIR);
    with_neighbour.layers[1][idx(5, 6)] = BlockType::DIRT;
    chunks.clear();
    chunks.insert(IVec2::new(0, 0), with_neighbour);
    assert!(place(&mut chunks, 5, 5, PlaceMode::BLOCK, BlockType::STONE));
    assert_eq!(chunks.get(IVec2::new(0, 0)).unwrap().layers[1][idx(5, 5)], BlockType::STONE);
    // The cell is taken now.
    assert!(!place(&mut chunks, 5, 5, PlaceMode::BLOCK, BlockType::GRASS));
}

#[test]
fn placement_on_wall_succeeds() {
    let mut chunks = Chunks::new();
    let mut c = filled(BlockType::AIR, BlockType::AIR);
    c.layers[0][idx(2, 2)] = BlockType::PLANKS;
    chunks.insert(IVec2::new(0, 0), c);
    assert!(place(&mut chunks, 2, 2, PlaceMode::BLOCK, BlockType::GLASS));
    assert!(place(&mut chunks, 2, 3, PlaceMode::WALL, BlockType::DIRT));
    assert!(!place(&mut chunks, 9, 9, PlaceMode::WALL, BlockType::DIRT));
}

#[test]
fn removal_needs_a_block() {
    let mut chunks = Chunks::new();
    let mut c = filled(BlockType::AIR, BlockType::AIR);
    c.layers[1][idx(1, 1)] = BlockType::STONE;
    chunks.insert(IVec2::new(0, 0), c);
    assert!(!place(&mut chunks, 0, 0, PlaceMode::BLOCK, BlockType::AIR));
    assert!(place(&mut chunks, 1, 1, PlaceMode::BLOCK, BlockType::AIR));
    assert_eq!(chunks.get(IVec2::new(0, 0)).unwrap().layers[1][idx(1, 1)], BlockType::AIR);
    let ev = TryPlaceBlock {
        position: UVec2::new(0, 0),
        chunk_position: IVec2::new(3, 3),
        layer: PlaceMode::BLOCK,
        block_type: BlockType::STONE,
    };
    assert!(!try_to_place_block_event(&mut chunks, &ev));
}

#[test]
fn placement_supported_from_neighbour_chunk() {
    let mut chunks = Chunks::new();
    chunks.insert(IVec2::new(0, 0), filled(BlockType::AIR, BlockType::AIR));
    let mut left = filled(BlockType::AIR, BlockType::AIR);
    left.layers[0][idx(15, 4)] = BlockType::COBBLESTONE;
    chunks.insert(IVec2::new(-1, 0), left);
    assert!(place(&mut chunks, 0, 4, PlaceMode::BLOCK, BlockType::DIRT));
}

fn mixed_layers() -> [[BlockType; CHUNK_AREA]; 2] {
    let kinds = [
        BlockType::AIR,
        BlockType::GRASS,
        BlockType::DIRT,
        BlockType::STONE,
        BlockType::COBBLESTONE,
        BlockType::PLANKS,
        BlockType::TREE_LOG,
        BlockType::LEAVES,
        BlockType::GLASS,
        BlockType::SIZE,
    ];
    let mut layers = [[BlockType::AIR; CHUNK_AREA]; 2];
    for i in 0..CHUNK_AREA {
        layers[0][i] = kinds[i % 10];
        layers[1][i] = kinds[(i * 7 + 3) % 10];
    }
    layers
}

#[test]
fn encoding_round_trip() {
    let layers = mixed_layers();
    let bytes = encode_chunk_layers(&layers);
    assert_eq!(bytes.len(), 2048);
    assert_eq!(decode_chunk_layers(&bytes), Ok(layers));
}

#[test]
fn encoding_is_little_endian_ordinals() {
    let layers = mixed_layers();
    let bytes = encode_chunk_layers(&layers);
    assert_eq!(&bytes[0..12], &[0, 0, 0, 0, 1, 0, 0, 0, 2, 0, 0, 0]);
    // Block layer starts after 256 words; its first cell is ordinal 3.
    assert_eq!(&bytes[1024..1028], &[3, 0, 0, 0]);
}

#[test]
fn decoding_errors() {
    let layers = mixed_layers();
    let mut bytes = encode_chunk_layers(&layers);
    assert_eq!(decode_chunk_layers(&bytes[..2047]), Err(DecodeError::Truncated));
    assert_eq!(decode_chunk_layers(&[]), Err(DecodeError::Truncated));
    bytes.push(77);
    assert_eq!(decode_chunk_layers(&bytes), Ok(layers));
    bytes[4 * 300] = 10;
    assert_eq!(decode_chunk_layers(&bytes), Err(DecodeError::UnknownBlock));
    bytes[4 * 300] = 1;
    bytes[4 * 300 + 3] = 1;
    assert_eq!(decode_chunk_layers(&bytes), Err(DecodeError::UnknownBlock));
}

const NO_SURFACE: [i32; 16] = [0; 16];

#[test]
fn flat_preset_strata() {
    let g = generate_chunk(IVec2::new(0, 0), WorldGenPreset::FLAT, &NO_SURFACE);
    for y in 0..16 {
        for x in 0..16 {
            let expected = if y == 8 {
                BlockType::GRASS
            } else if y < 8 {
                BlockType::DIRT
            } else {
                BlockType::AIR
            };
            assert_eq!(g.blocks[idx(x, y)], expected);
            assert_eq!(g.walls[idx(x, y)], expected);
        }
    }
    for cy in [-1, -2] {
        let g = generate_chunk(IVec2::new(4, cy), WorldGenPreset::FLAT, &NO_SURFACE);
        assert!(g.blocks.iter().all(|b| *b == BlockType::DIRT));
        assert!(g.walls.iter().all(|b| *b == BlockType::DIRT));
    }
    for cy in [-3, -10] {
        let g = generate_chunk(IVec2::new(-4, cy), WorldGenPreset::FLAT, &NO_SURFACE);
        assert!(g.blocks.iter().all(|b| *b == BlockType::STONE));
    }
    let g = generate_chunk(IVec2::new(0, 1), WorldGenPreset::FLAT, &NO_SURFACE);
    assert!(g.blocks.iter().all(|b| *b == BlockType::AIR));
}

#[test]
fn empty_preset_pattern() {
    let g = generate_chunk(IVec2::new(0, 0), WorldGenPreset::EMPTY, &NO_SURFACE);
    for i in 0..CHUNK_AREA {
        assert_eq!(g.blocks[i], if i < 8 { BlockType::STONE } else { BlockType::AIR });
        assert_eq!(g.walls[i], BlockType::AIR);
    }
    let g = generate_chunk(IVec2::new(-1, 0), WorldGenPreset::EMPTY, &NO_SURFACE);
    for i in 0..CHUNK_AREA {
        assert_eq!(g.blocks[i], if (8..16).contains(&i) { BlockType::STONE } else { BlockType::AIR });
    }
    let g = generate_chunk(IVec2::new(1, 0), WorldGenPreset::EMPTY, &NO_SURFACE);
    assert!(g.blocks.iter().all(|b| *b == BlockType::AIR));
}

#[test]
fn default_preset_follows_surface() {
    let mut surface = [0i32; 16];
    for x in 0..16 {
        surface[x] = 16 + x as i32 - 8;
    }
    let g = generate_chunk(IVec2::new(3, 1), WorldGenPreset::DEFAULT, &surface);
    for x in 0..16 {
        for y in 0..16 {
            let gy = 16 + y as i32;
            let expected = if gy == surface[x] {
                BlockType::GRASS
            } else if gy < surface[x] {
                BlockType::DIRT
            } else {
                BlockType::AIR
            };
            assert_eq!(g.blocks[idx(x, y)], expected);
            assert_eq!(g.walls[idx(x, y)], expected);
        }
    }
    // Deterministic: the same input gives the same chunk.
    let again = generate_chunk(IVec2::new(3, 1), WorldGenPreset::DEFAULT, &surface);
    assert_eq!(g.blocks, again.blocks);
}

#[test]
fn load_sweep_skips_loaded_chunks() {
    let mut chunks = Chunks::new();
    chunks.insert(IVec2::new(0, 0), filled(BlockType::AIR, BlockType::AIR));
    let todo = load_chunks(&chunks, IVec2::new(0, 1), IVec2::new(1, 0));
    // x from -1 to 2, y from -1 to 2: 16 chunks, one of them loaded.
    assert_eq!(todo.len(), 15);
    assert!(!todo.contains(&IVec2::new(0, 0)));
    assert!(todo.contains(&IVec2::new(-1, -1)));
    assert!(todo.contains(&IVec2::new(2, 2)));
    assert!(!todo.contains(&IVec2::new(3, 0)));
    assert_eq!(todo[0], IVec2::new(-1, -1));
}

#[test]
fn generator_task_outcomes() {
    let pos = IVec2::new(2, -3);
    let generated = chunk_generator_task(pos, WorldGenPreset::FLAT, &NO_SURFACE, ChunkFileRead::NotFound).unwrap();
    assert_eq!(generated.position, pos);
    assert!(generated.chunk.layers[1].iter().all(|b| *b == BlockType::STONE));
    assert!(generated.chunk.light.iter().all(|l| *l == 0));

    let layers = mixed_layers();
    let bytes = encode_chunk_layers(&layers);
    let loaded = chunk_generator_task(pos, WorldGenPreset::FLAT, &NO_SURFACE, ChunkFileRead::Bytes(bytes)).unwrap();
    assert_eq!(loaded.chunk.layers, layers);

    let bad = chunk_generator_task(pos, WorldGenPreset::FLAT, &NO_SURFACE, ChunkFileRead::Bytes(vec![1, 2, 3]));
    assert!(matches!(bad, Err(ChunkLoadError::Decode(DecodeError::Truncated))));
    let failed = chunk_generator_task(pos, WorldGenPreset::FLAT, &NO_SURFACE, ChunkFileRead::Failed);
    assert!(matches!(failed, Err(ChunkLoadError::Io)));
}

#[test]
fn late_loads_are_dropped() {
    let mut chunks = Chunks::new();
    let pos = IVec2::new(0, 0);
    assert!(spawn_chunk(&mut chunks, SpawnChunk { position: pos, chunk: filled(BlockType::DIRT, BlockType::DIRT) }));
    let late = Ok(SpawnChunk { position: pos, chunk: filled(BlockType::STONE, BlockType::STONE) });
    assert!(!process_chunk_loading_result(&mut chunks, pos, WorldGenPreset::FLAT, &NO_SURFACE, late));
    assert_eq!(chunks.get(pos).unwrap().layers[0][0], BlockType::DIRT);
}

#[test]
fn corrupt_files_fall_back_to_generation() {
    let mut chunks = Chunks::new();
    let pos = IVec2::new(0, -1);
    let corrupt = Err(ChunkLoadError::Decode(DecodeError::UnknownBlock));
    assert!(process_chunk_loading_result(&mut chunks, pos, WorldGenPreset::FLAT, &NO_SURFACE, corrupt));
    assert!(chunks.get(pos).unwrap().layers[1].iter().all(|b| *b == BlockType::DIRT));
    let io = Err(ChunkLoadError::Io);
    assert!(!process_chunk_loading_result(&mut chunks, IVec2::new(5, 5), WorldGenPreset::FLAT, &NO_SURFACE, io));
    assert!(!chunks.contains_key(IVec2::new(5, 5)));
}

#[test]
fn save_and_unload() {
    let mut chunks = Chunks::new();
    chunks.insert(IVec2::new(0, 0), filled(BlockType::DIRT, BlockType::GRASS));
    chunks.insert(IVec2::new(1, 0), filled(BlockType::STONE, BlockType::AIR));
    let saved = save_all_chunks(&chunks);
    assert_eq!(saved.len(), 2);
    for (pos, bytes) in &saved {
        let layers = decode_chunk_layers(bytes).unwrap();
        assert_eq!(layers, chunks.get(*pos).unwrap().layers);
    }
    let views = vec![(IVec2::new(0, 0), true), (IVec2::new(1, 0), false), (IVec2::new(9, 9), false)];
    let out = unload_and_save_chunks(&mut chunks, &views, UnloadChunks { force: false });
    assert_eq!(out.len(), 1);
    assert_eq!(out[0].0, IVec2::new(1, 0));
    assert!(chunks.contains_key(IVec2::new(0, 0)));
    assert!(!chunks.contains_key(IVec2::new(1, 0)));
    let out = unload_and_save_chunks(&mut chunks, &views, UnloadChunks { force: true });
    assert_eq!(out.len(), 1);
    assert_eq!(chunks.len(), 0);
}
