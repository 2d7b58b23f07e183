use vstd::prelude::*;

use crate::block::BlockType;
use crate::coords::{
    get_position_from_index, lemma_index_round_trip, relative_from_index, IVec2,
    CHUNK_AREA, CHUNK_WIDTH,
};

verus! {

/// How new terrain is laid out.
#[derive(Clone, Copy, Debug, PartialEq, Eq, Structural, Hash)]
pub enum WorldGenPreset {
    /// Grass on a rolling surface, dirt below it.
    DEFAULT,
    /// Horizontal strata: a grass row in chunk row 0, dirt under it, stone deeper.
    FLAT,
    /// Two half-rows of stone around the origin, nothing else.
    EMPTY,
}

/// Block and wall layers of a freshly generated chunk.
#[derive(Clone, Copy, Debug)]
pub struct ChunkGenerationResult {
    pub blocks: [BlockType; CHUNK_AREA],
    pub walls: [BlockType; CHUNK_AREA],
}

/// Rolling terrain: grass where the global row equals the column's surface
/// height, dirt below it, air above.
pub open spec fn default_cell(cy: int, surface: Seq<i32>, i: int) -> BlockType {
    let r = relative_from_index(i);
    let gy = cy * 16 + r.1;
    let s = surface[r.0] as int;
    if gy == s {
        BlockType::GRASS
    } else if gy < s {
        BlockType::DIRT
    } else {
        BlockType::AIR
    }
}

/// Flat strata by chunk row: in row 0 grass at `y == 8`, dirt below, air
/// above; rows -1 and -2 all dirt; rows below all stone; rows above all air.
pub open spec fn flat_cell(cy: int, i: int) -> BlockType {
    let y = relative_from_index(i).1;
    if cy == 0 {
        if y == 8 {
            BlockType::GRASS
        } else if y < 8 {
            BlockType::DIRT
        } else {
            BlockType::AIR
        }
    } else if -2 <= cy < 0 {
        BlockType::DIRT
    } else if cy < -2 {
        BlockType::STONE
    } else {
        BlockType::AIR
    }
}

/// The test pattern: cells 0..8 of chunk (0, 0) and cells 8..16 of chunk
/// (-1, 0) are stone in the block layer.
pub open spec fn empty_block_cell(c: (int, int), i: int) -> BlockType {
    if c == (0int, 0int) && 0 <= i < 8 {
        BlockType::STONE
    } else if c == (-1int, 0int) && 8 <= i < 16 {
        BlockType::STONE
    } else {
        BlockType::AIR
    }
}

pub open spec fn generated_block(
    c: (int, int),
    preset: WorldGenPreset,
    surface: Seq<i32>,
    i: int,
) -> BlockType {
    match preset {
        WorldGenPreset::DEFAULT => default_cell(c.1, surface, i),
        WorldGenPreset::FLAT => flat_cell(c.1, i),
        WorldGenPreset::EMPTY => empty_block_cell(c, i),
    }
}

pub open spec fn generated_wall(
    c: (int, int),
    preset: WorldGenPreset,
    surface: Seq<i32>,
    i: int,
) -> BlockType {
    match preset {
        WorldGenPreset::DEFAULT => default_cell(c.1, surface, i),
        WorldGenPreset::FLAT => flat_cell(c.1, i),
        WorldGenPreset::EMPTY => BlockType::AIR,
    }
}

fn generated_cells(
    chunk_pos: IVec2,
    world_preset: WorldGenPreset,
    surface: &[i32; CHUNK_WIDTH],
    i: usize,
) -> (r: (BlockType, BlockType))
    requires
        i < CHUNK_AREA,
    ensures
        r.0 == generated_block(chunk_pos@, world_preset, surface@, i as int),
        r.1 == generated_wall(chunk_pos@, world_preset, surface@, i as int),
{
    proof {
        lemma_index_round_trip(i as int);
    }
    let pos = get_position_from_index(i);
    match world_preset {
        WorldGenPreset::DEFAULT => {
            let gy: i64 = chunk_pos.y as i64 * CHUNK_WIDTH as i64 + pos.y as i64;
            let s = surface[pos.x as usize] as i64;
            let b = if gy == s {
                BlockType::GRASS
            } else if gy < s {
                BlockType::DIRT
            } else {
                BlockType::AIR
            };
            (b, b)
        },
        WorldGenPreset::FLAT => {
            let half = (CHUNK_WIDTH / 2) as u32;
            let b = if chunk_pos.y == 0 {
                if pos.y == half {
                    BlockType::GRASS
                } else if pos.y < half {
                    BlockType::DIRT
                } else {
                    BlockType::AIR
                }
            } else if chunk_pos.y < 0 && chunk_pos.y >= -2 {
                BlockType::DIRT
            } else if chunk_pos.y < -2 {
                BlockType::STONE
            } else {
                BlockType::AIR
            };
            (b, b)
        },
        WorldGenPreset::EMPTY => {
            let half = CHUNK_WIDTH / 2;
            let b = if chunk_pos.x == 0 && chunk_pos.y == 0 && i < half {
                BlockType::STONE
            } else if chunk_pos.x == -1 && chunk_pos.y == 0 && half <= i && i < CHUNK_WIDTH {
                BlockType::STONE
            } else {
                BlockType::AIR
            };
            (b, BlockType::AIR)
        },
    }
}

/// Synthesises the layers of a chunk from its coordinate and the preset.
/// `surface[x]` is the surface height (a global block row) of column `x`,
/// which only the `DEFAULT` preset reads.
pub fn generate_chunk(
    chunk_pos: IVec2,
    world_preset: WorldGenPreset,
    surface: &[i32; CHUNK_WIDTH],
) -> (r: ChunkGenerationResult)
    ensures
        r.blocks@ == Seq::new(
            CHUNK_AREA as nat,
            |i: int| generated_block(chunk_pos@, world_preset, surface@, i),
        ),
        r.walls@ == Seq::new(
            CHUNK_AREA as nat,
            |i: int| generated_wall(chunk_pos@, world_preset, surface@, i),
        ),
{
    let mut blocks = [BlockType::AIR; CHUNK_AREA];
    let mut walls = [BlockType::AIR; CHUNK_AREA];
    let mut i: usize = 0;
    while i < CHUNK_AREA
        invariant
            i <= CHUNK_AREA,
            forall|j: int|
                0 <= j < i ==> blocks@[j] == generated_block(chunk_pos@, world_preset, surface@, j)
                    && walls@[j] == generated_wall(chunk_pos@, world_preset, surface@, j),
        decreases CHUNK_AREA - i,
    {
        let (b, w) = generated_cells(chunk_pos, world_preset, surface, i);
        blocks[i] = b;
        walls[i] = w;
        i += 1;
    }
    assert(blocks@ =~= Seq::new(
        CHUNK_AREA as nat,
        |i: int| generated_block(chunk_pos@, world_preset, surface@, i),
    ));
    assert(walls@ =~= Seq::new(
        CHUNK_AREA as nat,
        |i: int| generated_wall(chunk_pos@, world_preset, surface@, i),
    ));
    ChunkGenerationResult { blocks, walls }
}

/// The flat preset's strata, for every chunk coordinate: in chunk row 0 a
/// grass row at `y == 8` with dirt below and air above; rows -1 and -2 all
/// dirt; rows at or below -3 all stone. Blocks and walls agree.
pub proof fn lemma_flat_strata(c: (int, int), surface: Seq<i32>)
    ensures
        forall|x: int, y: int|
            0 <= x < CHUNK_WIDTH && 0 <= y < CHUNK_WIDTH ==> {
                let b = #[trigger] generated_block(c, WorldGenPreset::FLAT, surface, x + y * 16);
                &&& b == generated_wall(c, WorldGenPreset::FLAT, surface, x + y * 16)
                &&& c.1 == 0 && y == 8 ==> b == BlockType::GRASS
                &&& c.1 == 0 && y < 8 ==> b == BlockType::DIRT
                &&& c.1 == 0 && y > 8 ==> b == BlockType::AIR
                &&& -2 <= c.1 <= -1 ==> b == BlockType::DIRT
                &&& c.1 <= -3 ==> b == BlockType::STONE
            },
{
    assert forall|x: int, y: int| 0 <= x < CHUNK_WIDTH && 0 <= y < CHUNK_WIDTH implies {
        let b = #[trigger] generated_block(c, WorldGenPreset::FLAT, surface, x + y * 16);
        &&& b == generated_wall(c, WorldGenPreset::FLAT, surface, x + y * 16)
        &&& c.1 == 0 && y == 8 ==> b == BlockType::GRASS
        &&& c.1 == 0 && y < 8 ==> b == BlockType::DIRT
        &&& c.1 == 0 && y > 8 ==> b == BlockType::AIR
        &&& -2 <= c.1 <= -1 ==> b == BlockType::DIRT
        &&& c.1 <= -3 ==> b == BlockType::STONE
    } by {
        assert(relative_from_index(x + y * 16) == (x, y)) by (nonlinear_arith)
            requires
                0 <= x < 16,
                0 <= y < 16,
        ;
    }
}

} // verus!
