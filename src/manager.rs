use vstd::prelude::*;

use crate::block::{BlockType, PlaceMode};
use crate::chunk::{block_or_air, cross_direction, offset, Chunk, ChunkView, Chunks};
use crate::codec::{
    decodable, decode_chunk_layers, encode_chunk_layers, layers_bytes, DecodeError,
    ENCODED_CHUNK_LEN,
};
use crate::coords::{
    chunk_in_range, get_global_position, get_index_from_position, global_of, in_chunk_bounds,
    index_of, IVec2, UVec2, CHUNK_AREA, CHUNK_LIMIT, CHUNK_WIDTH,
};
use crate::generation::{generate_chunk, generated_block, generated_wall, WorldGenPreset};
use crate::neighbors::get_neighboring_blocks;

verus! {

/// Request to place a block, or to remove one when `block_type` is `AIR`.
#[derive(Clone, Copy, Debug, PartialEq, Eq, Structural)]
pub struct TryPlaceBlock {
    pub position: UVec2,
    pub chunk_position: IVec2,
    pub layer: PlaceMode,
    pub block_type: BlockType,
}

/// A chunk ready to enter the store.
#[derive(Clone, Copy, Debug)]
pub struct SpawnChunk {
    pub position: IVec2,
    pub chunk: Chunk,
}

/// Request to unload the chunks out of view, or all of them when `force`.
#[derive(Clone, Copy, Debug, PartialEq, Eq, Structural)]
pub struct UnloadChunks {
    pub force: bool,
}

/// What reading a chunk's file gave.
#[derive(Debug)]
pub enum ChunkFileRead {
    Bytes(Vec<u8>),
    NotFound,
    Failed,
}

/// Why a chunk could not be loaded.
#[derive(Clone, Copy, Debug, PartialEq, Eq, Structural)]
pub enum ChunkLoadError {
    /// The file's bytes are not a chunk.
    Decode(DecodeError),
    /// The file exists but could not be read.
    Io,
}

/// The cell a placement request targets, as a layer and index.
pub open spec fn target_cell(m: Map<(int, int), ChunkView>, ev: TryPlaceBlock) -> BlockType {
    m[ev.chunk_position@].layer(ev.layer.spec_index())[index_of(ev.position@)]
}

/// Whether the `k`-th cell of the five-cell neighbourhood of `g` (see
/// `cross_direction`) holds a block or a wall.
pub open spec fn supports(m: Map<(int, int), ChunkView>, g: (int, int), k: int) -> bool {
    let p = offset(g, cross_direction(k));
    block_or_air(m, p, 1) != BlockType::AIR || block_or_air(m, p, 0) != BlockType::AIR
}

/// Some block or wall at the position or one of its four neighbours.
pub open spec fn has_support(m: Map<(int, int), ChunkView>, g: (int, int)) -> bool {
    exists|k: int| 0 <= k < 5 && #[trigger] supports(m, g, k)
}

/// Whether a placement request changes the world: its chunk is loaded, and
/// either it places a block into an air cell that has support, or it removes
/// a block from a cell that holds one.
pub open spec fn placement_applies(m: Map<(int, int), ChunkView>, ev: TryPlaceBlock) -> bool {
    &&& m.contains_key(ev.chunk_position@)
    &&& if ev.block_type != BlockType::AIR {
        target_cell(m, ev) == BlockType::AIR && has_support(
            m,
            global_of(ev.chunk_position@, ev.position@),
        )
    } else {
        target_cell(m, ev) != BlockType::AIR
    }
}

/// The world with the request's cell set to its block type.
pub open spec fn placed(m: Map<(int, int), ChunkView>, ev: TryPlaceBlock) -> Map<(int, int), ChunkView> {
    m.insert(
        ev.chunk_position@,
        m[ev.chunk_position@].with_cell(ev.layer, index_of(ev.position@), ev.block_type),
    )
}

fn any_solid(n: &[BlockType; 5]) -> (r: bool)
    ensures
        r == exists|k: int| 0 <= k < 5 && n[k] != BlockType::AIR,
{
    let mut k: usize = 0;
    while k < 5
        invariant
            k <= 5,
            forall|j: int| 0 <= j < k ==> n[j] == BlockType::AIR,
        decreases 5 - k,
    {
        if n[k].is_solid() {
            return true;
        }
        k += 1;
    }
    false
}

/// Applies a placement request. A block goes only into an air cell with a
/// block or wall at it or next to it; a removal needs a block to remove.
/// Returns whether the world changed (lighting, meshes and colliders are
/// then due).
pub fn try_to_place_block_event(chunks_res: &mut Chunks, ev: &TryPlaceBlock) -> (r: bool)
    requires
        old(chunks_res).wf(),
        in_chunk_bounds(ev.position@),
    ensures
        final(chunks_res).wf(),
        r == placement_applies(old(chunks_res)@, *ev),
        r ==> final(chunks_res)@ == placed(old(chunks_res)@, *ev),
        !r ==> final(chunks_res)@ == old(chunks_res)@,
{
    let current = match chunks_res.get(ev.chunk_position) {
        None => {
            return false;
        },
        Some(chunk) => {
            let index = get_index_from_position(ev.position);
            chunk.layers[ev.layer.index()][index]
        },
    };
    let index = get_index_from_position(ev.position);
    if ev.block_type.is_solid() {
        if current.is_solid() {
            return false;
        }
        proof {
            chunks_res.lemma_wf_view();
        }
        let global_position = get_global_position(ev.chunk_position, ev.position);
        let block_neighbors = get_neighboring_blocks(chunks_res, global_position, PlaceMode::BLOCK);
        let block_neighbors = block_neighbors.unwrap();
        let wall_neighbors = get_neighboring_blocks(chunks_res, global_position, PlaceMode::WALL);
        let wall_neighbors = wall_neighbors.unwrap();
        let supported = any_solid(&block_neighbors) || any_solid(&wall_neighbors);
        proof {
            let g = global_of(ev.chunk_position@, ev.position@);
            if supported {
                let k = if exists|k: int| 0 <= k < 5 && block_neighbors[k] != BlockType::AIR {
                    choose|k: int| 0 <= k < 5 && block_neighbors[k] != BlockType::AIR
                } else {
                    choose|k: int| 0 <= k < 5 && wall_neighbors[k] != BlockType::AIR
                };
                assert(supports(chunks_res@, g, k));
            } else {
                assert forall|k: int| 0 <= k < 5 implies !#[trigger] supports(chunks_res@, g, k) by {
                    assert(block_neighbors[k] == BlockType::AIR);
                    assert(wall_neighbors[k] == BlockType::AIR);
                }
            }
        }
        if !supported {
            return false;
        }
        chunks_res.set_block(ev.chunk_position, ev.layer, index, ev.block_type);
    } else {
        if !current.is_solid() {
            return false;
        }
        chunks_res.set_block(ev.chunk_position, ev.layer, index, BlockType::AIR);
    }
    true
}

/// Placing a block in the block layer into an air cell: accepted exactly
/// when one of the four neighbours holds a block or a wall, or a wall lies
/// beneath the cell.
pub proof fn lemma_placement_rule(m: Map<(int, int), ChunkView>, ev: TryPlaceBlock)
    requires
        m.contains_key(ev.chunk_position@),
        ev.layer == PlaceMode::BLOCK,
        ev.block_type != BlockType::AIR,
        target_cell(m, ev) == BlockType::AIR,
        block_or_air(m, global_of(ev.chunk_position@, ev.position@), 1) == BlockType::AIR,
    ensures
        ({
            let g = global_of(ev.chunk_position@, ev.position@);
            placement_applies(m, ev) <==> (block_or_air(m, g, 0) != BlockType::AIR || exists|k: int|
                1 <= k < 5 && #[trigger] supports(m, g, k))
        }),
{
    let g = global_of(ev.chunk_position@, ev.position@);
    assert(offset(g, cross_direction(0)) == g);
    if has_support(m, g) {
        let k = choose|k: int| 0 <= k < 5 && #[trigger] supports(m, g, k);
        if k > 0 {
            assert(1 <= k < 5 && supports(m, g, k));
        }
    }
    if block_or_air(m, g, 0) != BlockType::AIR {
        assert(supports(m, g, 0));
    }
    if exists|k: int| 1 <= k < 5 && #[trigger] supports(m, g, k) {
        let k = choose|k: int| 1 <= k < 5 && #[trigger] supports(m, g, k);
        assert(0 <= k < 5 && supports(m, g, k));
    }
}

/// Puts a finished chunk into the store unless its coordinate is taken
/// already (a load that finished late is dropped). Returns whether it went in.
pub fn spawn_chunk(chunks_res: &mut Chunks, ev: SpawnChunk) -> (r: bool)
    requires
        old(chunks_res).wf(),
        chunk_in_range(ev.position@),
    ensures
        final(chunks_res).wf(),
        r == !old(chunks_res)@.contains_key(ev.position@),
        r ==> final(chunks_res)@ == old(chunks_res)@.insert(ev.position@, ev.chunk@),
        !r ==> final(chunks_res)@ == old(chunks_res)@,
{
    chunks_res.insert(ev.position, ev.chunk)
}

/// Whether a chunk coordinate lies in the load sweep around a viewport whose
/// corner chunks are `top_left` and `bottom_right` (one chunk of margin on
/// the left, right and bottom, and on top as far as `top_left.y + 1`).
pub open spec fn in_load_sweep(p: (int, int), top_left: (int, int), bottom_right: (int, int)) -> bool {
    &&& bottom_right.1 - 1 <= p.1 < top_left.1 + 2
    &&& top_left.0 - 1 <= p.0 < bottom_right.0 + 2
}

/// A coordinate of the sweep that a row-by-row walk reaches before `(x, y)`.
pub open spec fn swept_before(
    p: (int, int),
    top_left: (int, int),
    bottom_right: (int, int),
    y: int,
    x: int,
) -> bool {
    in_load_sweep(p, top_left, bottom_right) && (p.1 < y || (p.1 == y && p.0 < x))
}

pub open spec fn listed(s: Seq<IVec2>, p: (int, int)) -> bool {
    exists|i: int| 0 <= i < s.len() && s[i]@ == p
}

/// Chunk coordinates to load for a viewport: those of the sweep that are in
/// range and not loaded yet, each once.
pub fn load_chunks(chunks_res: &Chunks, top_left: IVec2, bottom_right: IVec2) -> (r: Vec<IVec2>)
    requires
        chunks_res.wf(),
        chunk_in_range(top_left@),
        chunk_in_range(bottom_right@),
    ensures
        forall|p: (int, int)|
            #[trigger] listed(r@, p) <==> (in_load_sweep(p, top_left@, bottom_right@)
                && chunk_in_range(p) && !chunks_res@.contains_key(p)),
        forall|i: int, j: int| 0 <= i < j < r@.len() ==> r@[i]@ != r@[j]@,
{
    let mut r: Vec<IVec2> = Vec::new();
    let y_start: i32 = bottom_right.y - 1;
    let y_end: i32 = top_left.y + 2;
    let x_start: i32 = top_left.x - 1;
    let x_end: i32 = bottom_right.x + 2;
    let mut y: i32 = y_start;
    while y < y_end
        invariant
            chunks_res.wf(),
            y_start == bottom_right.y - 1,
            y_end == top_left.y + 2,
            x_start == top_left.x - 1,
            x_end == bottom_right.x + 2,
            y_start <= y,
            y == y_start || y <= y_end,
            chunk_in_range(top_left@),
            chunk_in_range(bottom_right@),
            forall|p: (int, int)|
                #[trigger] listed(r@, p) <==> (swept_before(p, top_left@, bottom_right@, y as int, x_start as int)
                    && chunk_in_range(p) && !chunks_res@.contains_key(p)),
            forall|i: int, j: int| 0 <= i < j < r@.len() ==> r@[i]@ != r@[j]@,
        decreases y_end - y,
    {
        let mut x: i32 = x_start;
        while x < x_end
            invariant
                chunks_res.wf(),
                y_start == bottom_right.y - 1,
                y_end == top_left.y + 2,
                x_start == top_left.x - 1,
                x_end == bottom_right.x + 2,
                y_start <= y < y_end,
                x_start <= x,
                x == x_start || x <= x_end,
                chunk_in_range(top_left@),
                chunk_in_range(bottom_right@),
                forall|p: (int, int)|
                    #[trigger] listed(r@, p) <==> (swept_before(p, top_left@, bottom_right@, y as int, x as int)
                        && chunk_in_range(p) && !chunks_res@.contains_key(p)),
                forall|i: int, j: int| 0 <= i < j < r@.len() ==> r@[i]@ != r@[j]@,
            decreases x_end - x,
        {
            let p = IVec2 { x, y };
            let in_range = -CHUNK_LIMIT <= x && x < CHUNK_LIMIT && -CHUNK_LIMIT <= y && y < CHUNK_LIMIT;
            let ghost prev = r@;
            if in_range && !chunks_res.contains_key(p) {
                r.push(p);
                proof {
                    assert(!listed(prev, p@));
                    assert forall|a: int, b: int| 0 <= a < b < r@.len() implies r@[a]@ != r@[b]@ by {
                        if b == prev.len() {
                            assert(r@[a] == prev[a]);
                        }
                    }
                    assert forall|q: (int, int)|
                        #[trigger] listed(r@, q) <==> (swept_before(q, top_left@, bottom_right@, y as int, x + 1)
                            && chunk_in_range(q) && !chunks_res@.contains_key(q)) by {
                        if listed(r@, q) {
                            let i = choose|i: int| 0 <= i < r@.len() && r@[i]@ == q;
                            if i < prev.len() {
                                assert(prev[i]@ == q);
                                assert(listed(prev, q));
                            }
                        }
                        if q == p@ {
                            assert(r@[prev.len() as int]@ == q);
                        } else if listed(prev, q) {
                            let i = choose|i: int| 0 <= i < prev.len() && prev[i]@ == q;
                            assert(r@[i]@ == q);
                        }
                    }
                }
            } else {
                proof {
                    assert forall|q: (int, int)|
                        #[trigger] listed(r@, q) <==> (swept_before(q, top_left@, bottom_right@, y as int, x + 1)
                            && chunk_in_range(q) && !chunks_res@.contains_key(q)) by {
                        assert(listed(prev, q) == listed(r@, q));
                    }
                }
            }
            x += 1;
        }
        proof {
            assert forall|q: (int, int)|
                #[trigger] listed(r@, q) <==> (swept_before(q, top_left@, bottom_right@, y + 1, x_start as int)
                    && chunk_in_range(q) && !chunks_res@.contains_key(q)) by {
                assert(swept_before(q, top_left@, bottom_right@, y as int, x as int)
                    == swept_before(q, top_left@, bottom_right@, y + 1, x_start as int));
            }
        }
        y += 1;
    }
    proof {
        assert forall|q: (int, int)|
            #[trigger] listed(r@, q) <==> (in_load_sweep(q, top_left@, bottom_right@)
                && chunk_in_range(q) && !chunks_res@.contains_key(q)) by {
            assert(swept_before(q, top_left@, bottom_right@, y as int, x_start as int)
                == in_load_sweep(q, top_left@, bottom_right@));
        }
    }
    r
}

/// A freshly generated chunk: generated layers, every cell dark.
pub open spec fn generated_view(c: (int, int), preset: WorldGenPreset, surface: Seq<i32>) -> ChunkView {
    ChunkView {
        walls: Seq::new(CHUNK_AREA as nat, |i: int| generated_wall(c, preset, surface, i)),
        blocks: Seq::new(CHUNK_AREA as nat, |i: int| generated_block(c, preset, surface, i)),
        light: Seq::new(CHUNK_AREA as nat, |i: int| 0u8),
    }
}

/// Turns what reading a chunk's file gave into a chunk: stored bytes are
/// decoded, a missing file means the chunk is generated, and a failed read
/// is an error. Loaded and generated chunks start dark.
pub fn chunk_generator_task(
    chunk_pos: IVec2,
    world_preset: WorldGenPreset,
    surface: &[i32; CHUNK_WIDTH],
    read: ChunkFileRead,
) -> (r: Result<SpawnChunk, ChunkLoadError>)
    ensures
        r matches Ok(s) ==> s.position == chunk_pos && s.chunk@.light == Seq::new(
            CHUNK_AREA as nat,
            |i: int| 0u8,
        ),
        match read {
            ChunkFileRead::Bytes(b) => {
                &&& r is Ok <==> decodable(b@)
                &&& r matches Ok(s) ==> layers_bytes(s.chunk@.walls, s.chunk@.blocks) == b@.take(
                    ENCODED_CHUNK_LEN as int,
                )
                &&& r matches Err(e) ==> e is Decode
            },
            ChunkFileRead::NotFound => r matches Ok(s) && s.chunk@ == generated_view(
                chunk_pos@,
                world_preset,
                surface@,
            ),
            ChunkFileRead::Failed => r == Err::<SpawnChunk, ChunkLoadError>(ChunkLoadError::Io),
        },
{
    match read {
        ChunkFileRead::Bytes(bytes) => match decode_chunk_layers(bytes.as_slice()) {
            Ok(layers) => Ok(
                SpawnChunk { position: chunk_pos, chunk: Chunk::from_layers(layers[0], layers[1]) },
            ),
            Err(e) => Err(ChunkLoadError::Decode(e)),
        },
        ChunkFileRead::NotFound => {
            let generated = generate_chunk(chunk_pos, world_preset, surface);
            Ok(
                SpawnChunk {
                    position: chunk_pos,
                    chunk: Chunk::from_layers(generated.walls, generated.blocks),
                },
            )
        },
        ChunkFileRead::Failed => Err(ChunkLoadError::Io),
    }
}

/// Consumes a finished load of the chunk at `chunk_pos`. A loaded chunk goes
/// into the store if its coordinate is free; a chunk whose file did not
/// decode is generated afresh instead; a failed read leaves the store as it
/// is. Returns whether a chunk went in.
pub fn process_chunk_loading_result(
    chunks_res: &mut Chunks,
    chunk_pos: IVec2,
    world_preset: WorldGenPreset,
    surface: &[i32; CHUNK_WIDTH],
    result: Result<SpawnChunk, ChunkLoadError>,
) -> (r: bool)
    requires
        old(chunks_res).wf(),
        chunk_in_range(chunk_pos@),
        result matches Ok(s) ==> s.position == chunk_pos,
    ensures
        final(chunks_res).wf(),
        r == (!old(chunks_res)@.contains_key(chunk_pos@) && !(result matches Err(
            ChunkLoadError::Io,
        ))),
        !r ==> final(chunks_res)@ == old(chunks_res)@,
        r && result is Ok ==> final(chunks_res)@ == old(chunks_res)@.insert(
            chunk_pos@,
            result->Ok_0.chunk@,
        ),
        r && result is Err ==> final(chunks_res)@ == old(chunks_res)@.insert(
            chunk_pos@,
            generated_view(chunk_pos@, world_preset, surface@),
        ),
{
    match result {
        Ok(s) => chunks_res.insert(s.position, s.chunk),
        Err(ChunkLoadError::Decode(_)) => {
            if chunks_res.contains_key(chunk_pos) {
                return false;
            }
            let generated = generate_chunk(chunk_pos, world_preset, surface);
            chunks_res.insert(chunk_pos, Chunk::from_layers(generated.walls, generated.blocks))
        },
        Err(ChunkLoadError::Io) => false,
    }
}

/// Encodes every loaded chunk for saving: each loaded coordinate is listed
/// exactly once, with the encoding of that chunk's layers.
pub fn save_all_chunks(chunks_res: &Chunks) -> (r: Vec<(IVec2, Vec<u8>)>)
    requires
        chunks_res.wf(),
    ensures
        r@.len() == chunks_res@.len(),
        forall|p: (int, int)|
            chunks_res@.contains_key(p) <==> exists|i: int| 0 <= i < r@.len() && #[trigger] r@[i].0@ == p,
        forall|i: int|
            0 <= i < r@.len() ==> {
                let p = #[trigger] r@[i].0@;
                &&& chunks_res@.contains_key(p)
                &&& r@[i].1@ == layers_bytes(chunks_res@[p].walls, chunks_res@[p].blocks)
            },
        forall|i: int, j: int| 0 <= i < j < r@.len() ==> r@[i].0@ != r@[j].0@,
{
    let keys = chunks_res.keys();
    let mut r: Vec<(IVec2, Vec<u8>)> = Vec::new();
    let mut i: usize = 0;
    while i < keys.len()
        invariant
            chunks_res.wf(),
            i <= keys@.len(),
            keys@.len() == chunks_res@.len(),
            forall|k: (int, int)|
                chunks_res@.contains_key(k) <==> exists|j: int|
                    0 <= j < keys@.len() && #[trigger] keys@[j]@ == k,
            forall|a: int, b: int| 0 <= a < b < keys@.len() ==> keys@[a]@ != keys@[b]@,
            r@.len() == i,
            forall|j: int| 0 <= j < i ==> #[trigger] r@[j].0 == keys@[j],
            forall|j: int|
                0 <= j < i ==> #[trigger] r@[j].1@ == layers_bytes(
                    chunks_res@[keys@[j]@].walls,
                    chunks_res@[keys@[j]@].blocks,
                ),
        decreases keys@.len() - i,
    {
        let pos = keys[i];
        assert(chunks_res@.contains_key(pos@));
        let chunk = chunks_res.get(pos).unwrap();
        let bytes = encode_chunk_layers(&chunk.layers);
        r.push((pos, bytes));
        i += 1;
    }
    proof {
        assert forall|p: (int, int)|
            chunks_res@.contains_key(p) <==> exists|i: int| 0 <= i < r@.len() && #[trigger] r@[i].0@ == p by {
            if chunks_res@.contains_key(p) {
                let j = choose|j: int| 0 <= j < keys@.len() && #[trigger] keys@[j]@ == p;
                assert(r@[j].0@ == p);
            }
            if exists|i: int| 0 <= i < r@.len() && #[trigger] r@[i].0@ == p {
                let j = choose|j: int| 0 <= j < r@.len() && #[trigger] r@[j].0@ == p;
                assert(r@[j].0 == keys@[j]);
            }
        }
        assert forall|a: int, b: int| 0 <= a < b < r@.len() implies r@[a].0@ != r@[b].0@ by {
            assert(r@[a].0 == keys@[a] && r@[b].0 == keys@[b]);
        }
        assert forall|j: int| 0 <= j < r@.len() implies chunks_res@.contains_key(#[trigger] r@[j].0@) by {
            assert(r@[j].0 == keys@[j]);
        }
    }
    r
}

/// Coordinates among the first `n` views that are to be unloaded: those
/// not visible, or all of them when `force`.
pub open spec fn unload_set(views: Seq<(IVec2, bool)>, n: int, force: bool) -> Set<(int, int)> {
    Set::new(
        |p: (int, int)|
            exists|j: int| 0 <= j < n && #[trigger] views[j].0@ == p && (!views[j].1 || force),
    )
}

/// Unloads the chunks that a viewport no longer shows, or every listed chunk
/// when `force` is set, and hands back their encodings for saving.
/// `views` pairs chunk coordinates with whether they are visible; a listed
/// chunk that is not loaded is skipped.
pub fn unload_and_save_chunks(
    chunks_res: &mut Chunks,
    views: &Vec<(IVec2, bool)>,
    ev: UnloadChunks,
) -> (r: Vec<(IVec2, Vec<u8>)>)
    requires
        old(chunks_res).wf(),
    ensures
        final(chunks_res).wf(),
        final(chunks_res)@ == old(chunks_res)@.remove_keys(
            unload_set(views@, views@.len() as int, ev.force),
        ),
        forall|p: (int, int)|
            (unload_set(views@, views@.len() as int, ev.force).contains(p) && old(
                chunks_res,
            )@.contains_key(p)) <==> exists|i: int| 0 <= i < r@.len() && #[trigger] r@[i].0@ == p,
        forall|i: int|
            0 <= i < r@.len() ==> {
                let p = #[trigger] r@[i].0@;
                &&& old(chunks_res)@.contains_key(p)
                &&& !final(chunks_res)@.contains_key(p)
                &&& r@[i].1@ == layers_bytes(old(chunks_res)@[p].walls, old(chunks_res)@[p].blocks)
            },
        forall|i: int, j: int| 0 <= i < j < r@.len() ==> r@[i].0@ != r@[j].0@,
{
    let ghost m0 = chunks_res@;
    let mut r: Vec<(IVec2, Vec<u8>)> = Vec::new();
    let mut i: usize = 0;
    while i < views.len()
        invariant
            chunks_res.wf(),
            i <= views@.len(),
            chunks_res@ == m0.remove_keys(unload_set(views@, i as int, ev.force)),
            forall|j: int|
                0 <= j < r@.len() ==> {
                    let p = #[trigger] r@[j].0@;
                    &&& m0.contains_key(p)
                    &&& !chunks_res@.contains_key(p)
                    &&& r@[j].1@ == layers_bytes(m0[p].walls, m0[p].blocks)
                },
            forall|p: (int, int)|
                (unload_set(views@, i as int, ev.force).contains(p) && m0.contains_key(p)) <==> exists|
                    j: int,
                | 0 <= j < r@.len() && #[trigger] r@[j].0@ == p,
            forall|a: int, b: int| 0 <= a < b < r@.len() ==> r@[a].0@ != r@[b].0@,
        decreases views@.len() - i,
    {
        let (pos, visible) = views[i];
        let ghost prev = r@;
        let ghost before = chunks_res@;
        if !visible || ev.force {
            match chunks_res.remove(pos) {
                Some(chunk) => {
                    let bytes = encode_chunk_layers(&chunk.layers);
                    r.push((pos, bytes));
                    proof {
                        assert(r@[prev.len() as int].0@ == pos@);
                        assert forall|a: int, b: int| 0 <= a < b < r@.len() implies r@[a].0@
                            != r@[b].0@ by {
                            if b == prev.len() {
                                assert(r@[a] == prev[a]);
                                assert(!before.contains_key(prev[a].0@));
                            }
                        }
                    }
                },
                None => {},
            }
        }
        proof {
            let s_old = unload_set(views@, i as int, ev.force);
            let s_new = unload_set(views@, i + 1, ev.force);
            assert(forall|j: int| 0 <= j < prev.len() ==> r@[j] == prev[j]);
            if !visible || ev.force {
                assert(s_new =~= s_old.insert(pos@)) by {
                    assert forall|p: (int, int)| s_new.contains(p) implies s_old.insert(
                        pos@,
                    ).contains(p) by {
                        let j = choose|j: int|
                            0 <= j < i + 1 && #[trigger] views@[j].0@ == p && (!views@[j].1
                                || ev.force);
                        if j < i {
                            assert(s_old.contains(p));
                        }
                    }
                    assert forall|p: (int, int)| s_old.insert(pos@).contains(p) implies s_new.contains(
                        p,
                    ) by {
                        if p == pos@ {
                            assert(views@[i as int].0@ == p);
                        } else {
                            let j = choose|j: int|
                                0 <= j < i && #[trigger] views@[j].0@ == p && (!views@[j].1
                                    || ev.force);
                            assert(0 <= j < i + 1 && views@[j].0@ == p);
                        }
                    }
                }
                assert(chunks_res@ =~= m0.remove_keys(s_new));
            } else {
                assert(s_new =~= s_old) by {
                    assert forall|p: (int, int)| s_new.contains(p) implies s_old.contains(p) by {
                        let j = choose|j: int|
                            0 <= j < i + 1 && #[trigger] views@[j].0@ == p && (!views@[j].1
                                || ev.force);
                        assert(j != i);
                    }
                    assert forall|p: (int, int)| s_old.contains(p) implies s_new.contains(p) by {
                        let j = choose|j: int|
                            0 <= j < i && #[trigger] views@[j].0@ == p && (!views@[j].1
                                || ev.force);
                        assert(0 <= j < i + 1 && views@[j].0@ == p);
                    }
                }
            }
        }
        proof {
            let s_old = unload_set(views@, i as int, ev.force);
            let s_new = unload_set(views@, i + 1, ev.force);
            assert forall|p: (int, int)|
                (s_new.contains(p) && m0.contains_key(p)) <==> exists|j: int|
                    0 <= j < r@.len() && #[trigger] r@[j].0@ == p by {
                if exists|j: int| 0 <= j < r@.len() && #[trigger] r@[j].0@ == p {
                    let j = choose|j: int| 0 <= j < r@.len() && #[trigger] r@[j].0@ == p;
                    if j < prev.len() {
                        assert(prev[j].0@ == p);
                        assert(s_old.contains(p));
                    }
                }
                if s_new.contains(p) && m0.contains_key(p) {
                    if s_old.contains(p) {
                        let j = choose|j: int| 0 <= j < prev.len() && #[trigger] prev[j].0@ == p;
                        assert(r@[j].0@ == p);
                    } else {
                        assert(p == pos@);
                        assert(before.contains_key(p));
                        assert(r@[prev.len() as int].0@ == p);
                    }
                }
            }
        }
        i += 1;
    }
    r
}

} // verus!
