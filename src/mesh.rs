use vstd::prelude::*;

use crate::block::{BlockType, PlaceMode};
use crate::chunk::{
    block_or_air, has_neighbours, light_or_dark, offset, ring_direction, Chunk, ChunkView, Chunks,
};
use crate::coords::{
    get_global_position, get_position_from_index, global_of, lemma_index_round_trip,
    relative_from_index, IVec2, CHUNK_AREA, TILE_SIZE,
};
use crate::neighbors::{get_neighboring_blocks_with_corners, get_neighboring_lights_with_corners};

verus! {

pub const VERTICES_PER_BLOCK: usize = 4;

pub const INDICES_PER_BLOCK: usize = 6;

/// Vertices of a layer mesh: four per cell.
pub const CHUNK_MESH_SIZE: usize = 1024;

/// Triangle indices of a layer mesh: six per cell.
pub const CHUNK_INDEX_COUNT: usize = 1536;

/// Rendering options that change the mesh.
#[derive(Clone, Copy, Debug, PartialEq, Eq, Structural)]
pub struct MeshSettings {
    pub smooth_lighting: bool,
    pub wall_ambient_occlusion: bool,
}

/// Colour of a vertex, as exact data; the renderer turns it into RGBA, and
/// multiplies `Flat` and `Smooth` by the wall darkness on the wall layer.
#[derive(Clone, Copy, Debug, PartialEq, Eq, Structural)]
pub enum Shade {
    /// No geometry: all channels zero.
    Blank,
    /// Grey of brightness `light / 15`, given in sRGB.
    Flat { light: u8 },
    /// Grey of brightness `sum / 60`: the mean of four cells' light.
    Smooth { sum: u32 },
    /// Ambient-occlusion tint: grey `0.1 * light / 15`, opaque.
    Occluded { light: u8 },
}

/// One mesh vertex: position in pixels, shade, and texture coordinates.
/// `u` counts atlas columns (the renderer divides by `SIZE - 1`); `v` is 0
/// for the top edge of the texture and 1 for the bottom.
#[derive(Clone, Copy, Debug, PartialEq, Eq, Structural)]
pub struct Vertex {
    pub x: u32,
    pub y: u32,
    pub shade: Shade,
    pub u: u32,
    pub v: u32,
}

/// Vertex and index buffers of one layer of a chunk.
#[derive(Debug)]
pub struct LayerMesh {
    pub vertices: Vec<Vertex>,
    pub indices: Vec<u32>,
}

/// What seeding the standard generator with `seed` and drawing one `bool`
/// gives.
pub uninterp spec fn seeded_coin(seed: u64) -> bool;

/// Relies on `rand::rngs::StdRng::seed_from_u64` and `Rng::gen::<bool>`: a
/// generator seeded with a fixed value draws the same first `bool` each time.
#[verifier::external_body]
fn seeded_coin_flip(seed: u64) -> (r: bool)
    ensures
        r == seeded_coin(seed),
{
    rand::Rng::gen::<bool>(&mut <rand::rngs::StdRng as rand::SeedableRng>::seed_from_u64(seed))
}

pub open spec fn blank_vertex() -> Vertex {
    Vertex { x: 0, y: 0, shade: Shade::Blank, u: 0, v: 0 }
}

/// Corner (0: bottom left, 1: bottom right, 2: top right, 3: top left) at
/// position `k` of the two-triangle pattern of a quad.
pub open spec fn quad_pattern(k: int, flipped: bool) -> int {
    if flipped {
        if k == 0 {
            0
        } else if k == 1 || k == 3 {
            1
        } else if k == 4 {
            2
        } else {
            3
        }
    } else {
        if k == 0 || k == 5 {
            0
        } else if k == 1 {
            1
        } else if k == 2 || k == 3 {
            2
        } else {
            3
        }
    }
}

/// Index `k` (0..6) of the two triangles of quad `q`: `0,1,2,2,3,0`, or
/// `0,1,3,1,2,3` when the quad's diagonal is flipped.
pub open spec fn quad_index(q: int, k: int, flipped: bool) -> u32 {
    (4 * q + quad_pattern(k, flipped)) as u32
}

/// Ring cell (see `ring_direction`) of the `j`-th of the three cells that
/// touch corner `c` of a quad: an edge cell, the diagonal cell, an edge cell.
pub open spec fn corner_ring(c: int, j: int) -> int {
    if c == 0 {
        if j == 0 { 4 } else if j == 1 { 5 } else { 1 }
    } else if c == 1 {
        if j == 0 { 2 } else if j == 1 { 6 } else { 1 }
    } else if c == 2 {
        if j == 0 { 2 } else if j == 1 { 7 } else { 3 }
    } else {
        if j == 0 { 4 } else if j == 1 { 8 } else { 3 }
    }
}

pub open spec fn ring_light(m: Map<(int, int), ChunkView>, g: (int, int), k: int) -> int {
    light_or_dark(m, offset(g, ring_direction(k))) as int
}

/// Whether the block layer at ring cell `k` of `g` stops light.
pub open spec fn ring_opaque(m: Map<(int, int), ChunkView>, g: (int, int), k: int) -> bool {
    !block_or_air(m, offset(g, ring_direction(k)), 1).spec_is_transparent()
}

/// Sum of the light of the cell and of the three cells around corner `c`.
pub open spec fn smooth_sum(m: Map<(int, int), ChunkView>, g: (int, int), c: int) -> u32 {
    (ring_light(m, g, 0) + ring_light(m, g, corner_ring(c, 0)) + ring_light(m, g, corner_ring(c, 1))
        + ring_light(m, g, corner_ring(c, 2))) as u32
}

pub open spec fn corner_occluded(m: Map<(int, int), ChunkView>, g: (int, int), c: int) -> bool {
    ring_opaque(m, g, corner_ring(c, 0)) || ring_opaque(m, g, corner_ring(c, 1)) || ring_opaque(
        m,
        g,
        corner_ring(c, 2),
    )
}

pub open spec fn occlusion_on(layer: PlaceMode, settings: MeshSettings) -> bool {
    settings.wall_ambient_occlusion && layer == PlaceMode::WALL
}

pub open spec fn cell_block(
    m: Map<(int, int), ChunkView>,
    key: (int, int),
    layer: PlaceMode,
    i: int,
) -> BlockType {
    m[key].layer(layer.spec_index())[i]
}

/// Whether quad `i` gets the flipped diagonal: a wall quad under occlusion
/// whose bottom-left or top-right diagonal cell holds an opaque block.
pub open spec fn cell_flipped(
    m: Map<(int, int), ChunkView>,
    key: (int, int),
    layer: PlaceMode,
    settings: MeshSettings,
    i: int,
) -> bool {
    let g = global_of(key, relative_from_index(i));
    cell_block(m, key, layer, i) != BlockType::AIR && occlusion_on(layer, settings) && (ring_opaque(
        m,
        g,
        5,
    ) || ring_opaque(m, g, 7))
}

pub open spec fn vertex_shade(
    m: Map<(int, int), ChunkView>,
    key: (int, int),
    layer: PlaceMode,
    settings: MeshSettings,
    i: int,
    c: int,
) -> Shade {
    let g = global_of(key, relative_from_index(i));
    let light = m[key].light[i];
    if occlusion_on(layer, settings) && corner_occluded(m, g, c) {
        Shade::Occluded { light }
    } else if settings.smooth_lighting {
        Shade::Smooth { sum: smooth_sum(m, g, c) }
    } else {
        Shade::Flat { light }
    }
}

/// Atlas column of corner `c`: the block's tile spans columns
/// `ordinal - 1 .. ordinal`, mirrored when `flip_h`.
pub open spec fn corner_u(b: BlockType, flip_h: bool, c: int) -> u32 {
    let left = (b.spec_ordinal() - 1) as u32;
    let right = b.spec_ordinal();
    if (c == 0 || c == 3) != flip_h {
        left
    } else {
        right
    }
}

/// Texture row of corner `c`: bottom corners at 1, top corners at 0,
/// mirrored when `flip_v`.
pub open spec fn corner_v(flip_v: bool, c: int) -> u32 {
    if (c == 0 || c == 1) != flip_v {
        1
    } else {
        0
    }
}

pub open spec fn flip_seed(g: int) -> u64 {
    ((g as i32) as u32) as u64
}

/// Vertex `c` of the quad of cell `i`; a blank vertex for an air cell.
pub open spec fn quad_vertex(
    m: Map<(int, int), ChunkView>,
    key: (int, int),
    layer: PlaceMode,
    settings: MeshSettings,
    i: int,
    c: int,
) -> Vertex {
    let b = cell_block(m, key, layer, i);
    if b == BlockType::AIR {
        blank_vertex()
    } else {
        let r = relative_from_index(i);
        let g = global_of(key, r);
        let flip_h = b.spec_can_flip_horizontally() && seeded_coin(flip_seed(g.0));
        let flip_v = b.spec_can_flip_vertically() && seeded_coin(flip_seed(g.1));
        Vertex {
            x: (r.0 * 32 + if c == 1 || c == 2 { 32int } else { 0int }) as u32,
            y: (r.1 * 32 + if c == 2 || c == 3 { 32int } else { 0int }) as u32,
            shade: vertex_shade(m, key, layer, settings, i, c),
            u: corner_u(b, flip_h, c),
            v: corner_v(flip_v, c),
        }
    }
}

pub open spec fn expected_vertices(
    m: Map<(int, int), ChunkView>,
    key: (int, int),
    layer: PlaceMode,
    settings: MeshSettings,
) -> Seq<Vertex> {
    Seq::new(CHUNK_MESH_SIZE as nat, |v: int| quad_vertex(m, key, layer, settings, v / 4, v % 4))
}

pub open spec fn expected_indices(
    m: Map<(int, int), ChunkView>,
    key: (int, int),
    layer: PlaceMode,
    settings: MeshSettings,
) -> Seq<u32> {
    Seq::new(
        CHUNK_INDEX_COUNT as nat,
        |j: int| quad_index(j / 6, j % 6, cell_flipped(m, key, layer, settings, j / 6)),
    )
}

pub open spec fn default_indices() -> Seq<u32> {
    Seq::new(CHUNK_INDEX_COUNT as nat, |j: int| quad_index(j / 6, j % 6, false))
}

fn pattern(k: usize, flipped: bool) -> (r: u32)
    requires
        k < 6,
    ensures
        r == quad_pattern(k as int, flipped),
{
    if flipped {
        if k == 0 {
            0
        } else if k == 1 || k == 3 {
            1
        } else if k == 4 {
            2
        } else {
            3
        }
    } else {
        if k == 0 || k == 5 {
            0
        } else if k == 1 {
            1
        } else if k == 2 || k == 3 {
            2
        } else {
            3
        }
    }
}

proof fn lemma_div6(q: int, k: int)
    requires
        0 <= k < 6,
    ensures
        (6 * q + k) / 6 == q,
        (6 * q + k) % 6 == k,
{
    vstd::arithmetic::div_mod::lemma_fundamental_div_mod_converse(6 * q + k, 6, q, k);
}

proof fn lemma_div4(q: int, k: int)
    requires
        0 <= k < 4,
    ensures
        (4 * q + k) / 4 == q,
        (4 * q + k) % 4 == k,
{
    vstd::arithmetic::div_mod::lemma_fundamental_div_mod_converse(4 * q + k, 4, q, k);
}

/// The index buffer of a layer with every quad in its default winding
/// `0,1,2,2,3,0`.
pub fn generate_chunk_indices() -> (r: Vec<u32>)
    ensures
        r@ == default_indices(),
{
    let mut vec: Vec<u32> = Vec::new();
    let mut q: usize = 0;
    while q < CHUNK_AREA
        invariant
            q <= CHUNK_AREA,
            vec@.len() == 6 * q,
            forall|j: int| 0 <= j < 6 * q ==> vec@[j] == quad_index(j / 6, j % 6, false),
        decreases CHUNK_AREA - q,
    {
        let mut k: usize = 0;
        while k < INDICES_PER_BLOCK
            invariant
                q < CHUNK_AREA,
                k <= 6,
                vec@.len() == 6 * q + k,
                forall|j: int| 0 <= j < 6 * q + k ==> vec@[j] == quad_index(j / 6, j % 6, false),
            decreases 6 - k,
        {
            proof {
                lemma_div6(q as int, k as int);
            }
            vec.push(4 * q as u32 + pattern(k, false));
            k += 1;
        }
        q += 1;
    }
    assert(vec@ =~= default_indices());
    vec
}

/// Gives quad `quad_index` the flipped winding `0,1,3,1,2,3`.
pub fn flip_quad(quad_index: usize, indices: &mut Vec<u32>)
    requires
        quad_index < CHUNK_AREA,
        old(indices)@.len() == CHUNK_INDEX_COUNT,
    ensures
        final(indices)@.len() == CHUNK_INDEX_COUNT,
        forall|j: int|
            0 <= j < CHUNK_INDEX_COUNT ==> #[trigger] final(indices)@[j] == if j / 6 == quad_index {
                crate::mesh::quad_index(j / 6, j % 6, true)
            } else {
                old(indices)@[j]
            },
{
    let i = quad_index * INDICES_PER_BLOCK;
    let offset = (quad_index * 4) as u32;
    let mut k: usize = 0;
    while k < INDICES_PER_BLOCK
        invariant
            quad_index < CHUNK_AREA,
            i == quad_index * 6,
            offset == quad_index * 4,
            k <= 6,
            indices@.len() == CHUNK_INDEX_COUNT,
            forall|j: int|
                0 <= j < CHUNK_INDEX_COUNT ==> #[trigger] indices@[j] == if j / 6 == quad_index && j
                    % 6 < k {
                    crate::mesh::quad_index(j / 6, j % 6, true)
                } else {
                    old(indices)@[j]
                },
        decreases 6 - k,
    {
        let ghost before = indices@;
        indices.set(i + k, offset + pattern(k, true));
        proof {
            lemma_div6(quad_index as int, k as int);
            assert forall|j: int| 0 <= j < CHUNK_INDEX_COUNT implies #[trigger] indices@[j] == if j
                / 6 == quad_index && j % 6 < k + 1 {
                crate::mesh::quad_index(j / 6, j % 6, true)
            } else {
                old(indices)@[j]
            } by {
                vstd::arithmetic::div_mod::lemma_fundamental_div_mod(j, 6);
                assert(before[j] == if j / 6 == quad_index && j % 6 < k {
                    crate::mesh::quad_index(j / 6, j % 6, true)
                } else {
                    old(indices)@[j]
                });
            }
        }
        k += 1;
    }
}

/// Texture coordinates `(u, v)` of the four corners of a block's quad
/// (bottom left, bottom right, top right, top left), mirrored left to right
/// when `flip_h` and top to bottom when `flip_v`.
pub fn cell_uvs(block: BlockType, flip_h: bool, flip_v: bool) -> (r: [(u32, u32); 4])
    requires
        block != BlockType::AIR,
    ensures
        forall|c: int|
            0 <= c < 4 ==> r[c] == (corner_u(block, flip_h, c), corner_v(flip_v, c)),
{
    let right = block.ordinal();
    let left = right - 1;
    let (u0, u1) = if flip_h { (right, left) } else { (left, right) };
    let (v0, v1) = if flip_v { (0u32, 1u32) } else { (1u32, 0u32) };
    [(u0, v0), (u1, v0), (u1, v1), (u0, v1)]
}

fn corner_cells(c: usize) -> (r: (usize, usize, usize))
    requires
        c < 4,
    ensures
        r.0 == corner_ring(c as int, 0),
        r.1 == corner_ring(c as int, 1),
        r.2 == corner_ring(c as int, 2),
        r.0 < 9 && r.1 < 9 && r.2 < 9,
{
    if c == 0 {
        (4, 5, 1)
    } else if c == 1 {
        (2, 6, 1)
    } else if c == 2 {
        (2, 7, 3)
    } else {
        (4, 8, 3)
    }
}

/// The four vertices of the quad of a non-air cell, and whether its diagonal
/// is flipped.
fn cell_quad(
    chunks: &Chunks,
    key: IVec2,
    chunk: &Chunk,
    layer: PlaceMode,
    settings: MeshSettings,
    i: usize,
) -> (r: ([Vertex; 4], bool))
    requires
        chunks.wf(),
        chunks@.contains_key(key@),
        chunk@ == chunks@[key@],
        i < CHUNK_AREA,
        cell_block(chunks@, key@, layer, i as int) != BlockType::AIR,
    ensures
        forall|c: int| 0 <= c < 4 ==> r.0[c] == quad_vertex(chunks@, key@, layer, settings, i as int, c),
        r.1 == cell_flipped(chunks@, key@, layer, settings, i as int),
{
    proof {
        chunks.lemma_wf_view();
        lemma_index_round_trip(i as int);
    }
    let ghost m = chunks@;
    let b = chunk.layers[layer.index()][i];
    let light = chunk.light[i];
    let pos = get_position_from_index(i);
    let global = get_global_position(key, pos);
    let ghost g = global@;
    assert(has_neighbours(g));
    let lights = get_neighboring_lights_with_corners(chunks, global).unwrap();
    let occlusion = settings.wall_ambient_occlusion && layer == PlaceMode::WALL;
    let mut opaque = [false; 9];
    if occlusion {
        let blocks = get_neighboring_blocks_with_corners(chunks, global, PlaceMode::BLOCK).unwrap();
        let mut k: usize = 0;
        while k < 9
            invariant
                k <= 9,
                forall|j: int| 0 <= j < 9 ==> blocks[j] == block_or_air(m, offset(g, ring_direction(j)), 1),
                forall|j: int| 0 <= j < k ==> opaque[j] == ring_opaque(m, g, j),
            decreases 9 - k,
        {
            opaque[k] = !blocks[k].is_transparent();
            k += 1;
        }
    }
    let flip_h = b.can_flip_horizontally() && seeded_coin_flip(global.x as u32 as u64);
    let flip_v = b.can_flip_vertically() && seeded_coin_flip(global.y as u32 as u64);
    let uvs = cell_uvs(b, flip_h, flip_v);
    let mut quad = [Vertex { x: 0, y: 0, shade: Shade::Blank, u: 0, v: 0 }; 4];
    let mut c: usize = 0;
    while c < VERTICES_PER_BLOCK
        invariant
            c <= 4,
            m == chunks@,
            m.contains_key(key@),
            chunk@ == m[key@],
            g == global_of(key@, relative_from_index(i as int)),
            pos@ == relative_from_index(i as int),
            0 <= pos.x < 16 && 0 <= pos.y < 16,
            i < CHUNK_AREA,
            b == cell_block(m, key@, layer, i as int),
            b != BlockType::AIR,
            light == m[key@].light[i as int],
            occlusion == occlusion_on(layer, settings),
            occlusion ==> forall|j: int| 0 <= j < 9 ==> opaque[j] == ring_opaque(m, g, j),
            forall|j: int| 0 <= j < 9 ==> lights[j] == light_or_dark(m, offset(g, ring_direction(j))),
            flip_h == (b.spec_can_flip_horizontally() && seeded_coin(flip_seed(g.0))),
            flip_v == (b.spec_can_flip_vertically() && seeded_coin(flip_seed(g.1))),
            forall|d: int| 0 <= d < 4 ==> uvs[d] == (corner_u(b, flip_h, d), corner_v(flip_v, d)),
            forall|d: int| 0 <= d < c ==> quad[d] == quad_vertex(m, key@, layer, settings, i as int, d),
        decreases 4 - c,
    {
        let (ea, dg, eb) = corner_cells(c);
        let shade = if occlusion && (opaque[ea] || opaque[dg] || opaque[eb]) {
            Shade::Occluded { light }
        } else if settings.smooth_lighting {
            Shade::Smooth {
                sum: lights[0] as u32 + lights[ea] as u32 + lights[dg] as u32 + lights[eb] as u32,
            }
        } else {
            Shade::Flat { light }
        };
        let dx: u32 = if c == 1 || c == 2 { TILE_SIZE as u32 } else { 0 };
        let dy: u32 = if c == 2 || c == 3 { TILE_SIZE as u32 } else { 0 };
        quad[c] = Vertex {
            x: pos.x * TILE_SIZE as u32 + dx,
            y: pos.y * TILE_SIZE as u32 + dy,
            shade,
            u: uvs[c].0,
            v: uvs[c].1,
        };
        c += 1;
    }
    let flipped = occlusion && (opaque[5] || opaque[7]);
    (quad, flipped)
}

/// Builds the vertex and index buffers of one layer of a loaded chunk.
/// Air cells keep blank vertices and the default winding; every other cell
/// gets a quad shaded from the light (smoothed over its corner cells when
/// `smooth_lighting`), darkened at corners next to opaque blocks on the wall
/// layer when `wall_ambient_occlusion` (with the diagonal flipped when the
/// bottom-left or top-right cell is opaque), and textured from the atlas
/// with mirroring drawn from the block's global column and row.
pub fn remesh(chunks: &Chunks, chunk_pos: IVec2, layer: PlaceMode, settings: MeshSettings) -> (r:
    Option<LayerMesh>)
    requires
        chunks.wf(),
    ensures
        r is Some <==> chunks@.contains_key(chunk_pos@),
        r matches Some(mesh) ==> mesh.vertices@ == expected_vertices(chunks@, chunk_pos@, layer, settings)
            && mesh.indices@ == expected_indices(chunks@, chunk_pos@, layer, settings),
{
    let chunk = match chunks.get(chunk_pos) {
        None => {
            return None;
        },
        Some(c) => c,
    };
    let ghost m = chunks@;
    let ghost key = chunk_pos@;
    let mut vertices: Vec<Vertex> = Vec::new();
    let mut v: usize = 0;
    while v < CHUNK_MESH_SIZE
        invariant
            v <= CHUNK_MESH_SIZE,
            vertices@.len() == v,
            forall|w: int| 0 <= w < v ==> vertices@[w] == blank_vertex(),
        decreases CHUNK_MESH_SIZE - v,
    {
        vertices.push(Vertex { x: 0, y: 0, shade: Shade::Blank, u: 0, v: 0 });
        v += 1;
    }
    let mut indices = generate_chunk_indices();
    let l = layer.index();
    let mut i: usize = 0;
    while i < CHUNK_AREA
        invariant
            chunks.wf(),
            m == chunks@,
            m.contains_key(key),
            key == chunk_pos@,
            chunk@ == m[key],
            l == layer.spec_index(),
            i <= CHUNK_AREA,
            vertices@.len() == CHUNK_MESH_SIZE,
            indices@.len() == CHUNK_INDEX_COUNT,
            forall|w: int|
                0 <= w < CHUNK_MESH_SIZE ==> #[trigger] vertices@[w] == if w / 4 < i {
                    quad_vertex(m, key, layer, settings, w / 4, w % 4)
                } else {
                    blank_vertex()
                },
            forall|j: int|
                0 <= j < CHUNK_INDEX_COUNT ==> #[trigger] indices@[j] == if j / 6 < i {
                    quad_index(j / 6, j % 6, cell_flipped(m, key, layer, settings, j / 6))
                } else {
                    quad_index(j / 6, j % 6, false)
                },
        decreases CHUNK_AREA - i,
    {
        if chunk.layers[l][i].is_solid() {
            let (quad, flip) = cell_quad(chunks, chunk_pos, chunk, layer, settings, i);
            let mut c: usize = 0;
            while c < VERTICES_PER_BLOCK
                invariant
                    i < CHUNK_AREA,
                    c <= 4,
                    vertices@.len() == CHUNK_MESH_SIZE,
                    forall|d: int| 0 <= d < 4 ==> quad[d] == quad_vertex(m, key, layer, settings, i as int, d),
                    forall|w: int|
                        0 <= w < CHUNK_MESH_SIZE ==> #[trigger] vertices@[w] == if w / 4 < i || (w / 4
                            == i && w % 4 < c) {
                            quad_vertex(m, key, layer, settings, w / 4, w % 4)
                        } else {
                            blank_vertex()
                        },
                decreases 4 - c,
            {
                let ghost before = vertices@;
                vertices.set(4 * i + c, quad[c]);
                proof {
                    lemma_div4(i as int, c as int);
                    assert forall|w: int| 0 <= w < CHUNK_MESH_SIZE implies #[trigger] vertices@[w]
                        == if w / 4 < i || (w / 4 == i && w % 4 < c + 1) {
                        quad_vertex(m, key, layer, settings, w / 4, w % 4)
                    } else {
                        blank_vertex()
                    } by {
                        vstd::arithmetic::div_mod::lemma_fundamental_div_mod(w, 4);
                        assert(before[w] == if w / 4 < i || (w / 4 == i && w % 4 < c) {
                            quad_vertex(m, key, layer, settings, w / 4, w % 4)
                        } else {
                            blank_vertex()
                        });
                    }
                }
                c += 1;
            }
            let ghost before = indices@;
            if flip {
                flip_quad(i, &mut indices);
            }
            proof {
                assert forall|j: int| 0 <= j < CHUNK_INDEX_COUNT implies #[trigger] indices@[j] == if j
                    / 6 < i + 1 {
                    quad_index(j / 6, j % 6, cell_flipped(m, key, layer, settings, j / 6))
                } else {
                    quad_index(j / 6, j % 6, false)
                } by {
                    assert(before[j] == if j / 6 < i {
                        quad_index(j / 6, j % 6, cell_flipped(m, key, layer, settings, j / 6))
                    } else {
                        quad_index(j / 6, j % 6, false)
                    });
                }
            }
        } else {
            proof {
                assert(cell_block(m, key, layer, i as int) == BlockType::AIR);
                assert forall|w: int| 0 <= w < CHUNK_MESH_SIZE implies #[trigger] vertices@[w]
                    == if w / 4 < i + 1 {
                    quad_vertex(m, key, layer, settings, w / 4, w % 4)
                } else {
                    blank_vertex()
                } by {}
                assert forall|j: int| 0 <= j < CHUNK_INDEX_COUNT implies #[trigger] indices@[j] == if j
                    / 6 < i + 1 {
                    quad_index(j / 6, j % 6, cell_flipped(m, key, layer, settings, j / 6))
                } else {
                    quad_index(j / 6, j % 6, false)
                } by {}
            }
        }
        i += 1;
    }
    proof {
        assert(vertices@ =~= expected_vertices(m, key, layer, settings));
        assert(indices@ =~= expected_indices(m, key, layer, settings));
    }
    Some(LayerMesh { vertices, indices })
}

/// The mesh of a layer before any block is drawn: blank vertices and every
/// quad in its default winding.
pub fn generate_chunk_layer_mesh() -> (r: LayerMesh)
    ensures
        r.vertices@ == Seq::new(CHUNK_MESH_SIZE as nat, |v: int| blank_vertex()),
        r.indices@ == default_indices(),
{
    let mut vertices: Vec<Vertex> = Vec::new();
    let mut v: usize = 0;
    while v < CHUNK_MESH_SIZE
        invariant
            v <= CHUNK_MESH_SIZE,
            vertices@.len() == v,
            forall|w: int| 0 <= w < v ==> vertices@[w] == blank_vertex(),
        decreases CHUNK_MESH_SIZE - v,
    {
        vertices.push(Vertex { x: 0, y: 0, shade: Shade::Blank, u: 0, v: 0 });
        v += 1;
    }
    assert(vertices@ =~= Seq::new(CHUNK_MESH_SIZE as nat, |v: int| blank_vertex()));
    LayerMesh { vertices, indices: generate_chunk_indices() }
}

/// An air cell adds no visible geometry: its four vertices are blank (zero
/// position, colour and texture coordinates) and its quad keeps the default
/// winding.
pub proof fn lemma_air_cells_blank(
    m: Map<(int, int), ChunkView>,
    key: (int, int),
    layer: PlaceMode,
    settings: MeshSettings,
    i: int,
)
    requires
        0 <= i < CHUNK_AREA,
        cell_block(m, key, layer, i) == BlockType::AIR,
    ensures
        forall|c: int|
            0 <= c < 4 ==> #[trigger] expected_vertices(m, key, layer, settings)[4 * i + c]
                == blank_vertex(),
        forall|k: int|
            0 <= k < 6 ==> #[trigger] expected_indices(m, key, layer, settings)[6 * i + k]
                == quad_index(i, k, false),
{
    assert forall|c: int| 0 <= c < 4 implies #[trigger] expected_vertices(m, key, layer, settings)[4
        * i + c] == blank_vertex() by {
        lemma_div4(i, c);
    }
    assert forall|k: int| 0 <= k < 6 implies #[trigger] expected_indices(m, key, layer, settings)[6
        * i + k] == quad_index(i, k, false) by {
        lemma_div6(i, k);
    }
}

} // verus!
