use vstd::prelude::*;

verus! {

/// Edge length of one block, in pixels.
pub const TILE_SIZE: usize = 32;

/// Number of blocks along each side of a chunk.
pub const CHUNK_WIDTH: usize = 16;

/// Number of cells in a chunk.
pub const CHUNK_AREA: usize = 256;

/// Chunk coordinates stay strictly inside this bound, so that every global
/// block coordinate of a loaded chunk, and its neighbours, fit in an `i32`.
pub const CHUNK_LIMIT: i32 = 0x400_0000;

/// A signed 2D integer vector (global block or chunk coordinates).
#[derive(Clone, Copy, Debug, PartialEq, Eq, Structural, Hash)]
pub struct IVec2 {
    pub x: i32,
    pub y: i32,
}

/// An unsigned 2D integer vector (chunk-relative coordinates).
#[derive(Clone, Copy, Debug, PartialEq, Eq, Structural, Hash)]
pub struct UVec2 {
    pub x: u32,
    pub y: u32,
}

impl View for IVec2 {
    type V = (int, int);

    open spec fn view(&self) -> (int, int) {
        (self.x as int, self.y as int)
    }
}

impl View for UVec2 {
    type V = (int, int);

    open spec fn view(&self) -> (int, int) {
        (self.x as int, self.y as int)
    }
}

impl IVec2 {
    pub fn new(x: i32, y: i32) -> (r: IVec2)
        ensures
            r.x == x,
            r.y == y,
    {
        IVec2 { x, y }
    }
}

impl UVec2 {
    pub fn new(x: u32, y: u32) -> (r: UVec2)
        ensures
            r.x == x,
            r.y == y,
    {
        UVec2 { x, y }
    }
}

/// Chunk holding a global block position: component-wise floor division.
pub open spec fn chunk_of(p: (int, int)) -> (int, int) {
    (p.0 / 16, p.1 / 16)
}

/// Position of a global block relative to the origin of a chunk.
pub open spec fn relative_of(p: (int, int), c: (int, int)) -> (int, int) {
    (p.0 - c.0 * 16, p.1 - c.1 * 16)
}

/// Global position of a chunk-relative position.
pub open spec fn global_of(c: (int, int), r: (int, int)) -> (int, int) {
    (c.0 * 16 + r.0, c.1 * 16 + r.1)
}

/// Flat cell index of a relative position.
pub open spec fn index_of(r: (int, int)) -> int {
    r.0 + r.1 * 16
}

/// Relative position of a flat cell index.
pub open spec fn relative_from_index(i: int) -> (int, int) {
    (i % 16, (i / 16) % 16)
}

pub open spec fn in_chunk_bounds(r: (int, int)) -> bool {
    0 <= r.0 < 16 && 0 <= r.1 < 16
}

/// A chunk coordinate that the world can hold.
pub open spec fn chunk_in_range(c: (int, int)) -> bool {
    -CHUNK_LIMIT <= c.0 < CHUNK_LIMIT && -CHUNK_LIMIT <= c.1 < CHUNK_LIMIT
}

/// A global block coordinate inside a chunk that the world can hold.
pub open spec fn global_in_range(g: (int, int)) -> bool {
    -CHUNK_LIMIT * 16 <= g.0 < CHUNK_LIMIT * 16 && -CHUNK_LIMIT * 16 <= g.1 < CHUNK_LIMIT * 16
}

/// Floor division of an `i32` by the chunk width.
fn floor_div_width(a: i32) -> (r: i32)
    ensures
        r == a as int / 16,
{
    if a >= 0 {
        a / 16
    } else {
        let n: i32 = -(a + 1);
        let q: i32 = n / 16;
        proof {
            assert(a as int / 16 == -(q as int) - 1) by {
                assert(n as int == 16 * q + n % 16);
                assert(0 <= n % 16 < 16);
                assert(a as int == 16 * (-(q as int) - 1) + (15 - n % 16));
                vstd::arithmetic::div_mod::lemma_fundamental_div_mod_converse(
                    a as int, 16, -(q as int) - 1, 15 - n % 16);
            }
        }
        -q - 1
    }
}

/// Relative position of the `index`-th cell: `(index % 16, (index / 16) % 16)`.
pub fn get_position_from_index(index: usize) -> (r: UVec2)
    requires
        index <= u32::MAX,
    ensures
        r@ == relative_from_index(index as int),
{
    let i: u32 = index as u32;
    UVec2 { x: i % 16, y: (i / 16) % 16 }
}

/// Flat cell index of a chunk-relative position.
pub fn get_index_from_position(position: UVec2) -> (r: usize)
    requires
        in_chunk_bounds(position@),
    ensures
        r == index_of(position@),
        r < CHUNK_AREA,
{
    position.x as usize + position.y as usize * CHUNK_WIDTH
}

/// Chunk that a relative position, which may lie outside the chunk, falls in,
/// counted from the chunk it is relative to.
pub fn get_chunk_diff(relative_pos: IVec2) -> (r: IVec2)
    ensures
        r@ == chunk_of(relative_pos@),
{
    IVec2 { x: floor_div_width(relative_pos.x), y: floor_div_width(relative_pos.y) }
}

/// Chunk holding a global block position.
pub fn get_chunk_position(block_position: IVec2) -> (r: IVec2)
    ensures
        r@ == chunk_of(block_position@),
        global_in_range(block_position@) ==> chunk_in_range(r@),
{
    IVec2 { x: floor_div_width(block_position.x), y: floor_div_width(block_position.y) }
}

/// Position of a global block relative to a chunk's origin.
pub fn get_relative_position(global_position: IVec2, chunk_position: IVec2) -> (r: UVec2)
    requires
        0 <= relative_of(global_position@, chunk_position@).0 <= u32::MAX,
        0 <= relative_of(global_position@, chunk_position@).1 <= u32::MAX,
    ensures
        r@ == relative_of(global_position@, chunk_position@),
{
    let x: i64 = global_position.x as i64 - chunk_position.x as i64 * 16;
    let y: i64 = global_position.y as i64 - chunk_position.y as i64 * 16;
    UVec2 { x: x as u32, y: y as u32 }
}

/// Global position of a chunk-relative position.
pub fn get_global_position(chunk_position: IVec2, relative_pos: UVec2) -> (r: IVec2)
    requires
        i32::MIN <= global_of(chunk_position@, relative_pos@).0 <= i32::MAX,
        i32::MIN <= global_of(chunk_position@, relative_pos@).1 <= i32::MAX,
    ensures
        r@ == global_of(chunk_position@, relative_pos@),
{
    let x: i64 = chunk_position.x as i64 * 16 + relative_pos.x as i64;
    let y: i64 = chunk_position.y as i64 * 16 + relative_pos.y as i64;
    IVec2 { x: x as i32, y: y as i32 }
}

/// Whether both components of a relative position lie in `[0, 16)`.
pub fn relative_coord_is_inside_bounds(coord: IVec2) -> (r: bool)
    ensures
        r == in_chunk_bounds(coord@),
{
    coord.x >= 0 && coord.x < CHUNK_WIDTH as i32 && coord.y >= 0 && coord.y < CHUNK_WIDTH as i32
}

/// Mathematical modulo: the remainder of floor division, never negative.
pub fn modular(a: i32, b: i32) -> (r: i32)
    requires
        b > 0,
    ensures
        r == a as int % b as int,
        0 <= r < b,
{
    if a >= 0 {
        a % b
    } else {
        let n: i32 = -(a + 1);
        let m: i32 = n % b;
        proof {
            assert(a as int % b as int == b - 1 - m) by {
                vstd::arithmetic::div_mod::lemma_fundamental_div_mod(n as int, b as int);
                let q = n as int / b as int;
                assert(a as int == b * (-q - 1) + (b - 1 - m)) by (nonlinear_arith)
                    requires n == b * q + m, a == -(n + 1);
                vstd::arithmetic::div_mod::lemma_fundamental_div_mod_converse(
                    a as int, b as int, -q - 1, b - 1 - m);
            }
        }
        b - 1 - m
    }
}

/// Splitting a global position into chunk and relative parts and joining
/// them again gives the position back, and the relative part lies inside
/// the chunk.
pub proof fn lemma_coordinate_round_trip(p: (int, int))
    ensures
        global_of(chunk_of(p), relative_of(p, chunk_of(p))) == p,
        in_chunk_bounds(relative_of(p, chunk_of(p))),
{
    vstd::arithmetic::div_mod::lemma_fundamental_div_mod(p.0, 16);
    vstd::arithmetic::div_mod::lemma_fundamental_div_mod(p.1, 16);
}

/// Turning a cell index into a relative position and back gives the index.
pub proof fn lemma_index_round_trip(i: int)
    requires
        0 <= i < CHUNK_AREA,
    ensures
        index_of(relative_from_index(i)) == i,
        in_chunk_bounds(relative_from_index(i)),
{
    assert(index_of(relative_from_index(i)) == i) by (nonlinear_arith)
        requires 0 <= i < 256;
}

} // verus!
