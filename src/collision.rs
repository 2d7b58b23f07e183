use vstd::prelude::*;

use crate::block::BlockType;
use crate::chunk::Chunks;
use crate::coords::{
    get_position_from_index, in_chunk_bounds, index_of, lemma_index_round_trip,
    relative_from_index, IVec2, UVec2, CHUNK_AREA, CHUNK_WIDTH, TILE_SIZE,
};

verus! {

/// Rectangle of blocks between two corners, both included, in chunk-relative
/// block coordinates.
#[derive(Clone, Copy, Debug, PartialEq, Eq, Structural)]
pub struct Rectangle {
    pub start: UVec2,
    pub end: UVec2,
}

/// Placement of one collider: centre and size in pixels.
#[derive(Clone, Copy, Debug, PartialEq, Eq, Structural)]
pub struct ColliderSpawnDetails {
    pub center: UVec2,
    pub size: UVec2,
}

pub open spec fn between(a: int, b: int, n: int) -> bool {
    (a <= n && n <= b) || (a >= n && n >= b)
}

pub open spec fn rect_contains(r: Rectangle, p: (int, int)) -> bool {
    between(r.start.x as int, r.end.x as int, p.0) && between(r.start.y as int, r.end.y as int, p.1)
}

/// Whether a cell lies in one of the rectangles.
pub open spec fn covered(rs: Seq<Rectangle>, p: (int, int)) -> bool {
    exists|i: int| 0 <= i < rs.len() && #[trigger] rect_contains(rs[i], p)
}

/// Whether the cell at a relative position is solid (collides).
pub open spec fn cell_solid(grid: Seq<BlockType>, p: (int, int)) -> bool {
    !grid[index_of(p)].spec_is_passthrough()
}

/// A cell that a new rectangle may claim: in bounds, solid, not yet covered.
pub open spec fn claimable(grid: Seq<BlockType>, rs: Seq<Rectangle>, p: (int, int)) -> bool {
    in_chunk_bounds(p) && cell_solid(grid, p) && !covered(rs, p)
}

pub open spec fn can_grow_up(grid: Seq<BlockType>, rs: Seq<Rectangle>, r: Rectangle) -> bool {
    claimable(grid, rs, (r.end.x as int, r.end.y + 1))
}

pub open spec fn can_grow_right(grid: Seq<BlockType>, rs: Seq<Rectangle>, r: Rectangle) -> bool {
    r.end.x + 1 < CHUNK_WIDTH && forall|y: int|
        r.start.y <= y <= r.end.y ==> #[trigger] claimable(grid, rs, (r.end.x + 1, y))
}

pub open spec fn moved_end(r: Rectangle, dx: int, dy: int) -> Rectangle {
    Rectangle { start: r.start, end: UVec2 { x: (r.end.x + dx) as u32, y: (r.end.y + dy) as u32 } }
}

/// Widens a rectangle one column at a time while the next column is claimable.
pub open spec fn grow_right(grid: Seq<BlockType>, rs: Seq<Rectangle>, r: Rectangle) -> Rectangle
    decreases CHUNK_WIDTH - r.end.x,
{
    if can_grow_right(grid, rs, r) {
        grow_right(grid, rs, moved_end(r, 1, 0))
    } else {
        r
    }
}

/// Extends a rectangle upward while the next cell is claimable, then widens it.
pub open spec fn grow_up(grid: Seq<BlockType>, rs: Seq<Rectangle>, r: Rectangle) -> Rectangle
    decreases CHUNK_WIDTH - r.end.y,
{
    if can_grow_up(grid, rs, r) {
        grow_up(grid, rs, moved_end(r, 0, 1))
    } else {
        grow_right(grid, rs, r)
    }
}

pub open spec fn unit_rect(p: (int, int)) -> Rectangle {
    let u = UVec2 { x: p.0 as u32, y: p.1 as u32 };
    Rectangle { start: u, end: u }
}

/// Rectangles emitted after scanning the first `n` cells in index order.
pub open spec fn greedy_scan(grid: Seq<BlockType>, n: int) -> Seq<Rectangle>
    decreases n,
{
    if n <= 0 {
        Seq::empty()
    } else {
        let rs = greedy_scan(grid, n - 1);
        let p = relative_from_index(n - 1);
        if cell_solid(grid, p) && !covered(rs, p) {
            rs.push(grow_up(grid, rs, unit_rect(p)))
        } else {
            rs
        }
    }
}

/// The collision rectangles of a whole grid.
pub open spec fn greedy_mesh(grid: Seq<BlockType>) -> Seq<Rectangle> {
    greedy_scan(grid, CHUNK_AREA as int)
}

/// An upright rectangle inside the chunk.
pub open spec fn rect_in_bounds(r: Rectangle) -> bool {
    r.start.x <= r.end.x < CHUNK_WIDTH && r.start.y <= r.end.y < CHUNK_WIDTH
}

/// Every cell of the rectangle is claimable against `rs`.
pub open spec fn rect_claimable(grid: Seq<BlockType>, rs: Seq<Rectangle>, r: Rectangle) -> bool {
    rect_in_bounds(r) && forall|p: (int, int)| #[trigger] rect_contains(r, p) ==> claimable(grid, rs, p)
}

/// Soundness of a set of rectangles on a grid: each is upright and inside the
/// chunk, covers solid cells only, and no two share a cell.
pub open spec fn mesh_sound(grid: Seq<BlockType>, rs: Seq<Rectangle>) -> bool {
    &&& forall|i: int| 0 <= i < rs.len() ==> rect_in_bounds(#[trigger] rs[i])
    &&& forall|i: int, p: (int, int)|
        0 <= i < rs.len() && #[trigger] rect_contains(rs[i], p) ==> in_chunk_bounds(p)
            && cell_solid(grid, p)
    &&& forall|i: int, j: int, p: (int, int)|
        0 <= i < j < rs.len() ==> !(#[trigger] rect_contains(rs[i], p) && #[trigger] rect_contains(
            rs[j],
            p,
        ))
}

proof fn lemma_grow_right(grid: Seq<BlockType>, rs: Seq<Rectangle>, r: Rectangle)
    requires
        rect_claimable(grid, rs, r),
    ensures
        rect_claimable(grid, rs, grow_right(grid, rs, r)),
        grow_right(grid, rs, r).start == r.start,
    decreases CHUNK_WIDTH - r.end.x,
{
    if can_grow_right(grid, rs, r) {
        let m = moved_end(r, 1, 0);
        assert forall|p: (int, int)| #[trigger] rect_contains(m, p) implies claimable(grid, rs, p) by {
            if p.0 == m.end.x {
                assert(claimable(grid, rs, (r.end.x + 1, p.1)));
            } else {
                assert(rect_contains(r, p));
            }
        }
        lemma_grow_right(grid, rs, m);
    }
}

proof fn lemma_grow_up(grid: Seq<BlockType>, rs: Seq<Rectangle>, r: Rectangle)
    requires
        rect_claimable(grid, rs, r),
        r.start.x == r.end.x,
    ensures
        rect_claimable(grid, rs, grow_up(grid, rs, r)),
        grow_up(grid, rs, r).start == r.start,
    decreases CHUNK_WIDTH - r.end.y,
{
    if can_grow_up(grid, rs, r) {
        let m = moved_end(r, 0, 1);
        assert forall|p: (int, int)| #[trigger] rect_contains(m, p) implies claimable(grid, rs, p) by {
            if p.1 == m.end.y {
                assert(p == (r.end.x as int, r.end.y + 1));
            } else {
                assert(rect_contains(r, p));
            }
        }
        lemma_grow_up(grid, rs, m);
    } else {
        lemma_grow_right(grid, rs, r);
    }
}

proof fn lemma_covered_push(rs: Seq<Rectangle>, g: Rectangle, p: (int, int))
    requires
        covered(rs, p),
    ensures
        covered(rs.push(g), p),
{
    let i = choose|i: int| 0 <= i < rs.len() && rect_contains(rs[i], p);
    assert(rs.push(g)[i] == rs[i]);
}

proof fn lemma_scan(grid: Seq<BlockType>, n: int)
    requires
        grid.len() == CHUNK_AREA,
        0 <= n <= CHUNK_AREA,
    ensures
        mesh_sound(grid, greedy_scan(grid, n)),
        forall|k: int|
            0 <= k < n && cell_solid(grid, relative_from_index(k)) ==> covered(
                greedy_scan(grid, n),
                #[trigger] relative_from_index(k),
            ),
    decreases n,
{
    if n > 0 {
        lemma_scan(grid, n - 1);
        let rs = greedy_scan(grid, n - 1);
        let p = relative_from_index(n - 1);
        lemma_index_round_trip(n - 1);
        if cell_solid(grid, p) && !covered(rs, p) {
            let u = unit_rect(p);
            assert forall|q: (int, int)| #[trigger] rect_contains(u, q) implies claimable(
                grid,
                rs,
                q,
            ) by {
                assert(q == p);
            }
            lemma_grow_up(grid, rs, u);
            let g = grow_up(grid, rs, u);
            let rs2 = rs.push(g);
            assert forall|i: int, j: int, q: (int, int)| 0 <= i < j < rs2.len() implies !(
            #[trigger] rect_contains(rs2[i], q) && #[trigger] rect_contains(rs2[j], q)) by {
                if j == rs.len() as int {
                    if rect_contains(rs2[j], q) {
                        assert(claimable(grid, rs, q));
                        if rect_contains(rs2[i], q) {
                            assert(rs2[i] == rs[i]);
                            assert(covered(rs, q));
                        }
                    }
                } else {
                    assert(rs2[i] == rs[i]);
                    assert(rs2[j] == rs[j]);
                }
            }
            assert forall|i: int, q: (int, int)| 0 <= i < rs2.len() && #[trigger] rect_contains(
                rs2[i],
                q,
            ) implies in_chunk_bounds(q) && cell_solid(grid, q) by {
                if i == rs.len() as int {
                    assert(claimable(grid, rs, q));
                } else {
                    assert(rs2[i] == rs[i]);
                }
            }
            assert forall|i: int| 0 <= i < rs2.len() implies rect_in_bounds(#[trigger] rs2[i]) by {
                if i < rs.len() {
                    assert(rs2[i] == rs[i]);
                }
            }
            assert forall|k: int|
                0 <= k < n && cell_solid(grid, relative_from_index(k)) implies covered(
                rs2,
                #[trigger] relative_from_index(k),
            ) by {
                if k < n - 1 {
                    lemma_covered_push(rs, g, relative_from_index(k));
                } else {
                    assert(rect_contains(rs2[rs.len() as int], p));
                }
            }
        }
    }
}

/// Every solid cell of a layer lies in exactly one collision rectangle, and
/// no rectangle holds a cell that is not solid.
pub proof fn lemma_mesh_coverage(grid: Seq<BlockType>)
    requires
        grid.len() == CHUNK_AREA,
    ensures
        mesh_sound(grid, greedy_mesh(grid)),
        forall|p: (int, int)|
            in_chunk_bounds(p) ==> (cell_solid(grid, p) <==> #[trigger] covered(greedy_mesh(grid), p)),
{
    lemma_scan(grid, CHUNK_AREA as int);
    let rs = greedy_mesh(grid);
    assert forall|p: (int, int)| in_chunk_bounds(p) implies (cell_solid(grid, p) <==> #[trigger] covered(
        rs,
        p,
    )) by {
        let k = index_of(p);
        assert(relative_from_index(k) == p) by (nonlinear_arith)
            requires k == p.0 + p.1 * 16, 0 <= p.0 < 16, 0 <= p.1 < 16;
        if covered(rs, p) {
            let i = choose|i: int| 0 <= i < rs.len() && rect_contains(rs[i], p);
        }
    }
}

/// A layer without solid cells gets no collision rectangle.
pub proof fn lemma_mesh_empty(grid: Seq<BlockType>)
    requires
        grid.len() == CHUNK_AREA,
        forall|i: int| 0 <= i < CHUNK_AREA ==> grid[i] == BlockType::AIR,
    ensures
        greedy_mesh(grid).len() == 0,
{
    lemma_mesh_coverage(grid);
    let rs = greedy_mesh(grid);
    if rs.len() > 0 {
        let r = rs[0];
        let p = (r.start.x as int, r.start.y as int);
        assert(rect_contains(rs[0], p));
        assert(0 <= index_of(p) < CHUNK_AREA);
    }
}

pub open spec fn full_rect() -> Rectangle {
    Rectangle { start: UVec2 { x: 0, y: 0 }, end: UVec2 { x: 15, y: 15 } }
}

proof fn lemma_full_grow_right(grid: Seq<BlockType>, r: Rectangle)
    requires
        grid.len() == CHUNK_AREA,
        forall|i: int| 0 <= i < CHUNK_AREA ==> grid[i] != BlockType::AIR,
        rect_in_bounds(r),
    ensures
        grow_right(grid, Seq::empty(), r) == moved_end(r, 15 - r.end.x, 0),
    decreases CHUNK_WIDTH - r.end.x,
{
    if r.end.x < 15 {
        assert forall|y: int| r.start.y <= y <= r.end.y implies #[trigger] claimable(
            grid,
            Seq::empty(),
            (r.end.x + 1, y),
        ) by {
            assert(0 <= index_of((r.end.x + 1, y)) < CHUNK_AREA);
        }
        lemma_full_grow_right(grid, moved_end(r, 1, 0));
    }
}

proof fn lemma_full_grow_up(grid: Seq<BlockType>, r: Rectangle)
    requires
        grid.len() == CHUNK_AREA,
        forall|i: int| 0 <= i < CHUNK_AREA ==> grid[i] != BlockType::AIR,
        rect_in_bounds(r),
    ensures
        grow_up(grid, Seq::empty(), r) == grow_right(grid, Seq::empty(), moved_end(r, 0, 15 - r.end.y)),
    decreases CHUNK_WIDTH - r.end.y,
{
    if r.end.y < 15 {
        assert(0 <= index_of((r.end.x as int, r.end.y + 1)) < CHUNK_AREA);
        lemma_full_grow_up(grid, moved_end(r, 0, 1));
    } else {
        assert(moved_end(r, 0, 0) == r);
    }
}

proof fn lemma_full_scan(grid: Seq<BlockType>, n: int)
    requires
        grid.len() == CHUNK_AREA,
        forall|i: int| 0 <= i < CHUNK_AREA ==> grid[i] != BlockType::AIR,
        1 <= n <= CHUNK_AREA,
    ensures
        greedy_scan(grid, n) == seq![full_rect()],
    decreases n,
{
    if n == 1 {
        let p = relative_from_index(0);
        assert(greedy_scan(grid, 0) == Seq::<Rectangle>::empty());
        let u = unit_rect(p);
        lemma_full_grow_up(grid, u);
        lemma_full_grow_right(grid, moved_end(u, 0, 15));
        assert(greedy_scan(grid, 1) =~= seq![full_rect()]);
    } else {
        lemma_full_scan(grid, n - 1);
        let p = relative_from_index(n - 1);
        lemma_index_round_trip(n - 1);
        assert(rect_contains(seq![full_rect()][0], p));
    }
}

/// A layer whose every cell is solid gets one rectangle spanning the chunk.
pub proof fn lemma_mesh_full(grid: Seq<BlockType>)
    requires
        grid.len() == CHUNK_AREA,
        forall|i: int| 0 <= i < CHUNK_AREA ==> grid[i] != BlockType::AIR,
    ensures
        greedy_mesh(grid) == seq![full_rect()],
{
    lemma_full_scan(grid, CHUNK_AREA as int);
}

/// Collider of a rectangle: size is the block count times the tile size,
/// centre is half the size past the rectangle's first pixel.
pub open spec fn collider_of(r: Rectangle) -> ColliderSpawnDetails {
    let w = (r.end.x - r.start.x + 1) * TILE_SIZE;
    let h = (r.end.y - r.start.y + 1) * TILE_SIZE;
    ColliderSpawnDetails {
        center: UVec2 {
            x: (w / 2 + r.start.x * TILE_SIZE) as u32,
            y: (h / 2 + r.start.y * TILE_SIZE) as u32,
        },
        size: UVec2 { x: w as u32, y: h as u32 },
    }
}

impl Rectangle {
    pub fn new(start: UVec2, end: UVec2) -> (r: Rectangle)
        ensures
            r.start == start,
            r.end == end,
    {
        Rectangle { start, end }
    }

    /// Centre and size in pixels of the collider for this rectangle.
    pub fn as_collider_spawn(&self) -> (r: ColliderSpawnDetails)
        requires
            rect_in_bounds(*self),
        ensures
            r.size.x == (self.end.x - self.start.x + 1) * TILE_SIZE,
            r.size.y == (self.end.y - self.start.y + 1) * TILE_SIZE,
            r.center.x == r.size.x / 2 + self.start.x * TILE_SIZE,
            r.center.y == r.size.y / 2 + self.start.y * TILE_SIZE,
            r == collider_of(*self),
    {
        let size = UVec2 {
            x: (self.end.x - self.start.x + 1) * TILE_SIZE as u32,
            y: (self.end.y - self.start.y + 1) * TILE_SIZE as u32,
        };
        let center = UVec2 {
            x: size.x / 2 + self.start.x * TILE_SIZE as u32,
            y: size.y / 2 + self.start.y * TILE_SIZE as u32,
        };
        ColliderSpawnDetails { center, size }
    }
}

fn block_index(block: UVec2) -> (r: usize)
    requires
        in_chunk_bounds(block@),
    ensures
        r == index_of(block@),
        r < CHUNK_AREA,
{
    block.y as usize * CHUNK_WIDTH + block.x as usize
}

fn collides(block: BlockType) -> (r: bool)
    ensures
        r == !block.spec_is_passthrough(),
{
    !block.is_passthrough()
}

fn block_at_collides(block: UVec2, chunk: &[BlockType; CHUNK_AREA]) -> (r: bool)
    requires
        in_chunk_bounds(block@),
    ensures
        r == cell_solid(chunk@, block@),
{
    collides(chunk[block_index(block)])
}

fn is_between_numbers(a: u32, b: u32, n: u32) -> (r: bool)
    ensures
        r == between(a as int, b as int, n as int),
{
    (a <= n && n <= b) || (a >= n && n >= b)
}

fn is_inside_rectangle(rectangle: Rectangle, point: UVec2) -> (r: bool)
    ensures
        r == rect_contains(rectangle, point@),
{
    is_between_numbers(rectangle.start.x, rectangle.end.x, point.x) && is_between_numbers(
        rectangle.start.y,
        rectangle.end.y,
        point.y,
    )
}

fn is_meshed(block: UVec2, meshes: &Vec<Rectangle>) -> (r: bool)
    ensures
        r == covered(meshes@, block@),
{
    let mut i: usize = 0;
    while i < meshes.len()
        invariant
            i <= meshes@.len(),
            forall|j: int| 0 <= j < i ==> !rect_contains(#[trigger] meshes@[j], block@),
        decreases meshes@.len() - i,
    {
        if is_inside_rectangle(meshes[i], block) {
            return true;
        }
        i += 1;
    }
    false
}

fn is_in_chunk_bounds(position: UVec2) -> (r: bool)
    ensures
        r == in_chunk_bounds(position@),
{
    position.x < CHUNK_WIDTH as u32 && position.y < CHUNK_WIDTH as u32
}

/// Whether every cell of column `x` between rows `y_min` and `y_max` is
/// claimable: solid and not in any rectangle.
fn column_is_claimable(
    chunk: &[BlockType; CHUNK_AREA],
    meshes: &Vec<Rectangle>,
    x: u32,
    y_min: u32,
    y_max: u32,
) -> (r: bool)
    requires
        x < CHUNK_WIDTH,
        y_min <= y_max < CHUNK_WIDTH,
    ensures
        r == forall|y: int| y_min <= y <= y_max ==> #[trigger] claimable(chunk@, meshes@, (x as int, y)),
{
    let mut y: u32 = y_min;
    while y <= y_max
        invariant
            y_max < CHUNK_WIDTH,
            x < CHUNK_WIDTH,
            y_min <= y <= y_max + 1,
            forall|k: int| y_min <= k < y ==> #[trigger] claimable(chunk@, meshes@, (x as int, k)),
        decreases y_max + 1 - y,
    {
        let p = UVec2 { x, y };
        if !block_at_collides(p, chunk) || is_meshed(p, meshes) {
            assert(!claimable(chunk@, meshes@, (x as int, y as int)));
            return false;
        }
        y += 1;
    }
    true
}

fn mesh_expand_right(mesh: Rectangle, chunk: &[BlockType; CHUNK_AREA], meshes: &Vec<Rectangle>) -> (r:
    Rectangle)
    requires
        rect_in_bounds(mesh),
    ensures
        r == grow_right(chunk@, meshes@, mesh),
    decreases CHUNK_WIDTH - mesh.end.x,
{
    let next_x = mesh.end.x + 1;
    let valid = next_x < CHUNK_WIDTH as u32 && column_is_claimable(
        chunk,
        meshes,
        next_x,
        mesh.start.y,
        mesh.end.y,
    );
    assert(valid == can_grow_right(chunk@, meshes@, mesh));
    if valid {
        mesh_expand_right(Rectangle::new(mesh.start, UVec2 { x: next_x, y: mesh.end.y }), chunk, meshes)
    } else {
        mesh
    }
}

fn mesh_expand_up_and_right(
    mesh: Rectangle,
    chunk: &[BlockType; CHUNK_AREA],
    meshes: &Vec<Rectangle>,
) -> (r: Rectangle)
    requires
        rect_in_bounds(mesh),
    ensures
        r == grow_up(chunk@, meshes@, mesh),
    decreases CHUNK_WIDTH - mesh.end.y,
{
    let next_end = UVec2 { x: mesh.end.x, y: mesh.end.y + 1 };
    let valid = is_in_chunk_bounds(next_end) && !is_meshed(next_end, meshes) && block_at_collides(
        next_end,
        chunk,
    );
    if valid {
        mesh_expand_up_and_right(Rectangle::new(mesh.start, next_end), chunk, meshes)
    } else {
        mesh_expand_right(mesh, chunk, meshes)
    }
}

/// Grows a rectangle from `start` following the greedy rule.
fn mesh(start: UVec2, chunk: &[BlockType; CHUNK_AREA], meshes: &Vec<Rectangle>) -> (r: Rectangle)
    requires
        in_chunk_bounds(start@),
    ensures
        r == grow_up(chunk@, meshes@, unit_rect(start@)),
{
    mesh_expand_up_and_right(Rectangle { start, end: start }, chunk, meshes)
}

fn maybe_add_mesh_from(start: UVec2, chunk: &[BlockType; CHUNK_AREA], meshes: &mut Vec<Rectangle>)
    requires
        in_chunk_bounds(start@),
    ensures
        final(meshes)@ == if covered(old(meshes)@, start@) {
            old(meshes)@
        } else {
            old(meshes)@.push(grow_up(chunk@, old(meshes)@, unit_rect(start@)))
        },
{
    if !is_meshed(start, meshes) {
        let r = mesh(start, chunk, meshes);
        meshes.push(r);
    }
}

/// Covers the solid cells of a layer with rectangles: cells are scanned in
/// index order, and from each solid cell not yet covered a rectangle is grown
/// upward, then rightward.
pub fn mesh_chunk(chunk: [BlockType; CHUNK_AREA]) -> (r: Vec<Rectangle>)
    ensures
        r@ == greedy_mesh(chunk@),
{
    let mut meshes: Vec<Rectangle> = Vec::new();
    let mut i: usize = 0;
    while i < CHUNK_AREA
        invariant
            i <= CHUNK_AREA,
            meshes@ == greedy_scan(chunk@, i as int),
        decreases CHUNK_AREA - i,
    {
        let p = get_position_from_index(i);
        proof {
            lemma_index_round_trip(i as int);
        }
        if collides(chunk[i]) {
            maybe_add_mesh_from(p, &chunk, &mut meshes);
        }
        i += 1;
    }
    meshes
}

/// Colliders for the block layer of a loaded chunk: one per rectangle of
/// the greedy mesh, in the same order.
pub fn regenerate_collision(chunks: &Chunks, chunk_pos: IVec2) -> (r: Option<Vec<ColliderSpawnDetails>>)
    requires
        chunks.wf(),
    ensures
        r is Some <==> chunks@.contains_key(chunk_pos@),
        r matches Some(v) ==> v@ == greedy_mesh(chunks@[chunk_pos@].blocks).map_values(
            |rect: Rectangle| collider_of(rect),
        ),
{
    let chunk = match chunks.get(chunk_pos) {
        None => {
            return None;
        },
        Some(c) => c,
    };
    let rects = mesh_chunk(chunk.layers[1]);
    proof {
        lemma_mesh_coverage(chunk.layers[1]@);
    }
    let mut out: Vec<ColliderSpawnDetails> = Vec::new();
    let mut i: usize = 0;
    while i < rects.len()
        invariant
            i <= rects@.len(),
            rects@ == greedy_mesh(chunk.layers[1]@),
            mesh_sound(chunk.layers[1]@, rects@),
            out@.len() == i,
            forall|j: int| 0 <= j < i ==> out@[j] == collider_of(rects@[j]),
        decreases rects@.len() - i,
    {
        out.push(rects[i].as_collider_spawn());
        i += 1;
    }
    assert(out@ =~= rects@.map_values(|rect: Rectangle| collider_of(rect)));
    Some(out)
}

} // verus!
