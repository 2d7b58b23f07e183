use vstd::prelude::*;

use crate::block::{BlockType, PlaceMode};
use crate::chunk::{
    block_at, block_or_air, cross_direction, has_neighbours, light_or_dark, offset,
    ring_direction, Chunks,
};
use crate::coords::{chunk_of, IVec2};

verus! {

fn cross_step(k: usize) -> (r: (i32, i32))
    requires
        k < 5,
    ensures
        (r.0 as int, r.1 as int) == cross_direction(k as int),
{
    match k {
        1 => (0, 1),
        2 => (1, 0),
        3 => (0, -1),
        4 => (-1, 0),
        _ => (0, 0),
    }
}

fn ring_step(k: usize) -> (r: (i32, i32))
    requires
        k < 9,
    ensures
        (r.0 as int, r.1 as int) == ring_direction(k as int),
{
    match k {
        1 => (0, -1),
        2 => (1, 0),
        3 => (0, 1),
        4 => (-1, 0),
        5 => (-1, -1),
        6 => (1, -1),
        7 => (1, 1),
        8 => (-1, 1),
        _ => (0, 0),
    }
}

fn shifted(g: IVec2, d: (i32, i32)) -> (r: IVec2)
    requires
        has_neighbours(g@),
        -1 <= d.0 <= 1,
        -1 <= d.1 <= 1,
    ensures
        r@ == offset(g@, (d.0 as int, d.1 as int)),
{
    IVec2 { x: g.x + d.0, y: g.y + d.1 }
}

/// Block of a layer at a global position whose chunk is loaded.
pub fn get_block(chunks_res: &Chunks, block_position: IVec2, layer: PlaceMode) -> (r: BlockType)
    requires
        chunks_res.wf(),
        chunks_res@.contains_key(chunk_of(block_position@)),
    ensures
        block_at(chunks_res@, block_position@, layer.spec_index()) == Some(r),
{
    chunks_res.block_at(block_position, layer).unwrap()
}

/// Blocks of a layer at a position and its four neighbours, in the order
/// centre, up, right, down, left. A neighbour in an unloaded chunk reads as
/// air; `None` when the position's own chunk is not loaded.
pub fn get_neighboring_blocks(chunks_res: &Chunks, block_position: IVec2, layer: PlaceMode) -> (r:
    Option<[BlockType; 5]>)
    requires
        chunks_res.wf(),
        has_neighbours(block_position@),
    ensures
        r is Some <==> chunks_res@.contains_key(chunk_of(block_position@)),
        r matches Some(n) ==> forall|k: int|
            0 <= k < 5 ==> n[k] == block_or_air(
                chunks_res@,
                offset(block_position@, cross_direction(k)),
                layer.spec_index(),
            ),
{
    if !chunks_res.contains_key(crate::coords::get_chunk_position(block_position)) {
        return None;
    }
    let mut n = [BlockType::AIR; 5];
    let mut k: usize = 0;
    while k < 5
        invariant
            chunks_res.wf(),
            has_neighbours(block_position@),
            k <= 5,
            forall|j: int|
                0 <= j < k ==> n[j] == block_or_air(
                    chunks_res@,
                    offset(block_position@, cross_direction(j)),
                    layer.spec_index(),
                ),
        decreases 5 - k,
    {
        let p = shifted(block_position, cross_step(k));
        if let Some(b) = chunks_res.block_at(p, layer) {
            n[k] = b;
        } else {
            n[k] = BlockType::AIR;
        }
        k += 1;
    }
    Some(n)
}

/// Light at a position and its four neighbours, in the order centre, up,
/// right, down, left. A neighbour in an unloaded chunk reads as 0; `None`
/// when the position's own chunk is not loaded.
pub fn get_neighboring_lights(chunks_res: &Chunks, block_position: IVec2) -> (r: Option<[u8; 5]>)
    requires
        chunks_res.wf(),
        has_neighbours(block_position@),
    ensures
        r is Some <==> chunks_res@.contains_key(chunk_of(block_position@)),
        r matches Some(n) ==> forall|k: int|
            0 <= k < 5 ==> n[k] == light_or_dark(
                chunks_res@,
                offset(block_position@, cross_direction(k)),
            ),
{
    if !chunks_res.contains_key(crate::coords::get_chunk_position(block_position)) {
        return None;
    }
    let mut n = [0u8; 5];
    let mut k: usize = 0;
    while k < 5
        invariant
            chunks_res.wf(),
            has_neighbours(block_position@),
            k <= 5,
            forall|j: int|
                0 <= j < k ==> n[j] == light_or_dark(
                    chunks_res@,
                    offset(block_position@, cross_direction(j)),
                ),
        decreases 5 - k,
    {
        let p = shifted(block_position, cross_step(k));
        if let Some(l) = chunks_res.light_at(p) {
            n[k] = l;
        } else {
            n[k] = 0;
        }
        k += 1;
    }
    Some(n)
}

/// Blocks of a layer at a position and its eight neighbours, in the order
/// centre, down, right, up, left, bottom left, bottom right, top right,
/// top left. Unloaded neighbours read as air; `None` when the position's own
/// chunk is not loaded.
pub fn get_neighboring_blocks_with_corners(
    chunks_res: &Chunks,
    block_position: IVec2,
    layer: PlaceMode,
) -> (r: Option<[BlockType; 9]>)
    requires
        chunks_res.wf(),
        has_neighbours(block_position@),
    ensures
        r is Some <==> chunks_res@.contains_key(chunk_of(block_position@)),
        r matches Some(n) ==> forall|k: int|
            0 <= k < 9 ==> n[k] == block_or_air(
                chunks_res@,
                offset(block_position@, ring_direction(k)),
                layer.spec_index(),
            ),
{
    if !chunks_res.contains_key(crate::coords::get_chunk_position(block_position)) {
        return None;
    }
    let mut n = [BlockType::AIR; 9];
    let mut k: usize = 0;
    while k < 9
        invariant
            chunks_res.wf(),
            has_neighbours(block_position@),
            k <= 9,
            forall|j: int|
                0 <= j < k ==> n[j] == block_or_air(
                    chunks_res@,
                    offset(block_position@, ring_direction(j)),
                    layer.spec_index(),
                ),
        decreases 9 - k,
    {
        let p = shifted(block_position, ring_step(k));
        if let Some(b) = chunks_res.block_at(p, layer) {
            n[k] = b;
        } else {
            n[k] = BlockType::AIR;
        }
        k += 1;
    }
    Some(n)
}

/// Light at a position and its eight neighbours, in the order of
/// `get_neighboring_blocks_with_corners`. Unloaded neighbours read as 0;
/// `None` when the position's own chunk is not loaded.
pub fn get_neighboring_lights_with_corners(chunks_res: &Chunks, block_position: IVec2) -> (r:
    Option<[u8; 9]>)
    requires
        chunks_res.wf(),
        has_neighbours(block_position@),
    ensures
        r is Some <==> chunks_res@.contains_key(chunk_of(block_position@)),
        r matches Some(n) ==> forall|k: int|
            0 <= k < 9 ==> n[k] == light_or_dark(
                chunks_res@,
                offset(block_position@, ring_direction(k)),
            ),
{
    if !chunks_res.contains_key(crate::coords::get_chunk_position(block_position)) {
        return None;
    }
    let mut n = [0u8; 9];
    let mut k: usize = 0;
    while k < 9
        invariant
            chunks_res.wf(),
            has_neighbours(block_position@),
            k <= 9,
            forall|j: int|
                0 <= j < k ==> n[j] == light_or_dark(
                    chunks_res@,
                    offset(block_position@, ring_direction(j)),
                ),
        decreases 9 - k,
    {
        let p = shifted(block_position, ring_step(k));
        if let Some(l) = chunks_res.light_at(p) {
            n[k] = l;
        } else {
            n[k] = 0;
        }
        k += 1;
    }
    Some(n)
}

} // verus!
