use vstd::prelude::*;

use crate::chunk::{
    cross_direction, has_neighbours, light_or_dark, offset, ChunkView, Chunks, MAX_LIGHT,
};
use crate::coords::{
    chunk_of, get_global_position, get_position_from_index, global_of, index_of,
    lemma_coordinate_round_trip, lemma_index_round_trip, relative_from_index, relative_of, IVec2,
    CHUNK_AREA,
};
use crate::neighbors::get_neighboring_lights;

verus! {

/// Number of relaxation rounds that one lighting pass runs.
pub const LIGHT_ROUNDS: usize = 16;

/// A cell open on both layers: it is a light source.
pub open spec fn is_open_cell(c: ChunkView, i: int) -> bool {
    c.blocks[i].spec_is_transparent() && c.walls[i].spec_is_transparent()
}

/// Light of the `k`-th neighbour (1: up, 2: right, 3: down, 4: left) of cell
/// `i` of the chunk at `key`; a neighbour in an unloaded chunk reads as 0,
/// which never raises the maximum.
pub open spec fn neighbour_light(m: Map<(int, int), ChunkView>, key: (int, int), i: int, k: int) -> int {
    light_or_dark(m, offset(global_of(key, relative_from_index(i)), cross_direction(k))) as int
}

pub open spec fn max2(a: int, b: int) -> int {
    if a >= b {
        a
    } else {
        b
    }
}

pub open spec fn brightest_neighbour(m: Map<(int, int), ChunkView>, key: (int, int), i: int) -> int {
    max2(
        max2(neighbour_light(m, key, i, 1), neighbour_light(m, key, i, 2)),
        max2(neighbour_light(m, key, i, 3), neighbour_light(m, key, i, 4)),
    )
}

/// Light of a cell after one round: 15 for an open cell, else one less than
/// its brightest neighbour, never below 0.
pub open spec fn next_light(m: Map<(int, int), ChunkView>, key: (int, int), i: int) -> u8 {
    if is_open_cell(m[key], i) {
        MAX_LIGHT
    } else {
        let b = brightest_neighbour(m, key, i);
        if b > 0 {
            (b - 1) as u8
        } else {
            0
        }
    }
}

/// One relaxation round: every chunk's light is recomputed from the state
/// before the round.
pub open spec fn light_round(m: Map<(int, int), ChunkView>) -> Map<(int, int), ChunkView> {
    Map::new(
        |k: (int, int)| m.contains_key(k),
        |k: (int, int)|
            ChunkView {
                light: Seq::new(CHUNK_AREA as nat, |i: int| next_light(m, k, i)),
                ..m[k]
            },
    )
}

pub open spec fn light_rounds(m: Map<(int, int), ChunkView>, n: nat) -> Map<(int, int), ChunkView>
    decreases n,
{
    if n == 0 {
        m
    } else {
        light_round(light_rounds(m, (n - 1) as nat))
    }
}

/// The world after a full lighting pass.
pub open spec fn solved_lighting(m: Map<(int, int), ChunkView>) -> Map<(int, int), ChunkView> {
    light_rounds(m, LIGHT_ROUNDS as nat)
}

/// Two worlds with the same loaded chunks and the same blocks and walls.
pub open spec fn same_layers(a: Map<(int, int), ChunkView>, b: Map<(int, int), ChunkView>) -> bool {
    &&& a.dom() == b.dom()
    &&& forall|k: (int, int)|
        #[trigger] a.contains_key(k) ==> a[k].walls == b[k].walls && a[k].blocks == b[k].blocks
}

/// Every loaded chunk is full-size and its light levels are at most 15.
pub open spec fn lights_bounded(m: Map<(int, int), ChunkView>) -> bool {
    forall|k: (int, int)|
        #[trigger] m.contains_key(k) ==> m[k].wf() && forall|i: int|
            0 <= i < CHUNK_AREA ==> #[trigger] m[k].light[i] <= MAX_LIGHT
}

proof fn lemma_lookup_index(g: (int, int))
    ensures
        0 <= index_of(relative_of(g, chunk_of(g))) < CHUNK_AREA,
{
    lemma_coordinate_round_trip(g);
}

proof fn lemma_round_shape(m: Map<(int, int), ChunkView>)
    requires
        lights_bounded(m),
    ensures
        same_layers(light_round(m), m),
        lights_bounded(light_round(m)),
{
    let r = light_round(m);
    assert(r.dom() =~= m.dom());
    assert forall|k: (int, int)| #[trigger] r.contains_key(k) implies r[k].wf() && forall|i: int|
        0 <= i < CHUNK_AREA ==> #[trigger] r[k].light[i] <= MAX_LIGHT by {
        assert forall|i: int| 0 <= i < CHUNK_AREA implies #[trigger] r[k].light[i] <= MAX_LIGHT by {
            assert forall|d: int| 1 <= d <= 4 implies neighbour_light(m, k, i, d) <= MAX_LIGHT by {
                let g = offset(global_of(k, relative_from_index(i)), cross_direction(d));
                lemma_lookup_index(g);
            }
        }
    }
}

proof fn lemma_rounds_shape(m: Map<(int, int), ChunkView>, n: nat)
    requires
        lights_bounded(m),
    ensures
        same_layers(light_rounds(m, n), m),
        lights_bounded(light_rounds(m, n)),
    decreases n,
{
    if n > 0 {
        lemma_rounds_shape(m, (n - 1) as nat);
        lemma_round_shape(light_rounds(m, (n - 1) as nat));
    }
}

/// After `n` rounds, the light of each cell in world `a` exceeds that in a
/// world `b` with the same blocks by no more than what `15 - n` allows.
proof fn lemma_rounds_close(a: Map<(int, int), ChunkView>, b: Map<(int, int), ChunkView>, n: nat)
    requires
        same_layers(a, b),
        lights_bounded(a),
        lights_bounded(b),
    ensures
        forall|k: (int, int), i: int|
            #[trigger] a.contains_key(k) && 0 <= i < CHUNK_AREA ==> light_rounds(a, n)[k].light[i]
                <= max2(#[trigger] light_rounds(b, n)[k].light[i] as int, MAX_LIGHT - n),
    decreases n,
{
    if n > 0 {
        let pa = light_rounds(a, (n - 1) as nat);
        let pb = light_rounds(b, (n - 1) as nat);
        lemma_rounds_close(a, b, (n - 1) as nat);
        lemma_rounds_shape(a, (n - 1) as nat);
        lemma_rounds_shape(b, (n - 1) as nat);
        let t = MAX_LIGHT - (n - 1);
        assert forall|k: (int, int), i: int|
            #[trigger] a.contains_key(k) && 0 <= i < CHUNK_AREA implies light_rounds(a, n)[k].light[i]
            <= max2(#[trigger] light_rounds(b, n)[k].light[i] as int, MAX_LIGHT - n) by {
            assert(pa.contains_key(k) && pb.contains_key(k));
            assert(pa[k].walls == a[k].walls && pb[k].walls == b[k].walls);
            assert(pa[k].blocks == a[k].blocks && pb[k].blocks == b[k].blocks);
            assert(light_rounds(a, n)[k].light[i] == next_light(pa, k, i));
            assert(light_rounds(b, n)[k].light[i] == next_light(pb, k, i));
            if !is_open_cell(pa[k], i) {
                assert forall|d: int| 1 <= d <= 4 implies neighbour_light(pa, k, i, d) <= max2(
                    neighbour_light(pb, k, i, d),
                    t,
                ) by {
                    let g = offset(global_of(k, relative_from_index(i)), cross_direction(d));
                    lemma_lookup_index(g);
                    let c = chunk_of(g);
                    if pa.contains_key(c) {
                        assert(a.contains_key(c));
                        assert(pa[c].light[index_of(relative_of(g, c))] <= max2(
                            pb[c].light[index_of(relative_of(g, c))] as int,
                            t,
                        ));
                    }
                }
            }
        }
    }
}

/// A full lighting pass on a world whose light levels are at most 15 gives a
/// fixed point: a second pass changes nothing.
pub proof fn lemma_lighting_fixed_point(m: Map<(int, int), ChunkView>)
    requires
        lights_bounded(m),
    ensures
        solved_lighting(solved_lighting(m)) == solved_lighting(m),
{
    let s = solved_lighting(m);
    let n = LIGHT_ROUNDS as nat;
    lemma_rounds_shape(m, n);
    lemma_rounds_shape(s, n);
    lemma_rounds_close(m, s, n);
    lemma_rounds_close(s, m, n);
    let ss = solved_lighting(s);
    assert forall|k: (int, int)| #[trigger] ss.contains_key(k) implies ss[k] == s[k] by {
        assert(m.contains_key(k));
        assert(s.contains_key(k));
        assert(ss[k].light =~= s[k].light) by {
            assert forall|i: int| 0 <= i < CHUNK_AREA implies ss[k].light[i] == s[k].light[i] by {
                let a = light_rounds(m, n)[k].light[i] as int;
                let b = light_rounds(s, n)[k].light[i] as int;
                assert(a <= max2(b, -1) && b <= max2(a, -1));
            }
        }
    }
    assert(ss =~= s);
}

/// After a lighting pass, a cell open on both layers (air, glass or leaves
/// on each) has full light, whatever its neighbours hold.
pub proof fn lemma_open_cells_fully_lit(m: Map<(int, int), ChunkView>)
    ensures
        forall|k: (int, int), i: int|
            #[trigger] m.contains_key(k) && 0 <= i < CHUNK_AREA && is_open_cell(m[k], i)
                ==> #[trigger] solved_lighting(m)[k].light[i] == MAX_LIGHT,
{
    assert forall|k: (int, int), i: int|
        #[trigger] m.contains_key(k) && 0 <= i < CHUNK_AREA && is_open_cell(m[k], i)
        implies #[trigger] solved_lighting(m)[k].light[i] == MAX_LIGHT by {
        lemma_rounds_keep_layers(m, (LIGHT_ROUNDS - 1) as nat);
    }
}

proof fn lemma_rounds_keep_layers(m: Map<(int, int), ChunkView>, n: nat)
    ensures
        light_rounds(m, n).dom() == m.dom(),
        forall|k: (int, int)|
            #[trigger] m.contains_key(k) ==> light_rounds(m, n)[k].walls == m[k].walls
                && light_rounds(m, n)[k].blocks == m[k].blocks,
    decreases n,
{
    if n > 0 {
        lemma_rounds_keep_layers(m, (n - 1) as nat);
        assert(light_rounds(m, n).dom() =~= m.dom());
    }
}

/// Light of cell `i` of a loaded chunk after one round.
fn cell_light(chunks: &Chunks, key: IVec2, open: bool, i: usize) -> (r: u8)
    requires
        chunks.wf(),
        chunks@.contains_key(key@),
        i < CHUNK_AREA,
        open == is_open_cell(chunks@[key@], i as int),
    ensures
        r == next_light(chunks@, key@, i as int),
{
    if open {
        return MAX_LIGHT;
    }
    proof {
        chunks.lemma_wf_view();
        lemma_index_round_trip(i as int);
    }
    let pos = get_position_from_index(i);
    let global = get_global_position(key, pos);
    assert(has_neighbours(global@));
    let n = get_neighboring_lights(chunks, global).unwrap();
    let a = if n[1] >= n[2] { n[1] } else { n[2] };
    let b = if n[3] >= n[4] { n[3] } else { n[4] };
    let brightest = if a >= b { a } else { b };
    if brightest > 0 {
        brightest - 1
    } else {
        0
    }
}

/// Runs one relaxation round over every loaded chunk: all new light arrays
/// are computed from the state before the round, then stored together.
pub fn light_round_once(chunks: &mut Chunks)
    requires
        old(chunks).wf(),
    ensures
        final(chunks).wf(),
        final(chunks)@ == light_round(old(chunks)@),
{
    let ghost m0 = chunks@;
    let keys = chunks.keys();
    let mut updates: Vec<[u8; CHUNK_AREA]> = Vec::new();
    let mut j: usize = 0;
    while j < keys.len()
        invariant
            chunks.wf(),
            chunks@ == m0,
            j <= keys@.len(),
            updates@.len() == j,
            forall|k: (int, int)|
                m0.contains_key(k) <==> exists|i: int| 0 <= i < keys@.len() && #[trigger] keys@[i]@ == k,
            forall|q: int|
                0 <= q < j ==> #[trigger] updates@[q]@ == Seq::new(
                    CHUNK_AREA as nat,
                    |i: int| next_light(m0, keys@[q]@, i),
                ),
        decreases keys@.len() - j,
    {
        let key = keys[j];
        assert(m0.contains_key(key@));
        let chunk = chunks.get(key).unwrap();
        let mut light = [0u8; CHUNK_AREA];
        let mut i: usize = 0;
        while i < CHUNK_AREA
            invariant
                chunks.wf(),
                chunks@ == m0,
                m0.contains_key(key@),
                chunk@ == m0[key@],
                i <= CHUNK_AREA,
                forall|c: int| 0 <= c < i ==> light@[c] == next_light(m0, key@, c),
            decreases CHUNK_AREA - i,
        {
            proof {
                chunks.lemma_wf_view();
            }
            let open = chunk.layers[1][i].is_transparent() && chunk.layers[0][i].is_transparent();
            light[i] = cell_light(chunks, key, open, i);
            i += 1;
        }
        assert(light@ =~= Seq::new(CHUNK_AREA as nat, |c: int| next_light(m0, key@, c)));
        updates.push(light);
        j += 1;
    }
    let ghost target = light_round(m0);
    let mut j: usize = 0;
    while j < keys.len()
        invariant
            chunks.wf(),
            j <= keys@.len(),
            updates@.len() == keys@.len(),
            chunks@.dom() == m0.dom(),
            target == light_round(m0),
            forall|k: (int, int)|
                m0.contains_key(k) <==> exists|i: int| 0 <= i < keys@.len() && #[trigger] keys@[i]@ == k,
            forall|a: int, b: int| 0 <= a < b < keys@.len() ==> keys@[a]@ != keys@[b]@,
            forall|q: int|
                0 <= q < keys@.len() ==> #[trigger] updates@[q]@ == Seq::new(
                    CHUNK_AREA as nat,
                    |i: int| next_light(m0, keys@[q]@, i),
                ),
            forall|k: (int, int)|
                #[trigger] chunks@.contains_key(k) ==> chunks@[k] == if exists|q: int|
                    0 <= q < j && keys@[q]@ == k {
                    target[k]
                } else {
                    m0[k]
                },
        decreases keys@.len() - j,
    {
        let key = keys[j];
        assert(m0.contains_key(key@));
        let ghost before = chunks@;
        chunks.set_light(key, updates[j]);
        proof {
            assert forall|k: (int, int)| #[trigger] chunks@.contains_key(k) implies chunks@[k] == if exists|
                q: int,
            | 0 <= q < j + 1 && keys@[q]@ == k {
                target[k]
            } else {
                m0[k]
            } by {
                if k == key@ {
                    assert(keys@[j as int]@ == k);
                    assert(updates@[j as int]@ == Seq::new(
                        CHUNK_AREA as nat,
                        |i: int| next_light(m0, keys@[j as int]@, i),
                    ));
                    assert(before[k] == m0[k]) by {
                        if exists|q: int| 0 <= q < j && keys@[q]@ == k {
                            let q = choose|q: int| 0 <= q < j && keys@[q]@ == k;
                            assert(keys@[q]@ != keys@[j as int]@);
                        }
                    }
                    assert(m0.contains_key(k));
                    assert(target.contains_key(k));
                    assert(target[k] == ChunkView {
                        light: Seq::new(CHUNK_AREA as nat, |i: int| next_light(m0, k, i)),
                        ..m0[k]
                    });
                    assert(chunks@[k] == ChunkView { light: updates@[j as int]@, ..before[k] });
                    assert(chunks@[k] == target[k]);
                } else {
                    assert(before.contains_key(k));
                    assert(chunks@[k] == before[k]);
                    if exists|q: int| 0 <= q < j + 1 && keys@[q]@ == k {
                        let q = choose|q: int| 0 <= q < j + 1 && keys@[q]@ == k;
                        assert(q != j);
                        assert(exists|q: int| 0 <= q < j && keys@[q]@ == k);
                    }
                }
            }
        }
        j += 1;
    }
    proof {
        assert forall|k: (int, int)| #[trigger] chunks@.contains_key(k) implies chunks@[k] == target[k] by {
            let q = choose|q: int| 0 <= q < keys@.len() && keys@[q]@ == k;
        }
        assert(chunks@ =~= target);
    }
}

/// Recomputes the light of every loaded chunk: sixteen relaxation rounds.
pub fn calculate_lighting(chunks: &mut Chunks)
    requires
        old(chunks).wf(),
    ensures
        final(chunks).wf(),
        final(chunks)@ == solved_lighting(old(chunks)@),
{
    let ghost m0 = chunks@;
    let mut r: usize = 0;
    while r < LIGHT_ROUNDS
        invariant
            chunks.wf(),
            r <= LIGHT_ROUNDS,
            chunks@ == light_rounds(m0, r as nat),
        decreases LIGHT_ROUNDS - r,
    {
        light_round_once(chunks);
        r += 1;
    }
}

} // verus!
