use vstd::prelude::*;

use crate::block::{BlockType, PlaceMode};
use crate::coords::{
    chunk_in_range, chunk_of, get_chunk_position, get_index_from_position, get_relative_position,
    index_of, lemma_coordinate_round_trip, relative_of, IVec2,
    CHUNK_AREA,
};

verus! {

/// Highest light level; open cells shine at it.
pub const MAX_LIGHT: u8 = 15;

/// A 16×16 grid of cells with two block layers (wall, block) and a light
/// level per cell. Cell `i` sits at relative position `(i % 16, i / 16)`.
#[derive(Clone, Copy, Debug)]
pub struct Chunk {
    pub layers: [[BlockType; CHUNK_AREA]; 2],
    pub light: [u8; CHUNK_AREA],
}

/// Mathematical contents of a chunk.
pub struct ChunkView {
    pub walls: Seq<BlockType>,
    pub blocks: Seq<BlockType>,
    pub light: Seq<u8>,
}

impl ChunkView {
    /// The layer at index `l` (0: walls, 1: blocks).
    pub open spec fn layer(self, l: int) -> Seq<BlockType> {
        if l == 0 {
            self.walls
        } else {
            self.blocks
        }
    }

    /// The chunk with cell `i` of a layer set to `b`.
    pub open spec fn with_cell(self, layer: PlaceMode, i: int, b: BlockType) -> ChunkView {
        if layer == PlaceMode::WALL {
            ChunkView { walls: self.walls.update(i, b), ..self }
        } else {
            ChunkView { blocks: self.blocks.update(i, b), ..self }
        }
    }

    pub open spec fn wf(self) -> bool {
        self.walls.len() == CHUNK_AREA && self.blocks.len() == CHUNK_AREA && self.light.len()
            == CHUNK_AREA
    }
}

impl View for Chunk {
    type V = ChunkView;

    open spec fn view(&self) -> ChunkView {
        ChunkView { walls: self.layers[0]@, blocks: self.layers[1]@, light: self.light@ }
    }
}

impl Chunk {
    /// A chunk with the given layers and every cell dark.
    pub fn from_layers(walls: [BlockType; CHUNK_AREA], blocks: [BlockType; CHUNK_AREA]) -> (r:
        Chunk)
        ensures
            r@.walls == walls@,
            r@.blocks == blocks@,
            r@.light == Seq::new(CHUNK_AREA as nat, |i: int| 0u8),
    {
        let r = Chunk { layers: [walls, blocks], light: [0u8; CHUNK_AREA] };
        assert(r@.light =~= Seq::new(CHUNK_AREA as nat, |i: int| 0u8));
        r
    }
}

/// Block of a layer at a global position, if its chunk is loaded.
pub open spec fn block_at(m: Map<(int, int), ChunkView>, g: (int, int), layer: int) -> Option<
    BlockType,
> {
    let c = chunk_of(g);
    if m.contains_key(c) {
        Some(m[c].layer(layer)[index_of(relative_of(g, c))])
    } else {
        None
    }
}

/// Light level at a global position, if its chunk is loaded.
pub open spec fn light_at(m: Map<(int, int), ChunkView>, g: (int, int)) -> Option<u8> {
    let c = chunk_of(g);
    if m.contains_key(c) {
        Some(m[c].light[index_of(relative_of(g, c))])
    } else {
        None
    }
}

/// Block at a position, with an unloaded chunk read as air.
pub open spec fn block_or_air(m: Map<(int, int), ChunkView>, g: (int, int), layer: int) -> BlockType {
    match block_at(m, g, layer) {
        Some(b) => b,
        None => BlockType::AIR,
    }
}

/// Light at a position, with an unloaded chunk read as dark.
pub open spec fn light_or_dark(m: Map<(int, int), ChunkView>, g: (int, int)) -> u8 {
    match light_at(m, g) {
        Some(l) => l,
        None => 0,
    }
}

pub open spec fn offset(g: (int, int), d: (int, int)) -> (int, int) {
    (g.0 + d.0, g.1 + d.1)
}

/// Directions of the five-cell neighbourhood: centre, up, right, down, left.
pub open spec fn cross_direction(k: int) -> (int, int) {
    if k == 1 {
        (0, 1)
    } else if k == 2 {
        (1, 0)
    } else if k == 3 {
        (0, -1)
    } else if k == 4 {
        (-1, 0)
    } else {
        (0, 0)
    }
}

/// Directions of the nine-cell neighbourhood: centre, down, right, up, left,
/// bottom left, bottom right, top right, top left.
pub open spec fn ring_direction(k: int) -> (int, int) {
    if k == 1 {
        (0, -1)
    } else if k == 2 {
        (1, 0)
    } else if k == 3 {
        (0, 1)
    } else if k == 4 {
        (-1, 0)
    } else if k == 5 {
        (-1, -1)
    } else if k == 6 {
        (1, -1)
    } else if k == 7 {
        (1, 1)
    } else if k == 8 {
        (-1, 1)
    } else {
        (0, 0)
    }
}

/// A global position whose eight neighbours are also `i32` coordinates.
pub open spec fn has_neighbours(g: (int, int)) -> bool {
    i32::MIN < g.0 < i32::MAX && i32::MIN < g.1 < i32::MAX
}

/// The loaded chunks, keyed by chunk coordinate. Each key is held once.
///
/// The entries sit in a `Vec` in insertion order, with the map they stand for
/// kept as a ghost value. Keys are pairs of `i32`, and passes over all chunks
/// (lighting, saving) walk the entries by index, in a fixed order.
pub struct Chunks {
    entries: Vec<(IVec2, Chunk)>,
    map: Ghost<Map<(int, int), ChunkView>>,
}

impl View for Chunks {
    type V = Map<(int, int), ChunkView>;

    closed spec fn view(&self) -> Map<(int, int), ChunkView> {
        self.map@
    }
}

impl Chunks {
    pub closed spec fn wf(&self) -> bool {
        &&& forall|i: int, j: int|
            0 <= i < j < self.entries@.len() ==> self.entries@[i].0@ != self.entries@[j].0@
        &&& forall|i: int|
            0 <= i < self.entries@.len() ==> {
                &&& self.map@.contains_key(#[trigger] self.entries@[i].0@)
                &&& self.map@[self.entries@[i].0@] == self.entries@[i].1@
                &&& chunk_in_range(self.entries@[i].0@)
            }
        &&& forall|k: (int, int)|
            #[trigger] self.map@.contains_key(k) ==> exists|i: int|
                0 <= i < self.entries@.len() && #[trigger] self.entries@[i].0@ == k
    }

    /// Every loaded chunk has a coordinate in range and full-size arrays.
    pub proof fn lemma_wf_view(&self)
        requires
            self.wf(),
        ensures
            forall|k: (int, int)| #[trigger] self@.contains_key(k) ==> chunk_in_range(k),
            forall|k: (int, int)| #[trigger] self@.contains_key(k) ==> self@[k].wf(),
    {
        assert forall|k: (int, int)| #[trigger] self@.contains_key(k) implies chunk_in_range(k)
            && self@[k].wf() by {
            let i = choose|i: int| 0 <= i < self.entries@.len() && self.entries@[i].0@ == k;
        }
    }

    /// An empty store.
    pub fn new() -> (r: Chunks)
        ensures
            r.wf(),
            r@ == Map::<(int, int), ChunkView>::empty(),
    {
        Chunks { entries: Vec::new(), map: Ghost(Map::empty()) }
    }

    /// Number of loaded chunks.
    pub fn len(&self) -> (r: usize)
        requires
            self.wf(),
        ensures
            r == self@.len(),
    {
        proof {
            self.lemma_len();
        }
        self.entries.len()
    }

    proof fn lemma_len(&self)
        requires
            self.wf(),
        ensures
            self.entries@.len() == self@.len(),
            self@.dom().finite(),
    {
        let keys = self.entries@.map_values(|e: (IVec2, Chunk)| e.0@);
        assert(keys.no_duplicates()) by {
            assert forall|i: int, j: int|
                0 <= i < keys.len() && 0 <= j < keys.len() && i != j implies keys[i]
                != keys[j] by {
                if i < j {
                } else {
                }
            }
        }
        assert(keys.to_set() =~= self@.dom()) by {
            assert forall|k: (int, int)| keys.to_set().contains(k) implies self@.dom().contains(
                k) by {
                let i = choose|i: int| 0 <= i < keys.len() && keys[i] == k;
                assert(self.entries@[i].0@ == k);
            }
            assert forall|k: (int, int)| self@.dom().contains(k) implies keys.to_set().contains(
                k) by {
                let i = choose|i: int| 0 <= i < self.entries@.len() && self.entries@[i].0@ == k;
                assert(keys[i] == k);
            }
        }
        keys.unique_seq_to_set();
    }

    /// Index of the entry holding a chunk coordinate.
    fn find(&self, pos: IVec2) -> (r: Option<usize>)
        requires
            self.wf(),
        ensures
            r is Some <==> self@.contains_key(pos@),
            r matches Some(i) ==> i < self.entries@.len() && self.entries@[i as int].0@ == pos@,
    {
        let mut i: usize = 0;
        while i < self.entries.len()
            invariant
                self.wf(),
                i <= self.entries@.len(),
                forall|j: int| 0 <= j < i ==> self.entries@[j].0@ != pos@,
            decreases self.entries@.len() - i,
        {
            if self.entries[i].0 == pos {
                return Some(i);
            }
            i += 1;
        }
        None
    }

    /// Whether a chunk is loaded at a coordinate.
    pub fn contains_key(&self, pos: IVec2) -> (r: bool)
        requires
            self.wf(),
        ensures
            r == self@.contains_key(pos@),
    {
        self.find(pos).is_some()
    }

    /// The chunk loaded at a coordinate; absence means "not loaded".
    pub fn get(&self, pos: IVec2) -> (r: Option<&Chunk>)
        requires
            self.wf(),
        ensures
            r is Some <==> self@.contains_key(pos@),
            r matches Some(c) ==> c@ == self@[pos@],
    {
        match self.find(pos) {
            Some(i) => Some(&self.entries[i].1),
            None => None,
        }
    }

    /// Loads a chunk at a free coordinate. An occupied coordinate keeps its
    /// chunk (first writer wins) and `false` is returned.
    pub fn insert(&mut self, pos: IVec2, chunk: Chunk) -> (r: bool)
        requires
            old(self).wf(),
            chunk_in_range(pos@),
        ensures
            final(self).wf(),
            r == !old(self)@.contains_key(pos@),
            r ==> final(self)@ == old(self)@.insert(pos@, chunk@),
            !r ==> final(self)@ == old(self)@,
    {
        if self.contains_key(pos) {
            return false;
        }
        self.entries.push((pos, chunk));
        self.map = Ghost(self.map@.insert(pos@, chunk@));
        proof {
            let n = self.entries@.len() - 1;
            assert forall|k: (int, int)| #[trigger] self.map@.contains_key(k) implies exists|
                i: int,
            | 0 <= i < self.entries@.len() && #[trigger] self.entries@[i].0@ == k by {
                if k == pos@ {
                    assert(self.entries@[n].0@ == k);
                } else {
                    assert(old(self).map@.contains_key(k));
                    let i = choose|i: int|
                        0 <= i < old(self).entries@.len() && old(self).entries@[i].0@ == k;
                    assert(self.entries@[i].0@ == k);
                }
            }
        }
        true
    }

    /// Unloads the chunk at a coordinate and hands it back.
    pub fn remove(&mut self, pos: IVec2) -> (r: Option<Chunk>)
        requires
            old(self).wf(),
        ensures
            final(self).wf(),
            r is Some <==> old(self)@.contains_key(pos@),
            r matches Some(c) ==> c@ == old(self)@[pos@],
            final(self)@ == old(self)@.remove(pos@),
    {
        match self.find(pos) {
            None => {
                assert(self.map@ =~= self.map@.remove(pos@));
                None
            },
            Some(i) => {
                let ghost old_entries = self.entries@;
                let e = self.entries.remove(i);
                self.map = Ghost(self.map@.remove(pos@));
                proof {
                    assert forall|j: int, l: int|
                        0 <= j < l < self.entries@.len() implies self.entries@[j].0@
                        != self.entries@[l].0@ by {
                        let jj = if j < i { j } else { j + 1 };
                        let ll = if l < i { l } else { l + 1 };
                        assert(self.entries@[j] == old_entries[jj]);
                        assert(self.entries@[l] == old_entries[ll]);
                    }
                    assert forall|j: int| 0 <= j < self.entries@.len() implies {
                        &&& self.map@.contains_key(#[trigger] self.entries@[j].0@)
                        &&& self.map@[self.entries@[j].0@] == self.entries@[j].1@
                        &&& chunk_in_range(self.entries@[j].0@)
                    } by {
                        let jj = if j < i { j } else { j + 1 };
                        assert(self.entries@[j] == old_entries[jj]);
                    }
                    assert forall|k: (int, int)| #[trigger] self.map@.contains_key(k) implies exists|
                        j: int,
                    | 0 <= j < self.entries@.len() && #[trigger] self.entries@[j].0@ == k by {
                        let jj = choose|jj: int|
                            0 <= jj < old_entries.len() && old_entries[jj].0@ == k;
                        if jj < i {
                            assert(self.entries@[jj].0@ == k);
                        } else {
                            assert(self.entries@[jj - 1].0@ == k);
                        }
                    }
                }
                Some(e.1)
            },
        }
    }

    /// Unloads every chunk.
    pub fn clear(&mut self)
        requires
            old(self).wf(),
        ensures
            final(self).wf(),
            final(self)@ == Map::<(int, int), ChunkView>::empty(),
    {
        self.entries = Vec::new();
        self.map = Ghost(Map::empty());
    }

    /// Cell of the chunk that holds a global position, if that chunk is loaded.
    fn locate(&self, g: IVec2) -> (r: Option<(usize, usize)>)
        requires
            self.wf(),
        ensures
            r is Some <==> self@.contains_key(chunk_of(g@)),
            r matches Some((e, i)) ==> {
                &&& e < self.entries@.len()
                &&& self.entries@[e as int].0@ == chunk_of(g@)
                &&& i < CHUNK_AREA
                &&& i == index_of(relative_of(g@, chunk_of(g@)))
            },
    {
        let c = get_chunk_position(g);
        match self.find(c) {
            None => None,
            Some(e) => {
                proof {
                    lemma_coordinate_round_trip(g@);
                }
                let rel = get_relative_position(g, c);
                Some((e, get_index_from_position(rel)))
            },
        }
    }

    /// Block of a layer at a global position, if its chunk is loaded.
    pub fn block_at(&self, g: IVec2, layer: PlaceMode) -> (r: Option<BlockType>)
        requires
            self.wf(),
        ensures
            r == block_at(self@, g@, layer.spec_index()),
    {
        match self.locate(g) {
            None => None,
            Some((e, i)) => {
                let l = layer.index();
                Some(self.entries[e].1.layers[l][i])
            },
        }
    }

    /// Light level at a global position, if its chunk is loaded.
    pub fn light_at(&self, g: IVec2) -> (r: Option<u8>)
        requires
            self.wf(),
        ensures
            r == light_at(self@, g@),
    {
        match self.locate(g) {
            None => None,
            Some((e, i)) => Some(self.entries[e].1.light[i]),
        }
    }

    /// Sets one cell of a layer of a loaded chunk.
    pub fn set_block(&mut self, pos: IVec2, layer: PlaceMode, index: usize, block: BlockType)
        requires
            old(self).wf(),
            old(self)@.contains_key(pos@),
            index < CHUNK_AREA,
        ensures
            final(self).wf(),
            final(self)@ == old(self)@.insert(
                pos@,
                old(self)@[pos@].with_cell(layer, index as int, block),
            ),
    {
        let e = self.find(pos).unwrap();
        let mut entry = self.entries[e];
        let l = layer.index();
        entry.1.layers[l][index] = block;
        self.entries.set(e, entry);
        let ghost nv = entry.1@;
        self.map = Ghost(self.map@.insert(pos@, nv));
        proof {
            let prev = old(self)@[pos@];
            assert(nv.walls =~= prev.with_cell(layer, index as int, block).walls);
            assert(nv.blocks =~= prev.with_cell(layer, index as int, block).blocks);
            self.lemma_set_entry(old(self), e as int);
        }
    }

    /// Replaces the light array of a loaded chunk.
    pub fn set_light(&mut self, pos: IVec2, light: [u8; CHUNK_AREA])
        requires
            old(self).wf(),
            old(self)@.contains_key(pos@),
        ensures
            final(self).wf(),
            final(self)@ == old(self)@.insert(pos@, ChunkView { light: light@, ..old(self)@[pos@] }),
    {
        let e = self.find(pos).unwrap();
        let mut entry = self.entries[e];
        entry.1.light = light;
        self.entries.set(e, entry);
        let ghost nv = entry.1@;
        self.map = Ghost(self.map@.insert(pos@, nv));
        proof {
            self.lemma_set_entry(old(self), e as int);
        }
    }

    proof fn lemma_set_entry(&self, prev: &Chunks, e: int)
        requires
            prev.wf(),
            0 <= e < prev.entries@.len(),
            self.entries@ == prev.entries@.update(e, (prev.entries@[e].0, self.entries@[e].1)),
            self.map@ == prev.map@.insert(prev.entries@[e].0@, self.entries@[e].1@),
        ensures
            self.wf(),
    {
        assert forall|k: (int, int)| #[trigger] self.map@.contains_key(k) implies exists|i: int|
            0 <= i < self.entries@.len() && #[trigger] self.entries@[i].0@ == k by {
            if k == prev.entries@[e].0@ {
                assert(self.entries@[e].0@ == k);
            } else {
                let i = choose|i: int| 0 <= i < prev.entries@.len() && prev.entries@[i].0@ == k;
                assert(self.entries@[i].0@ == k);
            }
        }
    }

    /// Coordinates of the loaded chunks, each once.
    pub fn keys(&self) -> (r: Vec<IVec2>)
        requires
            self.wf(),
        ensures
            r@.len() == self@.len(),
            forall|k: (int, int)|
                self@.contains_key(k) <==> exists|i: int| 0 <= i < r@.len() && #[trigger] r@[i]@ == k,
            forall|i: int, j: int| 0 <= i < j < r@.len() ==> r@[i]@ != r@[j]@,
    {
        proof {
            self.lemma_len();
        }
        let mut r: Vec<IVec2> = Vec::new();
        let mut i: usize = 0;
        while i < self.entries.len()
            invariant
                self.wf(),
                i <= self.entries@.len(),
                r@.len() == i,
                forall|j: int| 0 <= j < i ==> r@[j] == self.entries@[j].0,
            decreases self.entries@.len() - i,
        {
            r.push(self.entries[i].0);
            i += 1;
        }
        proof {
            assert forall|k: (int, int)| self@.contains_key(k) implies exists|i: int|
                0 <= i < r@.len() && #[trigger] r@[i]@ == k by {
                let i = choose|i: int| 0 <= i < self.entries@.len() && self.entries@[i].0@ == k;
                assert(r@[i]@ == k);
            }
            assert forall|k: (int, int)| (exists|i: int| 0 <= i < r@.len() && #[trigger] r@[i]@ == k)
                implies self@.contains_key(k) by {
                let i = choose|i: int| 0 <= i < r@.len() && r@[i]@ == k;
                assert(self.entries@[i].0@ == k);
            }
        }
        r
    }
}

} // verus!
