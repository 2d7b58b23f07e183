use vstd::prelude::*;

verus! {

/// Layer of a chunk: the background wall plane or the foreground block plane.
#[derive(Clone, Copy, Debug, PartialEq, Eq, Structural, Hash)]
pub enum PlaceMode {
    WALL,
    BLOCK,
}

impl PlaceMode {
    /// Position of the layer in a chunk's layer pair.
    pub open spec fn spec_index(self) -> int {
        match self {
            PlaceMode::WALL => 0,
            PlaceMode::BLOCK => 1,
        }
    }

    pub fn index(self) -> (r: usize)
        ensures
            r == self.spec_index(),
    {
        match self {
            PlaceMode::WALL => 0,
            PlaceMode::BLOCK => 1,
        }
    }
}

/// Kind of block held by a cell. `SIZE` marks the end of the list and only
/// serves texture-atlas arithmetic.
#[allow(non_camel_case_types)]
#[derive(Clone, Copy, Debug, PartialEq, Eq, Structural, Hash)]
pub enum BlockType {
    AIR,
    GRASS,
    DIRT,
    STONE,
    COBBLESTONE,
    PLANKS,
    TREE_LOG,
    LEAVES,
    GLASS,
    SIZE,
}

/// Number of variants of `BlockType`, `SIZE` included.
pub const BLOCK_TYPE_COUNT: u32 = 10;

impl BlockType {
    pub open spec fn spec_ordinal(self) -> u32 {
        match self {
            BlockType::AIR => 0,
            BlockType::GRASS => 1,
            BlockType::DIRT => 2,
            BlockType::STONE => 3,
            BlockType::COBBLESTONE => 4,
            BlockType::PLANKS => 5,
            BlockType::TREE_LOG => 6,
            BlockType::LEAVES => 7,
            BlockType::GLASS => 8,
            BlockType::SIZE => 9,
        }
    }

    pub open spec fn spec_from_ordinal(n: u32) -> Option<BlockType> {
        if n == 0 {
            Some(BlockType::AIR)
        } else if n == 1 {
            Some(BlockType::GRASS)
        } else if n == 2 {
            Some(BlockType::DIRT)
        } else if n == 3 {
            Some(BlockType::STONE)
        } else if n == 4 {
            Some(BlockType::COBBLESTONE)
        } else if n == 5 {
            Some(BlockType::PLANKS)
        } else if n == 6 {
            Some(BlockType::TREE_LOG)
        } else if n == 7 {
            Some(BlockType::LEAVES)
        } else if n == 8 {
            Some(BlockType::GLASS)
        } else if n == 9 {
            Some(BlockType::SIZE)
        } else {
            None
        }
    }

    /// Position of the variant in declaration order.
    pub fn ordinal(self) -> (r: u32)
        ensures
            r == self.spec_ordinal(),
            r < BLOCK_TYPE_COUNT,
    {
        match self {
            BlockType::AIR => 0,
            BlockType::GRASS => 1,
            BlockType::DIRT => 2,
            BlockType::STONE => 3,
            BlockType::COBBLESTONE => 4,
            BlockType::PLANKS => 5,
            BlockType::TREE_LOG => 6,
            BlockType::LEAVES => 7,
            BlockType::GLASS => 8,
            BlockType::SIZE => 9,
        }
    }

    /// The variant at a position in declaration order, if there is one.
    pub fn from_ordinal(n: u32) -> (r: Option<BlockType>)
        ensures
            r == BlockType::spec_from_ordinal(n),
            r matches Some(b) ==> b.spec_ordinal() == n,
            r is Some <==> n < BLOCK_TYPE_COUNT,
    {
        match n {
            0 => Some(BlockType::AIR),
            1 => Some(BlockType::GRASS),
            2 => Some(BlockType::DIRT),
            3 => Some(BlockType::STONE),
            4 => Some(BlockType::COBBLESTONE),
            5 => Some(BlockType::PLANKS),
            6 => Some(BlockType::TREE_LOG),
            7 => Some(BlockType::LEAVES),
            8 => Some(BlockType::GLASS),
            9 => Some(BlockType::SIZE),
            _ => None,
        }
    }

    pub open spec fn spec_is_transparent(self) -> bool {
        self == BlockType::AIR || self == BlockType::GLASS || self == BlockType::LEAVES
    }

    pub open spec fn spec_is_passthrough(self) -> bool {
        self == BlockType::AIR
    }

    pub open spec fn spec_can_flip_horizontally(self) -> bool {
        self == BlockType::GRASS || self == BlockType::DIRT || self == BlockType::STONE
            || self == BlockType::LEAVES
    }

    pub open spec fn spec_can_flip_vertically(self) -> bool {
        self == BlockType::DIRT || self == BlockType::TREE_LOG
    }

    /// Whether light passes the block fully.
    pub fn is_transparent(&self) -> (r: bool)
        ensures
            r == self.spec_is_transparent(),
    {
        match self {
            BlockType::AIR => true,
            BlockType::GLASS => true,
            BlockType::LEAVES => true,
            _ => false,
        }
    }

    /// Whether bodies pass through the block (no collision).
    pub fn is_passthrough(&self) -> (r: bool)
        ensures
            r == self.spec_is_passthrough(),
    {
        match self {
            BlockType::AIR => true,
            _ => false,
        }
    }

    /// Whether the block's texture may be mirrored left to right.
    pub fn can_flip_horizontally(&self) -> (r: bool)
        ensures
            r == self.spec_can_flip_horizontally(),
    {
        match self {
            BlockType::GRASS => true,
            BlockType::DIRT => true,
            BlockType::STONE => true,
            BlockType::LEAVES => true,
            _ => false,
        }
    }

    /// Whether the block's texture may be mirrored top to bottom.
    pub fn can_flip_vertically(&self) -> (r: bool)
        ensures
            r == self.spec_can_flip_vertically(),
    {
        match self {
            BlockType::DIRT => true,
            BlockType::TREE_LOG => true,
            _ => false,
        }
    }

    /// Whether the block is anything but air (ordinal above `AIR`).
    pub fn is_solid(&self) -> (r: bool)
        ensures
            r == (*self != BlockType::AIR),
            r == (self.spec_ordinal() > 0),
    {
        !matches!(self, BlockType::AIR)
    }
}

} // verus!
