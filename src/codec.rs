use vstd::prelude::*;

use crate::block::BlockType;
use crate::coords::CHUNK_AREA;

verus! {

/// Length of an encoded chunk: two layers of 256 four-byte ordinals.
pub const ENCODED_CHUNK_LEN: usize = 2048;

/// Byte `k` (0 = least significant) of a 32-bit word.
#[verifier::opaque]
pub open spec fn byte_of(w: u32, k: int) -> u8 {
    if k == 0 {
        (w & 0xff) as u8
    } else if k == 1 {
        ((w >> 8u32) & 0xff) as u8
    } else if k == 2 {
        ((w >> 16u32) & 0xff) as u8
    } else {
        ((w >> 24u32) & 0xff) as u8
    }
}

/// The 32-bit word with the given little-endian bytes.
#[verifier::opaque]
pub open spec fn word_of(b0: u8, b1: u8, b2: u8, b3: u8) -> u32 {
    (b0 as u32) | ((b1 as u32) << 8u32) | ((b2 as u32) << 16u32) | ((b3 as u32) << 24u32)
}

/// Each word as four little-endian bytes, one word after another.
pub open spec fn le_bytes(words: Seq<u32>) -> Seq<u8> {
    Seq::new(4 * words.len(), |i: int| byte_of(words[i / 4], i % 4))
}

/// The bytes read as little-endian 32-bit words (a trailing partial word is
/// ignored).
pub open spec fn le_words(bytes: Seq<u8>) -> Seq<u32> {
    Seq::new(
        bytes.len() / 4,
        |i: int| word_of(bytes[4 * i], bytes[4 * i + 1], bytes[4 * i + 2], bytes[4 * i + 3]),
    )
}

/// Ordinals of the blocks of a layer.
pub open spec fn layer_ordinals(layer: Seq<BlockType>) -> Seq<u32> {
    layer.map_values(|b: BlockType| b.spec_ordinal())
}

/// Encoding of a chunk's layers: the wall ordinals then the block ordinals,
/// each as a little-endian `u32`.
pub open spec fn layers_bytes(walls: Seq<BlockType>, blocks: Seq<BlockType>) -> Seq<u8> {
    le_bytes(layer_ordinals(walls) + layer_ordinals(blocks))
}

/// Whether the first encoded chunk of a byte string names only known blocks.
pub open spec fn decodable(bytes: Seq<u8>) -> bool {
    bytes.len() >= ENCODED_CHUNK_LEN && forall|i: int|
        0 <= i < 2 * CHUNK_AREA ==> #[trigger] le_words(bytes.take(ENCODED_CHUNK_LEN as int))[i] < 10
}

/// Why a stored chunk could not be turned back into layers.
#[derive(Clone, Copy, Debug, PartialEq, Eq, Structural)]
pub enum DecodeError {
    /// Fewer bytes than one encoded chunk.
    Truncated,
    /// An ordinal that names no block type.
    UnknownBlock,
}

/// Relies on `bincode::serialize` (fixed-width integers, little endian, as
/// its source sets) of two `serde_big_array::Array<u32, 256>`: a fixed-size
/// array is a tuple with no length prefix, and each `u32` is its four
/// little-endian bytes. With no size limit set, nothing in that path can fail
/// on two fixed `u32` arrays, so the result is always `Some`.
#[verifier::external_body]
fn serialize_ordinals(walls: &[u32; CHUNK_AREA], blocks: &[u32; CHUNK_AREA]) -> (r: Option<Vec<u8>>)
    ensures
        r is Some,
        r matches Some(b) ==> b@ == le_bytes(walls@ + blocks@),
{
    let layers = [serde_big_array::Array(*walls), serde_big_array::Array(*blocks)];
    match bincode::serialize(&layers) {
        Ok(b) => Some(b),
        Err(_) => None,
    }
}

/// Relies on `bincode::deserialize` of two `serde_big_array::Array<u32, 256>`:
/// it reads 512 little-endian `u32`s from the front of the slice, fails only
/// when the slice is shorter than that, and accepts trailing bytes.
#[verifier::external_body]
fn deserialize_ordinals(bytes: &[u8]) -> (r: Option<([u32; CHUNK_AREA], [u32; CHUNK_AREA])>)
    ensures
        r is Some <==> bytes@.len() >= ENCODED_CHUNK_LEN,
        r matches Some((w, b)) ==> w@ + b@ == le_words(bytes@.take(ENCODED_CHUNK_LEN as int)),
{
    match bincode::deserialize::<[serde_big_array::Array<u32, CHUNK_AREA>; 2]>(bytes) {
        Ok(layers) => Some((layers[0].0, layers[1].0)),
        Err(_) => None,
    }
}

fn layer_to_ordinals(layer: &[BlockType; CHUNK_AREA]) -> (r: [u32; CHUNK_AREA])
    ensures
        r@ == layer_ordinals(layer@),
{
    let mut r = [0u32; CHUNK_AREA];
    let mut i: usize = 0;
    while i < CHUNK_AREA
        invariant
            i <= CHUNK_AREA,
            forall|j: int| 0 <= j < i ==> r@[j] == layer@[j].spec_ordinal(),
        decreases CHUNK_AREA - i,
    {
        r[i] = layer[i].ordinal();
        i += 1;
    }
    assert(r@ =~= layer_ordinals(layer@));
    r
}

fn ordinals_to_layer(ords: &[u32; CHUNK_AREA]) -> (r: Option<[BlockType; CHUNK_AREA]>)
    ensures
        r is Some <==> forall|j: int| 0 <= j < CHUNK_AREA ==> #[trigger] ords@[j] < 10,
        r matches Some(l) ==> layer_ordinals(l@) == ords@,
{
    let mut r = [BlockType::AIR; CHUNK_AREA];
    let mut i: usize = 0;
    while i < CHUNK_AREA
        invariant
            i <= CHUNK_AREA,
            forall|j: int| 0 <= j < i ==> ords@[j] < 10 && r@[j].spec_ordinal() == ords@[j],
        decreases CHUNK_AREA - i,
    {
        match BlockType::from_ordinal(ords[i]) {
            Some(b) => {
                r[i] = b;
            },
            None => {
                return None;
            },
        }
        i += 1;
    }
    assert(layer_ordinals(r@) =~= ords@);
    Some(r)
}

/// Encodes a chunk's wall and block layers for storage.
pub fn encode_chunk_layers(layers: &[[BlockType; CHUNK_AREA]; 2]) -> (r: Vec<u8>)
    ensures
        r@ == layers_bytes(layers[0]@, layers[1]@),
{
    let walls = layer_to_ordinals(&layers[0]);
    let blocks = layer_to_ordinals(&layers[1]);
    serialize_ordinals(&walls, &blocks).unwrap()
}

/// Decodes the wall and block layers stored at the front of `bytes`.
pub fn decode_chunk_layers(bytes: &[u8]) -> (r: Result<[[BlockType; CHUNK_AREA]; 2], DecodeError>)
    ensures
        r is Ok <==> decodable(bytes@),
        r matches Ok(l) ==> layers_bytes(l[0]@, l[1]@) == bytes@.take(ENCODED_CHUNK_LEN as int),
        r == Err::<[[BlockType; CHUNK_AREA]; 2], DecodeError>(DecodeError::Truncated) <==> bytes@.len()
            < ENCODED_CHUNK_LEN,
{
    match deserialize_ordinals(bytes) {
        None => Err(DecodeError::Truncated),
        Some((w, b)) => {
            let ghost words = le_words(bytes@.take(ENCODED_CHUNK_LEN as int));
            proof {
                assert forall|i: int| 0 <= i < 2 * CHUNK_AREA implies (#[trigger] words[i] < 10 <==> if i
                    < CHUNK_AREA {
                    w@[i] < 10
                } else {
                    b@[i - CHUNK_AREA] < 10
                }) by {
                    assert(words[i] == (w@ + b@)[i]);
                }
            }
            let walls = ordinals_to_layer(&w);
            let blocks = ordinals_to_layer(&b);
            match (walls, blocks) {
                (Some(wl), Some(bl)) => {
                    proof {
                        lemma_le_bytes_words(bytes@.take(ENCODED_CHUNK_LEN as int));
                    }
                    Ok([wl, bl])
                },
                _ => {
                    proof {
                        if walls is None {
                            let j = choose|j: int| 0 <= j < CHUNK_AREA && !(w@[j] < 10);
                            assert(!(words[j] < 10));
                        } else {
                            let j = choose|j: int| 0 <= j < CHUNK_AREA && !(b@[j] < 10);
                            assert(!(words[j + CHUNK_AREA] < 10));
                        }
                    }
                    Err(DecodeError::UnknownBlock)
                },
            }
        },
    }
}

proof fn lemma_word_bytes(w: u32)
    ensures
        word_of(byte_of(w, 0), byte_of(w, 1), byte_of(w, 2), byte_of(w, 3)) == w,
{
    reveal(word_of);
    reveal(byte_of);
    assert(((w & 0xff) as u8 as u32) | (((((w >> 8u32) & 0xff) as u8) as u32) << 8u32) | (((((w
        >> 16u32) & 0xff) as u8) as u32) << 16u32) | (((((w >> 24u32) & 0xff) as u8) as u32)
        << 24u32) == w) by (bit_vector);
}

proof fn lemma_byte_word(b0: u8, b1: u8, b2: u8, b3: u8)
    ensures
        byte_of(word_of(b0, b1, b2, b3), 0) == b0,
        byte_of(word_of(b0, b1, b2, b3), 1) == b1,
        byte_of(word_of(b0, b1, b2, b3), 2) == b2,
        byte_of(word_of(b0, b1, b2, b3), 3) == b3,
{
    reveal(word_of);
    reveal(byte_of);
    let w = word_of(b0, b1, b2, b3);
    assert((w & 0xff) as u8 == b0 && ((w >> 8u32) & 0xff) as u8 == b1 && ((w >> 16u32) & 0xff) as u8
        == b2 && ((w >> 24u32) & 0xff) as u8 == b3) by (bit_vector)
        requires
            w == (b0 as u32) | ((b1 as u32) << 8u32) | ((b2 as u32) << 16u32) | ((b3 as u32)
                << 24u32),
    ;
}

/// Re-encoding the words read from a whole number of words gives the bytes.
proof fn lemma_le_bytes_words(bytes: Seq<u8>)
    requires
        bytes.len() % 4 == 0,
    ensures
        le_bytes(le_words(bytes)) == bytes,
{
    let ws = le_words(bytes);
    assert forall|i: int| 0 <= i < bytes.len() implies #[trigger] le_bytes(ws)[i] == bytes[i] by {
        let q = i / 4;
        let k = i % 4;
        assert(4 * q + k == i && 0 <= k < 4 && 0 <= q < bytes.len() / 4);
        lemma_byte_word(bytes[4 * q], bytes[4 * q + 1], bytes[4 * q + 2], bytes[4 * q + 3]);
    }
    assert(le_bytes(ws) =~= bytes);
}

/// Reading back the words of an encoding gives the words.
proof fn lemma_le_words_bytes(words: Seq<u32>)
    ensures
        le_words(le_bytes(words)) == words,
{
    let bs = le_bytes(words);
    assert forall|i: int| 0 <= i < words.len() implies #[trigger] le_words(bs)[i] == words[i] by {
        assert((4 * i) / 4 == i && (4 * i + 1) / 4 == i && (4 * i + 2) / 4 == i && (4 * i + 3) / 4 == i);
        assert((4 * i) % 4 == 0 && (4 * i + 1) % 4 == 1 && (4 * i + 2) % 4 == 2 && (4 * i + 3) % 4 == 3);
        lemma_word_bytes(words[i]);
    }
    assert(le_words(bs) =~= words);
}

proof fn lemma_ordinal_injective(x: BlockType, y: BlockType)
    requires
        x.spec_ordinal() == y.spec_ordinal(),
    ensures
        x == y,
{
    match x {
        BlockType::AIR => {},
        BlockType::GRASS => {},
        BlockType::DIRT => {},
        BlockType::STONE => {},
        BlockType::COBBLESTONE => {},
        BlockType::PLANKS => {},
        BlockType::TREE_LOG => {},
        BlockType::LEAVES => {},
        BlockType::GLASS => {},
        BlockType::SIZE => {},
    }
}

proof fn lemma_layer_ordinals_injective(a: Seq<BlockType>, b: Seq<BlockType>)
    requires
        a.len() == b.len(),
        layer_ordinals(a) == layer_ordinals(b),
    ensures
        a == b,
{
    assert forall|i: int| 0 <= i < a.len() implies a[i] == b[i] by {
        assert(layer_ordinals(a)[i] == a[i].spec_ordinal());
        assert(layer_ordinals(b)[i] == b[i].spec_ordinal());
        lemma_ordinal_injective(a[i], b[i]);
    }
    assert(a =~= b);
}

proof fn lemma_layers_decodable(walls: Seq<BlockType>, blocks: Seq<BlockType>)
    requires
        walls.len() == CHUNK_AREA,
        blocks.len() == CHUNK_AREA,
    ensures
        layers_bytes(walls, blocks).len() == ENCODED_CHUNK_LEN,
        decodable(layers_bytes(walls, blocks)),
{
    let ws = layer_ordinals(walls) + layer_ordinals(blocks);
    let bs = layers_bytes(walls, blocks);
    assert(ws.len() == 2 * CHUNK_AREA);
    assert(bs.len() == ENCODED_CHUNK_LEN);
    lemma_le_words_bytes(ws);
    assert(bs.take(ENCODED_CHUNK_LEN as int) == bs) by {
        assert(bs.take(ENCODED_CHUNK_LEN as int) =~= bs);
    }
    assert forall|i: int| 0 <= i < 2 * CHUNK_AREA implies #[trigger] ws[i] < 10 by {
        if i < CHUNK_AREA {
            lemma_ordinal_bound(walls[i]);
        } else {
            lemma_ordinal_bound(blocks[i - CHUNK_AREA]);
        }
    }
}

proof fn lemma_ordinal_bound(x: BlockType)
    ensures
        x.spec_ordinal() < 10,
{
}

/// Decoding the encoding of two full layers succeeds and gives the layers
/// back: the encoding is a decodable 2048 bytes, and the only layers that
/// encode to it are the given ones.
pub proof fn lemma_layers_round_trip(
    walls: Seq<BlockType>,
    blocks: Seq<BlockType>,
    w2: Seq<BlockType>,
    b2: Seq<BlockType>,
)
    requires
        walls.len() == CHUNK_AREA,
        blocks.len() == CHUNK_AREA,
        w2.len() == CHUNK_AREA,
        b2.len() == CHUNK_AREA,
    ensures
        layers_bytes(walls, blocks).len() == ENCODED_CHUNK_LEN,
        decodable(layers_bytes(walls, blocks)),
        layers_bytes(w2, b2) == layers_bytes(walls, blocks) ==> w2 == walls && b2 == blocks,
{
    lemma_layers_decodable(walls, blocks);
    if layers_bytes(w2, b2) == layers_bytes(walls, blocks) {
        let ws = layer_ordinals(walls) + layer_ordinals(blocks);
        let ws2 = layer_ordinals(w2) + layer_ordinals(b2);
        lemma_le_words_bytes(ws);
        lemma_le_words_bytes(ws2);
        assert(ws2 == ws);
        assert(layer_ordinals(w2) =~= ws2.subrange(0, CHUNK_AREA as int));
        assert(layer_ordinals(walls) =~= ws.subrange(0, CHUNK_AREA as int));
        assert(layer_ordinals(b2) =~= ws2.subrange(CHUNK_AREA as int, 2 * CHUNK_AREA as int));
        assert(layer_ordinals(blocks) =~= ws.subrange(CHUNK_AREA as int, 2 * CHUNK_AREA as int));
        lemma_layer_ordinals_injective(w2, walls);
        lemma_layer_ordinals_injective(b2, blocks);
    }
}

} // verus!
