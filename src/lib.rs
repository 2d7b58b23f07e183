/// Global, chunk and chunk-relative coordinates.
pub mod coords;
/// Block kinds and the two layers.
pub mod block;
/// Chunks and the store of loaded chunks.
pub mod chunk;
/// Cross-chunk neighbourhood lookups.
pub mod neighbors;
/// Light propagation.
pub mod lighting;
/// Greedy collision rectangles.
pub mod collision;
/// Vertex and index buffers of chunk layers.
pub mod mesh;
/// Terrain generation presets.
pub mod generation;
/// Binary encoding of chunk layers.
pub mod codec;
/// Chunk lifecycle: placement, loading, unloading, saving.
pub mod manager;
