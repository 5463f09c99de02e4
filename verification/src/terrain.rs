//! The chunked 3D labyrinth: coordinates, directions, and the integer rules
//! that decide which passages are open and which chunk owns which cell.
pub mod generator;
pub mod layout;
pub mod types;

pub use generator::{
    canonical_edge, cell_passages, chunk_cells, chunk_for_cell, chunks_around, div_floor,
    edge_is_open, hash_values,
};
pub use types::{
    CellCoord3d, ChunkCoord, Direction3d, LayoutConfig, Passage3d, RoomKind,
    NEIGHBORHOODS_PER_CELL,
};
