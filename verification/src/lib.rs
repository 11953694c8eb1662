//! Core logic of a small tile-based woodcutting game: items and inventory,
//! the woodcutting skill curve, world generation and walkability, A* path
//! finding, the software pixel renderer's primitives and the client's input
//! handling.
pub mod item;
pub mod skills;
pub mod world;
pub mod pathfind;
pub mod client;
pub mod chopping;
pub mod render;
pub mod protocol;
