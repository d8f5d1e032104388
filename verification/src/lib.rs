//! Offline editing of Minetest map databases: the mapblock codec, the block
//! geometry, and the per-block edit operators.

pub mod block_utils;
pub mod commands;
pub mod instance;
pub mod map_block;
pub mod search;
pub mod spatial;
pub mod testing;
pub mod text;
pub mod utils;
