//! A text bulletin board served over a mesh-radio network: command dispatch,
//! per-board read cursors, and pagination of replies into radio-sized pages.

pub mod board;
pub mod client;
pub mod commands;
pub mod config;
pub mod dm;
pub mod node;
pub mod paginate;
pub mod ping;
pub mod server;
pub mod weather;
pub mod text;

pub use node::{canonical_node_id, hex_id_to_num, num_id_to_hex};
