//! The decisions of an epoch-based state store: batched epoch commits, layered
//! reads, state roots, state maintenance, global statistics, and the answers of
//! the Ethereum-style RPC that stands in front of them.

pub mod accumulator;
pub mod change_map;
pub mod epoch_map;
pub mod eth;
pub mod eth_blocks;
pub mod eth_calls;
pub mod eth_types;
pub mod global_stat;
pub mod hash;
pub mod keys;
pub mod listing;
pub mod maintenance;
pub mod manager;
pub mod primitive;
pub mod state;
pub mod text;
pub mod utils;
