//! Erasure coding of block data for a set of validators.
//!
//! A block's payload is coded into `n` chunks, one for each of `n` validators, so that
//! any `f + 1` of them give the payload back, where `f` is the number of validators
//! that may be faulty, `n = 3f + k` with `1 <= k <= 3`. A Merkle trie over the hashes of
//! the chunks commits to all of them in one root, and gives each chunk a branch that
//! shows it to belong to that root.

pub mod branches;
pub mod coding;
pub mod erasure;
pub mod error;
pub mod packing;
pub mod params;
pub mod payload;
pub mod recovery;
pub mod shard_input;
pub mod trie;
pub mod views;

pub use crate::branches::{branches, Branches};
pub use crate::coding::{obtain_chunks, reconstruct};
pub use crate::error::Error;
pub use crate::params::{code_params, CodeParams, MAX_VALIDATORS};
pub use crate::payload::{BlockData, Extrinsic};
pub use crate::shard_input::ShardInput;
