//! Simplified payment verification: a transaction of a block together with
//! the Merkle authentication path that links it to the block's Merkle root.

pub mod chain;
pub mod merkle;
pub mod primitives;
pub mod proved;
pub mod theorems;
