//! Witness computation for the basic blocks of ZK circuits compiled from
//! neural-network models, over the BN254 scalar field.
pub mod field;
pub mod accumulator;
pub mod tensor;
pub mod basic_block;
pub mod graph;
pub mod curve;
pub mod poly;
pub mod eval;
pub mod batched_basic_block;
