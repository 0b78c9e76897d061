//! A private chain node: Block-STM parallel execution of blocks, the block
//! execution pipeline around the EVM, and the consensus actors that drive it.

pub mod consensus;
pub mod evm;
pub mod number_laws;
pub mod parallel;
pub mod primitives;
