//! Block-STM parallel execution of the transactions of a block.

pub mod chain_laws;
pub mod collections;
pub mod execution_laws;
pub mod executor;
pub mod hashers;
pub mod history;
pub mod history_laws;
pub mod laws;
pub mod memory;
pub mod mv_memory;
pub mod pevm;
pub mod read_laws;
pub mod result_laws;
pub mod serial_laws;
pub mod settlement;
pub mod settlement_laws;
pub mod state;
pub mod state_storage;
pub mod storage;
pub mod vm;
pub mod vm_db;
