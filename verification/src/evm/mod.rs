//! The block execution pipeline around the virtual machine.

pub mod assembler;
pub mod assoc;
pub mod basic_executor;
pub mod block_builder;
pub mod block_executor;
pub mod block_run;
pub mod builder;
pub mod cached_reads;
pub mod chain_spec;
pub mod config;
pub mod env;
pub mod laws;
pub mod machine;
pub mod receipts;
pub mod rewards;
pub mod roots;
pub mod run_laws;
pub mod setting_laws;
pub mod spec_id;
pub mod steps;
pub mod system_calls;
pub mod tx_env;
