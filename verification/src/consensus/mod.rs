//! The consensus layer: who takes part, when epochs change, and what becomes of a proposal.

pub mod ceremony;
pub mod config;
pub mod dkg;
pub mod genesis;
pub mod keys;
pub mod laws;
pub mod peers;
pub mod block;
pub mod durations;
pub mod epochs;
pub mod application;
pub mod application_laws;
pub mod stack;
