//! Verified core of a stateful (invariant) fuzzer for EVM contracts.
//!
//! A campaign sends sequences of generated transactions to deployed contracts and checks that the
//! invariants of a test contract still hold. The library decides what is called, what follows from
//! the outcome of a call and when a worker is done; the host runs the chain, the corpus and the
//! threads.

pub mod fixed;
pub mod text;
pub mod ordered;
pub mod sol;
pub mod abi;
pub mod tx;
pub mod config;
pub mod failure;
pub mod filters;
pub mod targets;
pub mod metrics;
pub mod run;
pub mod result;
pub mod shared;
pub mod worker;
pub mod aggregate;
pub mod executor;
pub mod artifacts;
pub mod selection;
pub mod execute;
pub mod campaign;
pub mod random;
pub mod dictionary;
pub mod param;
pub mod calldata;
pub mod strategy;
pub mod call_override;
