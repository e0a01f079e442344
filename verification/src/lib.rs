//! Optimistic parallel execution of blocks of transactions, with the outputs
//! of sequential execution.
//!
//! A block is an ordered list of transactions and a snapshot of the state
//! before it. The engine runs the transactions speculatively, each against
//! what the transactions before it have written so far, notices where a
//! transaction has read what a lower transaction changed afterwards, runs
//! such a transaction again, and commits the outputs strictly in the order
//! of the block. What it commits is, output for output, what running the
//! block one transaction after the other yields: `sequential` says what that
//! is, `safety` why the engine keeps to it, and `block_executor` states it of
//! the engine's entry points.
//!
//! The parts, from the leaves up:
//! - `versioned_data`: the multi-version store of speculative writes;
//! - `code_cache`: the caches of modules and scripts;
//! - `scheduler`: which transaction is executed or validated next;
//! - `task`, `trace`: what the engine asks of the logic of a transaction;
//! - `txn_view`: what a transaction sees while it runs speculatively;
//! - `parallel_state`: the steps of the workers on the shared state;
//! - `block_executor`: the loop of the workers and the fallback to
//!   sequential execution;
//! - `native_vm`, `native_raw`, `synthetic`: tasks and executors to run;
//! - `state_checkpoint`: the versions, checkpoints and storage usage that
//!   follow the execution of a block;
//! - `proposal_generator`: how large a proposer makes a block and when it
//!   may propose;
//! - `session_id`, `txn_provider`, `network_metadata`, `account_config`,
//!   `dkg`, `emitter`: what the node holds around execution.

pub mod account_config;
pub mod block_executor;
pub mod code_cache;
pub mod dkg;
pub mod emitter;
pub mod native_raw;
pub mod native_vm;
pub mod network_metadata;
pub mod parallel_state;
pub mod proposal_generator;
pub mod safety;
pub mod scheduler;
pub mod sequential;
pub mod session_id;
pub mod state_checkpoint;
pub mod synthetic;
pub mod task;
pub mod trace;
pub mod txn_provider;
pub mod txn_view;
pub mod types;
pub mod versioned_data;
