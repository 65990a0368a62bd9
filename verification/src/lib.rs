//! Coordinator for merged mining: it inspects blocks of a base chain for
//! transactions that anchor commitments of a secondary chain, filters them by
//! an economic threshold, and hands the survivors to a bounded pool of miner
//! slots.
//!
//! The crate holds the deterministic core only. Fetching blocks, submitting
//! transactions, sleeping between rounds and locking are left to the caller,
//! which hands this library plain values and acts on the plain values it gets
//! back.
//!
//! The modules, leaves first: `error` and `config` hold the shared types;
//! `chain` and `encoding` describe what is read from the base chain;
//! `analyzer` finds the candidates of a block and `validator` decides which of
//! them are worth a miner; `pool` keeps the miner slots and `round` offers the
//! candidates of one round to them; `coordinator` puts a round together and
//! `scheduler` says when the next one runs.

pub mod error;
pub mod config;
pub mod chain;
pub mod encoding;
pub mod analyzer;
pub mod validator;
pub mod pool;
pub mod round;
pub mod coordinator;
pub mod scheduler;
