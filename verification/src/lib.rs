//! Periodic Bitcoin transaction generation on top of a BDK wallet.
//!
//! The crate holds everything that a generator decides: how the wallet descriptors and the
//! fixed addresses follow from the seed phrase, what a scan of the UTXO set and a reading of
//! the mempool amount to, which blocks and parent transactions a wallet needs, which outputs
//! a batch may spend, and what becomes of a tick when a step of it fails. Talking to a node
//! is left to the program around it: [`TxGenerator::run_tick`] names one request at a time
//! and is handed the reply.
//!
//! What holds of the whole is proved beside it. [`promises`] speaks of single operations,
//! [`reading`], [`filling`], [`holding`], [`paying`], [`origin`] and [`course`] follow a tick from
//! its scan to its last broadcast, and [`laws`] and [`repeats`] hold what relates several ticks,
//! batches and wallets.

pub mod batch;
pub mod bdk;
pub mod caches;
pub mod config;
pub mod course;
pub mod derivation;
pub mod filling;
pub mod generator;
pub mod holding;
pub mod laws;
pub mod mempool;
pub mod origin;
pub mod paying;
pub mod plan;
pub mod promises;
pub mod reading;
pub mod repeats;
pub mod scan;
pub mod table;
pub mod text;
pub mod tick;
pub mod tx;
pub mod types;
pub mod wallet;

pub use config::{Config, ConfigError, Mode, NetworkConfig};
pub use generator::TxGenerator;
