//! # rrd_store
//!
//! The semantic storage boundary shared by persistent rrflowKV and volatile
//! rrflowMX: the ordered physical-key grammar, the canonical key shapes, the
//! governed-function catalogue and its compare-and-swap head, the control
//! journal, stamped-read evidence, removal candidacy, logical-archive
//! receipts, backup catalogues, the migration state machine, and the
//! process-local stores, each with a machine-checked contract.

pub mod archive;
pub mod archive_format;
pub mod backup;
pub mod byte_map;
pub mod bytes;
pub mod commit_plan;
pub mod control;
pub mod digest;
pub mod ds;
pub mod engine;
pub mod error;
pub mod export;
pub mod footprint;
pub mod function;
pub mod index;
pub mod index_binding;
pub mod index_effects;
pub mod gc;
pub mod invocation;
pub mod key_codec;
pub mod key_order;
pub mod migration;
pub mod migration_archive;
pub mod keyspaces;
pub mod object;
pub mod outcome;
pub mod path;
pub mod repository;
pub mod restore;
pub mod version_key;
pub mod versioned_read;

pub use error::{Error, Result};
