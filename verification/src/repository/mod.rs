//! Semantic repositories over one physical snapshot transaction of the store.
//!
//! Repositories own key selection, decoding, validation and mutation
//! planning; the store itself exposes only physical reads, scans and writes.

pub mod catalogue;
pub mod claims;
pub mod control;
pub mod function;
pub mod common;
pub mod projection;
pub mod invocation;
pub mod runtime;
