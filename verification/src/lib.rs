//! Resolution of the local file graph referenced by a kustomization
//! manifest: path normalization, remote-reference classification, the
//! recursive walk over manifests, and the final sort-and-dedup reduction.
//!
//! The library is pure: every filesystem fact (whether a path exists,
//! what kind it is, what a file parses to) reaches it as an explicit
//! event, so the whole decision logic is verified.

pub mod classify;
pub mod engine;
pub mod paths;
pub mod reduce;
