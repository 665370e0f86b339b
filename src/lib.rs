//! Image library scanning: per-file content and perceptual fingerprints,
//! validity-checked caching decisions, and exact- and near-duplicate
//! clustering.

pub mod record;
pub mod fingerprint;
pub mod cluster;
pub mod store;
pub mod metadata;
pub mod scan;
