//! Finds files whose contents are identical: each file's bytes are reduced
//! to a SHA-256 fingerprint, paths are grouped by fingerprint in the order
//! they are met, and only the groups with two or more members are kept.

pub mod fingerprint;
pub mod grouping;
pub mod report;
pub mod laws;
