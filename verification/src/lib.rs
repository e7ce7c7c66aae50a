//! Finds visually duplicate images in a directory tree: candidates are
//! grouped into buckets by exact byte size, every bucket is decoded, and a
//! pairwise similarity sweep runs within each bucket.
//!
//! The crate holds the decision logic of the pipeline: which entries are
//! eligible, how candidates are grouped, which decoded candidates form a
//! bucket's working set, and which pairs are evaluated in which order.
//! Directory walking, image decoding and the perceptual comparison itself are
//! performed by the surrounding program, which drives the matcher one pair at
//! a time.

pub mod buckets;
pub mod filter;
pub mod loader;
pub mod matcher;
