//! Commit-reveal-and-audit core for a distributed proof-of-work network.
//!
//! A participant derives a deterministic seed per nonce, computes outputs,
//! commits to a merkle root over fixed-width leaf hashes of those outputs,
//! and later reveals the outputs for a sampled subset of nonces together
//! with inclusion proofs, which the network audits against the root.

pub mod hashing;
pub mod kinds;
pub mod lifecycle;
pub mod merkle;
pub mod json;
pub mod output;
pub mod sampler;
pub mod settings;
pub mod text;

pub use text::u64_to_decimal;
