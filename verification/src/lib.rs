//! Storage recovery and safe deletion for a workstation, built around
//! four verified pieces: a multi-layer path validator that gates every
//! mutating operation, a reversible trash subsystem driven by a
//! journal, a two-pass duplicate detector over sampled fingerprints,
//! and a phased scan orchestrator that survives partial failures. A
//! time-to-live cache memoizes expensive directory sizes. Filesystem
//! walks, renames and persistence live with the caller; the logic here
//! is a function of what the caller observed.
pub mod cache;
pub mod cleanup;
pub mod dupes;
pub mod health;
pub mod packages;
pub mod phases;
pub mod scanner;
pub mod security;
pub mod seqext;
pub mod strutil;
pub mod trash;
pub mod tree;
