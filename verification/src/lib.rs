//! Core logic of a release-tracking CLI: a custom Saturday-to-Friday week
//! calendar, bucketing of dated releases into week partitions, deduplication
//! and ordering of release lists, resumable sync-state bookkeeping, and the
//! decision engine of the incremental release synchronisation pass.
//!
//! All I/O (HTTP, files, terminal) lives outside this crate; the functions
//! here are pure over plain values, apart from a few narrow trusted wrappers
//! around outside computations (hashing, encoding, case folding, randomness).

pub mod albums;
pub mod artists;
pub mod bucket;
pub mod date;
pub mod kinds;
pub mod pkce;
pub mod playlist;
pub mod state;
pub mod store;
pub mod sync;
pub mod text;
pub mod token;
pub mod types;
pub mod weeks;
