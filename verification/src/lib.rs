//! A verified core for a lazily built, keyed cache of vertex-array binding
//! objects.
//!
//! All graphics-API work is owned by a single serialized executor; this crate
//! holds the decision logic that such a system runs: which API calls a
//! construction or destruction issues, how the tracked context state changes,
//! and how the per-key cache guarantees at-most-one binding object per
//! (buffer, program) pair. The unverified shell that talks to the real
//! graphics API performs the planned calls and hands their results back.

pub mod types;
pub mod commands;
pub mod cache;
pub mod executor;
pub mod vertex_array_object;
