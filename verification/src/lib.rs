//! Coordination of personal, frequently-saved checkpoints ("weft") against a
//! shared mainline history: per-user head pointers, an append-only invertible
//! operation log, conflict-tolerant sync, and a propose/weave candidate
//! lifecycle.  Everything that touches the repository on disk, the network or
//! the environment is left to the surrounding program; this crate holds the
//! decision rules and the wire formats, with their contracts.

pub mod candidate;
pub mod entry;
pub mod error;
pub mod escape;
pub mod ident;
pub mod num;
pub mod oplog;
pub mod refs;
pub mod save;
pub mod share;
pub mod status;
pub mod strops;
pub mod sync;
pub mod tracker;
pub mod undo;
