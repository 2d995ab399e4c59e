//! Core of a filesystem-to-instance-tree synchronizer.
//!
//! The library keeps a live, in-memory instance tree synchronized with a
//! filesystem tree: an in-memory filesystem cache (`imfs`) snapshots the real
//! filesystem behind a pluggable fetch capability, snapshot middleware turns
//! filesystem shapes into instance snapshots, a diff/patch engine
//! (`rbx_snapshot`) computes and applies incremental tree changes, and a
//! session (`rbx_session`) orchestrates watcher events into applied patches
//! and published messages (`message_queue`).

pub mod imfs;
pub mod message_queue;
pub mod path_map;
pub mod rbx_session;
pub mod rbx_snapshot;
pub mod snapshot_middleware;
pub mod tree;
