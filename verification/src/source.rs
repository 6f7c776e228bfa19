//! Sources of documents: workspaces, their snapshots, and what a snapshot must keep.
pub mod document;
pub mod group;
pub mod ids;
pub mod memory;
pub mod overlay;
pub mod snapshot;
