//! Workspace file tracking for a code-intelligence backend.
//!
//! The crate keeps the authoritative view of which files exist in a
//! workspace and what their current content is.  It reconciles three
//! sources of truth: the files on disk (found by a version-control-aware
//! discovery walk), the open-editor buffer overlays, and the known-files
//! set consumed by downstream indexers.

pub mod discovery;
pub mod documents;
pub mod identity;
pub mod paths;
pub mod propagate;
pub mod store;
pub mod watcher;
