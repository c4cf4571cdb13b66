//! Core of a terminal dashboard for hierarchical task progress: a
//! bounded-depth path-identity scheme for tree entries, adjacency
//! resolution over a sorted snapshot, and the pure computations behind
//! tree-connector, progress-bar, viewport and overflow rendering.

pub mod draw;
pub mod ext;
pub mod key;
pub mod progress;
pub mod text;
pub mod viewport;
