//! Case-insensitive path resolution against a case-sensitive file tree,
//! with a validating, bounded, least-recently-used cache of resolved paths.
//!
//! The resolver itself never touches a disk: it is a state machine that asks
//! its caller to perform single filesystem queries and decides everything
//! else. The caller loop lives outside this crate.

pub mod seg;
pub mod path;
pub mod cache;
pub mod resolve;
pub mod laws;
