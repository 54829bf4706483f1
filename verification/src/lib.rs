//! A personal task tracker's persistence and ordering engine.
//!
//! Tasks carry a priority letter in `A..Z` (`A` most urgent), a free-text
//! description, a completion flag and an optional project label; presets are
//! named, reusable templates of (priority, description) pairs that can be
//! injected as real tasks. The store keeps both families in an embedded
//! SQLite database behind a small trusted boundary, and everything around
//! that boundary is verified: row parsing, the display ordering of listings,
//! project filtering and grouping, and the lifecycle rules of every mutation.

pub mod laws;
pub mod ordering;
pub mod presets;
pub mod sql_connection_factory;
pub mod storage;
pub mod task;
pub mod task_repo;
