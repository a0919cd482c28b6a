//! A live progress tracker for segmented runs: it parses save-state
//! documents into per-segment statistics, filters stale snapshots, tracks
//! personal bests and best splits, renders a comparison table, and persists
//! the records as flat documents.
pub mod chapter_map;
pub mod levels;
pub mod persist;
pub mod saves;
pub mod table;
pub mod timer;
pub mod watch;
