//! Habit tracking over a directory of dated journal files: front-matter
//! extraction, the metric store and the views that are computed from it.

pub mod date;
pub mod text;
pub mod store;
pub mod seqs;
pub mod extract;
pub mod streaks;
pub mod series;
pub mod heatmap;
pub mod ingest;
pub mod scanner;
pub mod watcher;
pub mod resync;
pub mod dashboard;
pub mod analytics;
pub mod settings;
pub mod summary;
pub mod queries;
pub mod roundtrip;
pub mod seed;
