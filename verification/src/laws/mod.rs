//! What the library promises, operation by operation.

pub mod batches;
pub mod bookmarks;
pub mod calls;
pub mod changes;
pub mod counts;
pub mod effects;
pub mod ignoring;
pub mod lines;
pub mod paths;
pub mod renames;
pub mod replays;
pub mod reshaping;
pub mod results;
pub mod service;
pub mod settings;
pub mod snapshots;
pub mod status;
pub mod views;
pub mod workers;
