//! What the progress store decides: parsing persisted values and deriving
//! summaries from rows.

pub mod sqlite;

pub use sqlite::{DataPaths, GlobalSummary, RecentRepo};
