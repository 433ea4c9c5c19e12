//! Library core of repomonk: scanning, progress, typing and view state.

pub mod config;
pub mod domain;
pub mod samples;
pub mod scan;
pub mod session;
pub mod source;
pub mod store;
pub mod text;
pub mod ui;
