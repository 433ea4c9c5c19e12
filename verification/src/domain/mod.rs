pub mod content;
pub mod dependency;
pub mod entry;
pub mod file_type;
pub mod progress;
pub mod typing;
pub mod updates;
