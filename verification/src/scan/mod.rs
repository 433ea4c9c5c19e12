//! Repository scanning: languages, line labels, imports and typing units.

pub mod deps;
pub mod extract;
pub mod label;
pub mod language;
pub mod manifest;
pub mod walk;
