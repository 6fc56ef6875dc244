//! Maintenance-burden report for a version-controlled tree: a single forward
//! pass over a stream of per-commit change records aggregates the number of
//! lines added and deleted per file, attributing historical stats to a file's
//! current name even across chains of renames, and renders a report sorted by
//! total lines deleted.

pub mod aggregate;
pub mod laws;
pub mod options;
pub mod record;
pub mod report;
pub mod rename;
pub mod strmap;
pub mod text;
