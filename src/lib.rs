//! Finds the largest files of a scan and writes byte counts in short form.

/// Short, human-readable text for byte counts.
pub mod size_format;
/// A bounded selection of the largest files offered to it.
pub mod top_files;
/// The count, total size and largest files of a scan.
pub mod scan;
/// The settings of a run.
pub mod options;
/// The lines that report a scan.
pub mod report;
