//! The errors an export reports.
use vstd::prelude::*;

verus! {

/// Why an export, or the export of one file, failed.
#[derive(Debug)]
pub enum ExportError {
    /// The source or the destination of the run does not exist.
    PathDoesNotExist { path: String },
    /// A file could not be read.
    ReadError { path: String },
    /// A file could not be written.
    WriteError { path: String },
    /// An embed would enter a note that is already being expanded, or go
    /// deeper than the ceiling allows. Holds the chain of notes being
    /// expanded, the root note first.
    RecursionLimitExceeded { file_tree: Vec<String> },
    /// A frontmatter block is not terminated or does not parse.
    FrontmatterDecodeError,
    /// The export of the file at `path` failed for the reason in `source`.
    FileExportError { path: String, source: Box<ExportError> },
}

impl ExportError {
    /// The error `source`, as met in the export of the file at `path`.
    pub fn for_file(path: String, source: ExportError) -> (r: ExportError)
        ensures
            r matches ExportError::FileExportError { path: p, source: s } && p == path && *s == source,
    {
        ExportError::FileExportError { path, source: Box::new(source) }
    }
}

} // verus!
