//! The classification record and the error type shared by all operations.

use vstd::prelude::*;
use vstd::string::StringExecFns;

verus! {

/// Structured information about a detected file type.
#[derive(Debug, Clone, PartialEq, Eq)]
pub struct FileInfo {
    /// The path of the classified item; empty for in-memory bytes.
    pub path: String,
    /// A human-readable description of the file type.
    pub description: String,
    /// Whether this is a directory.
    pub is_directory: bool,
    /// File size in bytes (`None` for directories).
    pub size: Option<u64>,
}

/// The mathematical content of a [`FileInfo`].
pub ghost struct FileInfoView {
    pub path: Seq<char>,
    pub description: Seq<char>,
    pub is_directory: bool,
    pub size: Option<u64>,
}

impl View for FileInfo {
    type V = FileInfoView;

    open spec fn view(&self) -> FileInfoView {
        FileInfoView {
            path: self.path@,
            description: self.description@,
            is_directory: self.is_directory,
            size: self.size,
        }
    }
}

impl FileInfoView {
    /// A directory record carries no size.
    pub open spec fn wf(self) -> bool {
        self.is_directory ==> self.size is None
    }
}

/// Why a batch or recursive operation stopped.
#[derive(Debug, Clone, PartialEq, Eq)]
pub enum FileProcessingError {
    /// Metadata or content of an existing path could not be obtained; holds
    /// the failure's text.
    Io(String),
    /// A path given as an argument does not exist; holds that path.
    PathNotFound(String),
    /// The directory walk failed; holds the failure's text.
    WalkDir(String),
}

/// The mathematical content of a [`FileProcessingError`].
pub ghost enum FileProcessingErrorView {
    Io(Seq<char>),
    PathNotFound(Seq<char>),
    WalkDir(Seq<char>),
}

impl View for FileProcessingError {
    type V = FileProcessingErrorView;

    open spec fn view(&self) -> FileProcessingErrorView {
        match self {
            FileProcessingError::Io(text) => FileProcessingErrorView::Io(text@),
            FileProcessingError::PathNotFound(path) => FileProcessingErrorView::PathNotFound(path@),
            FileProcessingError::WalkDir(text) => FileProcessingErrorView::WalkDir(text@),
        }
    }
}

impl FileProcessingErrorView {
    /// The text that reports the error: what went wrong, a colon, and the
    /// failure's own text or the missing path.
    pub open spec fn message(self) -> Seq<char> {
        match self {
            FileProcessingErrorView::Io(text) => "IO error: "@ + text,
            FileProcessingErrorView::PathNotFound(path) => "Path does not exist: "@ + path,
            FileProcessingErrorView::WalkDir(text) => "Directory traversal error: "@ + text,
        }
    }
}

impl FileProcessingError {
    /// The text that reports this error.
    pub fn message(&self) -> (text: String)
        ensures
            text@ == self@.message(),
    {
        match self {
            FileProcessingError::Io(detail) => "IO error: ".to_owned().concat(detail.as_str()),
            FileProcessingError::PathNotFound(path) => "Path does not exist: ".to_owned().concat(
                path.as_str(),
            ),
            FileProcessingError::WalkDir(detail) => "Directory traversal error: ".to_owned().concat(
                detail.as_str(),
            ),
        }
    }
}

} // verus!
