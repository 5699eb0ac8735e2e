//! File type identification from leading bytes: a table of byte signatures,
//! a matcher over it with a content-sniffing fallback, classification of
//! observed filesystem entries, and grouping and filtering of the results.

pub mod info;
pub mod magicnums;
pub mod matcher;
pub mod resolve;
pub mod aggregate;

pub use aggregate::{filter_directories, filter_files, group_by_type};
pub use info::{FileInfo, FileInfoView, FileProcessingError, FileProcessingErrorView};
pub use magicnums::{entry_matches, find_signature, get_magic_numbers, MagicNumber};
pub use matcher::{
    describe_by_table, identify_from_bytes, identify_many_bytes, identify_with_fallback,
};
pub use resolve::{
    create_directory_info, identify_file_from_path, identify_multiple,
    identify_multiple_recursive, identify_recursive, Observed, Probe, Tree, WalkStep,
};
