//! Storage: the metadata table of finalized files, and the plain metadata
//! row type.

pub mod file_manager;
pub mod metadata;

pub use file_manager::FileManager;
pub use file_manager::FileRecord;
pub use file_manager::FileStats;
pub use metadata::FileMetadata;
