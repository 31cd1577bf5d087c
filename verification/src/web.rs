//! Web-facing helpers.

pub mod static_files;

pub use static_files::StaticFileHandler;
