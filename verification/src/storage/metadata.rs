//! A plain metadata row, as some listings present it.

use vstd::prelude::*;

verus! {

/// File metadata in its row-id keyed form: identifier, client-supplied
/// name, byte size, optional MIME type, upload time in milliseconds since
/// the Unix epoch, and the path of the stored file.
pub struct FileMetadata {
    pub id: i64,
    pub filename: String,
    pub size: i64,
    pub mime_type: Option<String>,
    pub upload_time: i64,
    pub file_path: String,
}

} // verus!
