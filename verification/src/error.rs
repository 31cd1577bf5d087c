//! Error taxonomy of the service core, with the HTTP status code each kind
//! maps to.

use vstd::prelude::*;

verus! {

/// One failure kind per class of fault the core can surface: malformed or
/// out-of-bound requests, unknown resources, duplicate identifiers or
/// misaligned writes, filesystem faults, metadata-store faults, and
/// permission problems.
#[derive(Debug)]
pub enum ServerError {
    FileOperation { message: String },
    VideoProcessing { message: String },
    Validation { message: String },
    NotFound { resource: String },
    Conflict { message: String },
    IoFailure { message: String },
    PersistenceFailure { message: String },
    PermissionDenied { action: String },
}

impl ServerError {
    pub fn file_operation(message: String) -> (r: Self)
        ensures
            r == (ServerError::FileOperation { message }),
    {
        ServerError::FileOperation { message }
    }

    pub fn video_processing(message: String) -> (r: Self)
        ensures
            r == (ServerError::VideoProcessing { message }),
    {
        ServerError::VideoProcessing { message }
    }

    pub fn validation(message: String) -> (r: Self)
        ensures
            r == (ServerError::Validation { message }),
    {
        ServerError::Validation { message }
    }

    pub fn not_found(resource: String) -> (r: Self)
        ensures
            r == (ServerError::NotFound { resource }),
    {
        ServerError::NotFound { resource }
    }

    pub fn permission_denied(action: String) -> (r: Self)
        ensures
            r == (ServerError::PermissionDenied { action }),
    {
        ServerError::PermissionDenied { action }
    }

    /// The HTTP status code a transport layer should answer with for this
    /// failure: 404 for missing resources, 400 for validation faults, 403
    /// for permission faults, 409 for conflicts, 500 for everything else.
    pub fn status_code(&self) -> (code: u16)
        ensures
            code == (match self {
                ServerError::NotFound { .. } => 404u16,
                ServerError::Validation { .. } => 400u16,
                ServerError::PermissionDenied { .. } => 403u16,
                ServerError::Conflict { .. } => 409u16,
                _ => 500u16,
            }),
    {
        match self {
            ServerError::NotFound { .. } => 404,
            ServerError::Validation { .. } => 400,
            ServerError::PermissionDenied { .. } => 403,
            ServerError::Conflict { .. } => 409,
            ServerError::FileOperation { .. } => 500,
            ServerError::VideoProcessing { .. } => 500,
            ServerError::IoFailure { .. } => 500,
            ServerError::PersistenceFailure { .. } => 500,
        }
    }

    /// A short label for the failure kind, for logs and API payloads.
    pub fn kind_name(&self) -> (r: &'static str)
        ensures
            (match self {
                ServerError::FileOperation { .. } => r@ == "file operation error"@,
                ServerError::VideoProcessing { .. } => r@ == "video processing error"@,
                ServerError::Validation { .. } => r@ == "validation error"@,
                ServerError::NotFound { .. } => r@ == "not found"@,
                ServerError::Conflict { .. } => r@ == "conflict"@,
                ServerError::IoFailure { .. } => r@ == "io error"@,
                ServerError::PersistenceFailure { .. } => r@ == "persistence error"@,
                ServerError::PermissionDenied { .. } => r@ == "permission denied"@,
            }),
    {
        match self {
            ServerError::FileOperation { .. } => "file operation error",
            ServerError::VideoProcessing { .. } => "video processing error",
            ServerError::Validation { .. } => "validation error",
            ServerError::NotFound { .. } => "not found",
            ServerError::Conflict { .. } => "conflict",
            ServerError::IoFailure { .. } => "io error",
            ServerError::PersistenceFailure { .. } => "persistence error",
            ServerError::PermissionDenied { .. } => "permission denied",
        }
    }
}

} // verus!
