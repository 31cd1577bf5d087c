use file_server::api::ApiResponse;
use file_server::error::ServerError;

#[test]
fn test_api_response_structure() {
    let success_response: ApiResponse<String> = ApiResponse::success("test data".to_string());
    assert!(success_response.success);
    assert!(success_response.data.is_some());
    assert!(success_response.error.is_none());

    let error_response: ApiResponse<()> = ApiResponse::error("test error".to_string());
    assert!(!error_response.success);
    assert!(error_response.data.is_none());
    assert!(error_response.error.is_some());
}

#[test]
fn test_status_codes() {
    assert_eq!(ServerError::not_found("x".to_string()).status_code(), 404);
    assert_eq!(ServerError::validation("x".to_string()).status_code(), 400);
    assert_eq!(ServerError::permission_denied("x".to_string()).status_code(), 403);
    assert_eq!(
        ServerError::Conflict { message: "x".to_string() }.status_code(),
        409
    );
    assert_eq!(ServerError::file_operation("x".to_string()).status_code(), 500);
    assert_eq!(ServerError::video_processing("x".to_string()).status_code(), 500);
    assert_eq!(
        ServerError::IoFailure { message: "x".to_string() }.status_code(),
        500
    );
    assert_eq!(
        ServerError::PersistenceFailure { message: "x".to_string() }.status_code(),
        500
    );
}

#[test]
fn test_kind_names() {
    assert_eq!(ServerError::not_found("x".to_string()).kind_name(), "not found");
    assert_eq!(
        ServerError::validation("x".to_string()).kind_name(),
        "validation error"
    );
}
