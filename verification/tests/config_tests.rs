use file_server::config::Config;
use file_server::config::u64_to_dec;
use file_server::error::ServerError;

#[test]
fn test_config_default() {
    let config = Config::default();
    assert_eq!(config.server.address, "0.0.0.0");
    assert_eq!(config.server.port, 3000);
}

#[test]
fn test_server_address() {
    let config = Config::default();
    assert_eq!(config.server_address(), "0.0.0.0:3000");
}

#[test]
fn test_server_config_validation() {
    let config = Config::default();

    let server_address = config.server_address();
    assert_eq!(server_address, "0.0.0.0:3000");

    let db_url = config.database.database_url();
    assert_eq!(db_url, "sqlite:./files.db");

    assert!(config.storage.max_file_size > 0);
    assert!(config.storage.chunk_size > 0);
}

#[test]
fn test_decimal_rendering() {
    assert_eq!(u64_to_dec(0), "0");
    assert_eq!(u64_to_dec(7), "7");
    assert_eq!(u64_to_dec(3000), "3000");
    assert_eq!(u64_to_dec(10737418240), "10737418240");
}

#[test]
fn test_validate_rejects_zero_port() {
    let mut config = Config::default();
    config.server.port = 0;
    let err = config.validate().unwrap_err();
    assert!(matches!(err, ServerError::Validation { .. }));
    assert_eq!(err.status_code(), 400);
}

#[test]
fn test_validate_rejects_zero_max_file_size() {
    let mut config = Config::default();
    config.storage.max_file_size = 0;
    assert!(config.validate().is_err());
}

#[test]
fn test_validate_accepts_default() {
    assert!(Config::default().validate().is_ok());
}

#[test]
fn test_default_supported_formats() {
    let config = Config::default();
    let formats = &config.video.supported_formats;
    assert_eq!(formats.len(), 7);
    assert_eq!(formats[0], "mp4");
    assert_eq!(formats[6], "webm");
    assert_eq!(config.video.thumbnail_size, "320x240");
}
