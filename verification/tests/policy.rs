use imgdock::config::Config;
use imgdock::models::{AppError, TransferRequest};
use imgdock::validate::validate_request;

fn test_config(max_size_mb: u64, formats: Vec<&str>) -> Config {
    Config::new(
        String::from("https://storage.example"),
        String::from("bucket"),
        String::from("ak"),
        String::from("sk"),
        String::from("https://pub.example"),
        String::from("mongodb://localhost"),
        String::from("redis://localhost"),
        3000,
        max_size_mb,
        vec![0u8; 32],
        formats.into_iter().map(String::from).collect(),
    )
}

fn default_formats() -> Vec<&'static str> {
    vec!["image/jpeg", "image/png", "image/webp", "image/gif"]
}

#[test]
fn empty_name_is_bad_request() {
    let config = test_config(99, default_formats());
    let req = TransferRequest {
        name: String::new(),
        size: 100,
        content_type: String::from("image/png"),
    };
    match validate_request(&config, &req) {
        Err(AppError::BadRequest(m)) => assert_eq!(m, "Name cannot be empty"),
        _ => panic!("expected BadRequest"),
    }
}

#[test]
fn disallowed_type_is_bad_request() {
    let config = test_config(99, default_formats());
    let req = TransferRequest {
        name: String::from("doc.pdf"),
        size: 100,
        content_type: String::from("application/pdf"),
    };
    match validate_request(&config, &req) {
        Err(AppError::BadRequest(m)) => {
            assert_eq!(
                m,
                "Unsupported file format. Allowed: image/jpeg, image/png, image/webp, image/gif"
            );
        }
        _ => panic!("expected BadRequest"),
    }
}

#[test]
fn one_byte_over_ceiling_is_large_payload() {
    let config = test_config(99, default_formats());
    let req = TransferRequest {
        name: String::from("big.png"),
        size: 99 * 1024 * 1024 + 1,
        content_type: String::from("image/png"),
    };
    match validate_request(&config, &req) {
        Err(AppError::LargePayload(m)) => assert_eq!(m, "Max 99MB"),
        _ => panic!("expected LargePayload"),
    }
}

#[test]
fn exactly_at_ceiling_passes() {
    let config = test_config(99, default_formats());
    let req = TransferRequest {
        name: String::from("big.png"),
        size: 99 * 1024 * 1024,
        content_type: String::from("image/png"),
    };
    assert!(validate_request(&config, &req).is_ok());
}

#[test]
fn content_type_check_is_case_insensitive() {
    let config = test_config(99, default_formats());
    let req = TransferRequest {
        name: String::from("cat.png"),
        size: 100,
        content_type: String::from("IMAGE/PNG"),
    };
    assert!(validate_request(&config, &req).is_ok());
}

#[test]
fn wildcard_entry_bypasses_the_list() {
    let config = test_config(99, vec!["*"]);
    let req = TransferRequest {
        name: String::from("doc.pdf"),
        size: 100,
        content_type: String::from("application/pdf"),
    };
    assert!(validate_request(&config, &req).is_ok());
}

#[test]
fn error_status_codes() {
    assert_eq!(AppError::BadRequest(String::new()).status_code(), 400);
    assert_eq!(AppError::NotFound(String::new()).status_code(), 404);
    assert_eq!(AppError::Internal(String::new()).status_code(), 500);
    assert_eq!(AppError::LargePayload(String::new()).status_code(), 413);
}

#[test]
fn error_body_shape() {
    let e = AppError::NotFound(String::from("Image not found"));
    let body = imgdock::json::render_error_body(&e);
    assert_eq!(body, "{\"ok\":0,\"e\":\"Not Found: Image not found\"}");
}
