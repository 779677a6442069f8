use rust_tunnel::error::TunnelError;
use rust_tunnel::json::JsonValue;
use rust_tunnel::models::{AllowList, ErrorResponse, SuccessResponse, TunnelConfig};

#[test]
fn standalone_models_test_test_success_response_new() {
    let response = SuccessResponse::new(42);
    assert!(response.ok);
    assert_eq!(response.result, Some(42));
    println!("✓ SuccessResponse::new works");
}

#[test]
fn standalone_models_test_test_success_response_empty() {
    let response: SuccessResponse<()> = SuccessResponse::empty();
    assert!(response.ok);
    assert!(response.result.is_none());
    println!("✓ SuccessResponse::empty works");
}

#[test]
fn standalone_models_test_test_error_response_unauthorized() {
    let err = ErrorResponse::unauthorized();
    assert!(!err.ok);
    assert_eq!(err.error.code, 401);
    assert_eq!(err.error.code_name, "UNAUTHORIZED");
    println!("✓ ErrorResponse::unauthorized works");
}

#[test]
fn standalone_models_test_test_error_response_forbidden() {
    let err = ErrorResponse::forbidden();
    assert_eq!(err.error.code, 403);
    assert_eq!(err.error.code_name, "FORBIDDEN");
    println!("✓ ErrorResponse::forbidden works");
}

#[test]
fn standalone_models_test_test_error_response_not_found() {
    let err = ErrorResponse::not_found();
    assert_eq!(err.error.code, 404);
    assert_eq!(err.error.code_name, "NOT_FOUND");
    println!("✓ ErrorResponse::not_found works");
}

#[test]
fn test_error_response_custom() {
    let err = ErrorResponse::new(500, "TEST_ERROR", "Custom error message");
    assert!(!err.ok);
    assert_eq!(err.error.code, 500);
    assert_eq!(err.error.code_name, "TEST_ERROR");
    assert_eq!(err.error.message, "Custom error message");
    println!("✓ ErrorResponse::new works");
}

#[test]
fn models_test_success_response_new() {
    let response = SuccessResponse::new(42);
    assert!(response.ok);
    assert_eq!(response.result, Some(42));
}

#[test]
fn models_test_success_response_empty() {
    let response: SuccessResponse<()> = SuccessResponse::empty();
    assert!(response.ok);
    assert!(response.result.is_none());
}

#[test]
fn models_test_error_response_unauthorized() {
    let err = ErrorResponse::unauthorized();
    assert!(!err.ok);
    assert_eq!(err.error.code, 401);
    assert_eq!(err.error.code_name, "UNAUTHORIZED");
}

#[test]
fn models_test_error_response_forbidden() {
    let err = ErrorResponse::forbidden();
    assert_eq!(err.error.code, 403);
    assert_eq!(err.error.code_name, "FORBIDDEN");
}

#[test]
fn models_test_error_response_not_found() {
    let err = ErrorResponse::not_found();
    assert_eq!(err.error.code, 404);
    assert_eq!(err.error.code_name, "NOT_FOUND");
}

#[test]
fn test_error_response_method_not_allowed() {
    let err = ErrorResponse::method_not_allowed();
    assert_eq!(err.error.code, 405);
    assert_eq!(err.error.code_name, "METHOD_NOT_ALLOWED");
}

#[test]
fn test_error_response_invalid_json() {
    let err = ErrorResponse::invalid_json("Bad JSON");
    assert_eq!(err.error.code, 400);
    assert_eq!(err.error.code_name, "INVALID_JSON");
    assert!(err.error.message.contains("Bad JSON"));
}

#[test]
fn test_error_response_internal_error() {
    let err = ErrorResponse::internal_error("Something broke");
    assert_eq!(err.error.code, 500);
    assert_eq!(err.error.code_name, "INTERNAL_ERROR");
    assert!(err.error.message.contains("Something broke"));
}

#[test]
fn test_tunnel_error_unauthorized() {
    let err = TunnelError::Unauthorized;
    assert!(matches!(err, TunnelError::Unauthorized));
}

#[test]
fn test_tunnel_error_forbidden() {
    let err = TunnelError::Forbidden;
    assert!(matches!(err, TunnelError::Forbidden));
}

#[test]
fn test_tunnel_error_not_found() {
    let err = TunnelError::NotFound;
    assert!(matches!(err, TunnelError::NotFound));
}

#[test]
fn test_tunnel_error_method_not_allowed() {
    let err = TunnelError::MethodNotAllowed;
    assert!(matches!(err, TunnelError::MethodNotAllowed));
}

#[test]
fn test_tunnel_error_invalid_json() {
    let err = TunnelError::InvalidJson("test error".to_string());
    match err {
        TunnelError::InvalidJson(msg) => assert_eq!(msg, "test error"),
        _ => panic!("Expected InvalidJson variant"),
    }
}

#[test]
fn test_tunnel_error_internal_error() {
    let err = TunnelError::InternalError("internal issue".to_string());
    match err {
        TunnelError::InternalError(msg) => assert_eq!(msg, "internal issue"),
        _ => panic!("Expected InternalError variant"),
    }
}

#[test]
fn test_tunnel_result_ok() {
    let result: rust_tunnel::error::TunnelResult<i32> = Ok(42);
    assert!(result.is_ok());
    assert_eq!(result.unwrap(), 42);
}

#[test]
fn test_tunnel_result_err() {
    let result: rust_tunnel::error::TunnelResult<i32> = Err(TunnelError::NotFound);
    assert!(result.is_err());
}

#[test]
fn test_error_debug_format() {
    let err = TunnelError::InvalidJson("test".to_string());
    let debug_str = format!("{:?}", err);
    assert!(debug_str.contains("InvalidJson"));
    assert!(debug_str.contains("test"));
}

#[test]
fn test_tunnel_config_default() {
    let config = TunnelConfig::default();
    assert_eq!(config.base_path, "/__runner");
    assert_eq!(config.port, 7070);
    assert_eq!(config.auth_header, "x-runner-token");
    assert!(config.delegate_auth);
}

#[test]
fn test_tunnel_config_clone() {
    let config = TunnelConfig::default();
    let cloned = config.clone();
    assert_eq!(config.port, cloned.port);
    assert_eq!(config.base_path, cloned.base_path);
}

#[test]
fn test_tunnel_error_to_http_status() {
    assert_eq!(TunnelError::Unauthorized.to_http_status(), 401);
    assert_eq!(TunnelError::Forbidden.to_http_status(), 403);
    assert_eq!(TunnelError::NotFound.to_http_status(), 404);
    assert_eq!(TunnelError::MethodNotAllowed.to_http_status(), 405);
    assert_eq!(TunnelError::InvalidJson("x".to_string()).to_http_status(), 400);
    assert_eq!(TunnelError::InternalError("x".to_string()).to_http_status(), 500);
}

#[test]
fn test_tunnel_error_to_error_response() {
    let resp = TunnelError::Unauthorized.to_error_response();
    assert!(!resp.ok);
    assert_eq!(resp.error.code, 401);
    let resp = TunnelError::InvalidJson("Bad format".to_string()).to_error_response();
    assert_eq!(resp.error.code, 400);
    assert!(resp.error.message.contains("Bad format"));
}

#[test]
fn test_allow_list_contains_task() {
    let allow_list = AllowList {
        enabled: true,
        tasks: vec!["task1".to_string(), "task2".to_string()],
        events: vec![],
    };
    assert!(allow_list.contains_task("task1"));
    assert!(allow_list.contains_task("task2"));
    assert!(!allow_list.contains_task("task3"));
}

#[test]
fn test_allow_list_disabled() {
    let allow_list = AllowList { enabled: false, tasks: vec![], events: vec![] };
    assert!(allow_list.contains_task("any_task"));
    assert!(allow_list.contains_event("any_event"));
}

#[test]
fn test_allow_list_enabled_events() {
    let allow_list = AllowList {
        enabled: true,
        tasks: vec![],
        events: vec!["event1".to_string()],
    };
    assert!(allow_list.contains_event("event1"));
    assert!(!allow_list.contains_event("event2"));
    assert!(!allow_list.contains_task("task1"));
}

#[test]
fn test_success_response_with_string() {
    let resp = SuccessResponse::new("Hello, World!".to_string());
    assert!(resp.ok);
    assert_eq!(resp.result, Some("Hello, World!".to_string()));
}

#[test]
fn test_success_response_with_json_value() {
    let resp = SuccessResponse::new(JsonValue::Int(8));
    assert!(resp.ok);
    assert_eq!(resp.result, Some(JsonValue::Int(8)));
}
