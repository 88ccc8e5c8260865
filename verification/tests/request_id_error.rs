use chips_core::router::request::{ErrorInfo, Priority, RouteRequest, RouteResponse};
use chips_core::utils::error::CoreError;
use chips_core::utils::error_code;
use chips_core::utils::id::{encode_base62, generate_id, generate_uuid, is_valid_id, parse_id, ID_LENGTH};
use chips_core::utils::status_code;
use std::collections::HashSet;

fn json(text: &str) -> serde_json::Value {
    serde_json::from_str(text).unwrap()
}

#[test]
fn test_route_request_new() {
    let request = RouteRequest::new("editor", "file.open", json(r#"{"path": "/test.txt"}"#));

    assert!(!request.request_id.is_empty());
    assert_eq!(request.sender, "editor");
    assert_eq!(request.action, "file.open");
    assert_eq!(request.priority, Priority::Normal);
    assert_eq!(request.timeout_ms, 30000);
}

#[test]
fn test_route_request_builder() {
    let request = RouteRequest::builder("editor", "file.open")
        .target("filesystem")
        .params(json(r#"{"path": "/test.txt"}"#))
        .priority(Priority::High)
        .timeout_ms(5000)
        .metadata("trace_id", serde_json::Value::String("trace-123".to_string()))
        .build();

    assert_eq!(request.target, Some("filesystem".to_string()));
    assert_eq!(request.priority, Priority::High);
    assert_eq!(request.timeout_ms, 5000);
    assert!(request.metadata.iter().any(|(k, _)| k == "trace_id"));
}

#[test]
fn test_route_response_success() {
    let response = RouteResponse::success("req-123", json(r#"{"result": "ok"}"#), 10);

    assert_eq!(response.status, status_code::OK);
    assert!(response.is_success());
    assert!(!response.is_error());
    assert!(response.data.is_some());
    assert!(response.error.is_none());
}

#[test]
fn test_route_response_error() {
    let error = ErrorInfo::new("NOT_FOUND", "Resource not found");
    let response = RouteResponse::error("req-123", status_code::NOT_FOUND, error, 5);

    assert_eq!(response.status, status_code::NOT_FOUND);
    assert!(!response.is_success());
    assert!(response.is_error());
    assert!(response.data.is_none());
    assert!(response.error.is_some());
}

#[test]
fn request_test_priority_ordering() {
    assert!(Priority::Low < Priority::Normal);
    assert!(Priority::Normal < Priority::High);
    assert!(Priority::High < Priority::Urgent);
}

#[test]
fn priority_ranks_follow_order() {
    assert_eq!(Priority::Low.rank(), 0);
    assert_eq!(Priority::Normal.rank(), 1);
    assert_eq!(Priority::High.rank(), 2);
    assert_eq!(Priority::Urgent.rank(), 3);
    assert_eq!(Priority::default(), Priority::Normal);
    assert_eq!(Priority::from("urgent"), Priority::Urgent);
    assert_eq!(Priority::from("HIGH"), Priority::High);
    assert_eq!(Priority::from("low"), Priority::Low);
    assert_eq!(Priority::from("anything"), Priority::Normal);
}

#[test]
fn request_with_setters() {
    let r = RouteRequest::new("a", "b.c", serde_json::Value::Null)
        .with_target("t")
        .with_priority(Priority::Urgent)
        .with_timeout(9)
        .with_metadata("k", serde_json::Value::Bool(true))
        .with_metadata("k", serde_json::Value::Bool(false));
    assert_eq!(r.target, Some("t".to_string()));
    assert_eq!(r.priority, Priority::Urgent);
    assert_eq!(r.timeout_ms, 9);
    assert_eq!(r.metadata.len(), 1);
    assert_eq!(r.metadata[0].1, serde_json::Value::Bool(false));
}

#[test]
fn response_statuses() {
    let e = RouteResponse::success_empty("r", 3);
    assert_eq!(e.status, status_code::OK);
    assert!(e.data.is_none());
    let a = RouteResponse::accepted("r", 4);
    assert_eq!(a.status, status_code::ACCEPTED);
    assert!(a.is_success());
    assert_eq!(a.elapsed_ms, 4);
    let i = ErrorInfo::new("C", "m").with_details(serde_json::Value::Bool(true));
    assert_eq!(i.details, Some(serde_json::Value::Bool(true)));
}

#[test]
fn test_generate_id_length() {
    let id = generate_id();
    assert_eq!(id.len(), ID_LENGTH);
}

#[test]
fn test_generate_id_charset() {
    let id = generate_id();
    assert!(id.chars().all(|c| c.is_ascii_alphanumeric()));
}

#[test]
fn test_generate_id_uniqueness() {
    let mut ids = HashSet::new();
    for _ in 0..1000 {
        let id = generate_id();
        assert!(ids.insert(id), "ID collision detected");
    }
}

#[test]
fn test_is_valid_id() {
    assert!(is_valid_id("a1B2c3D4e5"));
    assert!(is_valid_id("0000000000"));
    assert!(is_valid_id("zzzzzzzzzz"));
    assert!(is_valid_id("ZZZZZZZZZZ"));

    assert!(!is_valid_id("short"));
    assert!(!is_valid_id("toolongstring"));
    assert!(!is_valid_id(""));

    assert!(!is_valid_id("a1B2c3D4e!"));
    assert!(!is_valid_id("a1B2c3D4e "));
    assert!(!is_valid_id("a1B2c3-4e5"));
}

#[test]
fn test_parse_id() {
    assert!(parse_id("a1B2c3D4e5").is_some());
    assert!(parse_id("invalid").is_none());
}

#[test]
fn test_generate_uuid() {
    let uuid = generate_uuid();
    assert_eq!(uuid.len(), 36);
    assert!(uuid.contains('-'));
}

#[test]
fn base62_digits() {
    assert_eq!(encode_base62(0), "0000000000");
    assert_eq!(encode_base62(61), "000000000Z");
    assert_eq!(encode_base62(62), "0000000010");
    assert_eq!(encode_base62(10), "000000000a");
    assert_eq!(encode_base62(36), "000000000A");
    assert_eq!(parse_id("a1B2c3D4e5"), Some("a1B2c3D4e5".to_string()));
}

#[test]
fn test_error_display() {
    let err = CoreError::RouteNotFound("test.action".to_string());
    assert!(err.to_string().contains("test.action"));
}

#[test]
fn test_error_code() {
    let err = CoreError::RouteNotFound("test".to_string());
    assert_eq!(err.error_code(), error_code::CORE_SERVICE_NOT_FOUND);
}

#[test]
fn test_status_code() {
    let err = CoreError::RouteNotFound("test".to_string());
    assert_eq!(err.status_code(), status_code::NOT_FOUND);

    let err = CoreError::Timeout("req-123".to_string());
    assert_eq!(err.status_code(), status_code::TIMEOUT);
}

#[test]
fn error_messages() {
    assert_eq!(
        CoreError::RouteNotFound("a.b".to_string()).to_string(),
        "路由未找到: action 'a.b'"
    );
    assert_eq!(CoreError::Cancelled.to_string(), "操作被取消");
    assert_eq!(CoreError::Other("plain".to_string()).to_string(), "plain");
    assert_eq!(
        CoreError::UnsupportedRuntime("py".to_string()).to_string(),
        "不支持的运行时: \"py\""
    );
    assert_eq!(
        CoreError::ModuleHasDependents {
            module: "m".to_string(),
            dependents: vec!["x".to_string(), "y".to_string()],
        }
        .to_string(),
        "模块 'm' 被以下模块依赖，无法卸载: [\"x\", \"y\"]"
    );
    assert_eq!(
        CoreError::VersionMismatch {
            module: "m".to_string(),
            required: "^1".to_string(),
            found: "2.0.0".to_string(),
        }
        .to_string(),
        "版本不匹配: 模块 'm' 需要版本 ^1, 但找到版本 2.0.0"
    );
}

#[test]
fn error_codes_of_other_variants() {
    let q = CoreError::QueueFull { max_size: 1, message: "full".to_string() };
    assert_eq!(q.error_code(), error_code::QUEUE_FULL);
    assert_eq!(q.status_code(), status_code::SERVICE_UNAVAILABLE);
    assert_eq!(CoreError::Cancelled.error_code(), "UNKNOWN");
    assert_eq!(CoreError::Cancelled.status_code(), status_code::INTERNAL_ERROR);
    assert_eq!(CoreError::PermissionDenied("p".to_string()).status_code(), status_code::FORBIDDEN);
}
