use chips_core::router::request::RouteRequest;
use chips_core::router::validator::{
    is_valid_action_format, parse_action, RequestValidator, ValidationError, ValidationErrorCode,
    ValidationResult, ValidatorConfig,
};
use chips_core::utils::error::CoreError;

fn create_valid_request() -> RouteRequest {
    RouteRequest::new("test-sender", "card.read", serde_json::from_str("{}").unwrap())
}

fn now_ms() -> i64 {
    chrono::Utc::now().timestamp_millis()
}

#[test]
fn test_validator_new() {
    let validator = RequestValidator::new();
    assert_eq!(validator.config().max_request_id_length, 128);
    assert_eq!(validator.config().max_sender_length, 64);
}

#[test]
fn test_validator_with_config() {
    let config = ValidatorConfig {
        max_request_id_length: 64,
        ..Default::default()
    };
    let validator = RequestValidator::with_config(config);
    assert_eq!(validator.config().max_request_id_length, 64);
}

#[test]
fn test_validate_format_valid_request() {
    let validator = RequestValidator::new();
    let request = create_valid_request();
    let result = validator.validate_format(&request);

    assert!(result.is_valid);
    assert!(result.errors.is_empty());
}

#[test]
fn test_validate_format_empty_request_id() {
    let validator = RequestValidator::new();
    let mut request = create_valid_request();
    request.request_id = String::new();

    let result = validator.validate_format(&request);

    assert!(!result.is_valid);
    assert_eq!(result.errors.len(), 1);
    assert_eq!(result.errors[0].field, "request_id");
    assert_eq!(result.errors[0].code, ValidationErrorCode::EmptyField);
}

#[test]
fn test_validate_format_empty_sender() {
    let validator = RequestValidator::new();
    let mut request = create_valid_request();
    request.sender = String::new();

    let result = validator.validate_format(&request);

    assert!(!result.is_valid);
    assert_eq!(result.errors.len(), 1);
    assert_eq!(result.errors[0].field, "sender");
}

#[test]
fn test_validate_format_empty_action() {
    let validator = RequestValidator::new();
    let mut request = create_valid_request();
    request.action = String::new();

    let result = validator.validate_format(&request);

    assert!(!result.is_valid);
    assert_eq!(result.errors.len(), 1);
    assert_eq!(result.errors[0].field, "action");
}

#[test]
fn test_validate_format_invalid_action_format() {
    let validator = RequestValidator::new();
    let invalid_actions = vec![
        "invalid",
        "CARD.read",
        "card.READ",
        ".read",
        "card.",
        "card..read",
        "card.read.more",
        "1card.read",
        "card.1read",
        "card_mgr.read",
        "card.read-all",
        " card.read",
        "card.read ",
    ];

    for action in invalid_actions {
        let mut request = create_valid_request();
        request.action = action.to_string();

        let result = validator.validate_format(&request);

        assert!(!result.is_valid, "Action '{}' should be invalid", action);
        assert!(
            result.errors.iter().any(|e| e.field == "action"),
            "Should have action error for '{}'",
            action
        );
    }
}

#[test]
fn test_validate_format_valid_action_formats() {
    let validator = RequestValidator::new();
    let valid_actions = vec![
        "card.read",
        "card.write",
        "file-system.list",
        "file-system.read_all",
        "auth.check_permission",
        "plugin.install",
        "a.b",
        "a1.b2",
        "module-name.action_name",
    ];

    for action in valid_actions {
        let mut request = create_valid_request();
        request.action = action.to_string();

        let result = validator.validate_format(&request);

        assert!(
            result.is_valid,
            "Action '{}' should be valid, but got errors: {:?}",
            action,
            result.errors
        );
    }
}

#[test]
fn test_validate_format_timestamp_too_old() {
    let validator = RequestValidator::new();
    let mut request = create_valid_request();
    request.timestamp = now_ms() - 10 * 60 * 1000;

    let result = validator.validate_format(&request);

    assert!(!result.is_valid);
    assert!(result.errors.iter().any(|e| e.field == "timestamp"));
}

#[test]
fn test_validate_format_timestamp_in_future() {
    let validator = RequestValidator::new();
    let mut request = create_valid_request();
    request.timestamp = now_ms() + 5 * 60 * 1000;

    let result = validator.validate_format(&request);

    assert!(!result.is_valid);
    assert!(result.errors.iter().any(|e| e.field == "timestamp"));
}

#[test]
fn test_validate_format_timestamp_within_drift() {
    let validator = RequestValidator::new();
    let mut request = create_valid_request();
    request.timestamp = now_ms() - 30 * 1000;

    let result = validator.validate_format(&request);

    assert!(result.is_valid);
}

#[test]
fn test_validate_format_multiple_errors() {
    let validator = RequestValidator::new();
    let mut request = create_valid_request();
    request.request_id = String::new();
    request.sender = String::new();
    request.action = String::new();

    let result = validator.validate_format(&request);

    assert!(!result.is_valid);
    assert_eq!(result.errors.len(), 3);
}

#[test]
fn test_validate_format_request_id_too_long() {
    let validator = RequestValidator::new();
    let mut request = create_valid_request();
    request.request_id = "a".repeat(200);

    let result = validator.validate_format(&request);

    assert!(!result.is_valid);
    assert!(result
        .errors
        .iter()
        .any(|e| e.field == "request_id" && e.code == ValidationErrorCode::OutOfRange));
}

#[test]
fn test_validate_format_invalid_request_id_chars() {
    let validator = RequestValidator::new();
    let mut request = create_valid_request();
    request.request_id = "invalid@id!".to_string();

    let result = validator.validate_format(&request);

    assert!(!result.is_valid);
    assert!(result
        .errors
        .iter()
        .any(|e| e.field == "request_id" && e.code == ValidationErrorCode::InvalidFormat));
}

#[test]
fn test_validate_permission_no_required() {
    let validator = RequestValidator::new();
    let request = create_valid_request();

    let result = validator.validate_permission(&request, &[], &[]);

    assert!(result.is_valid);
}

#[test]
fn test_validate_permission_has_all_required() {
    let validator = RequestValidator::new();
    let request = create_valid_request();

    let required = vec!["card.read".to_string()];
    let sender_perms = vec!["card.read".to_string(), "card.write".to_string()];

    let result = validator.validate_permission(&request, &required, &sender_perms);

    assert!(result.is_valid);
}

#[test]
fn test_validate_permission_missing_permission() {
    let validator = RequestValidator::new();
    let request = create_valid_request();

    let required = vec!["card.write".to_string()];
    let sender_perms = vec!["card.read".to_string()];

    let result = validator.validate_permission(&request, &required, &sender_perms);

    assert!(!result.is_valid);
    assert_eq!(result.errors.len(), 1);
    assert_eq!(result.errors[0].code, ValidationErrorCode::PermissionDenied);
}

#[test]
fn test_validate_permission_missing_multiple() {
    let validator = RequestValidator::new();
    let request = create_valid_request();

    let required = vec!["card.write".to_string(), "card.delete".to_string()];
    let sender_perms = vec!["card.read".to_string()];

    let result = validator.validate_permission(&request, &required, &sender_perms);

    assert!(!result.is_valid);
    assert_eq!(result.errors.len(), 2);
}

#[test]
fn test_validate_full_success() {
    let validator = RequestValidator::new();
    let request = create_valid_request();

    let required = vec!["card.read".to_string()];
    let sender_perms = vec!["card.read".to_string()];

    let result = validator.validate(&request, &required, &sender_perms);

    assert!(result.is_ok());
}

#[test]
fn test_validate_full_format_error() {
    let validator = RequestValidator::new();
    let mut request = create_valid_request();
    request.action = "invalid".to_string();

    let result = validator.validate(&request, &[], &[]);

    assert!(result.is_err());
    assert!(matches!(result.unwrap_err(), CoreError::InvalidRequest(_)));
}

#[test]
fn test_validate_full_permission_error() {
    let validator = RequestValidator::new();
    let request = create_valid_request();

    let required = vec!["card.delete".to_string()];
    let sender_perms = vec!["card.read".to_string()];

    let result = validator.validate(&request, &required, &sender_perms);

    assert!(result.is_err());
    assert!(matches!(result.unwrap_err(), CoreError::PermissionDenied(_)));
}

#[test]
fn test_validation_result_success() {
    let result = ValidationResult::success();
    assert!(result.is_valid);
    assert!(!result.has_errors());
}

#[test]
fn test_validation_result_failure() {
    let errors = vec![ValidationError::new("test", "test error", ValidationErrorCode::EmptyField)];
    let result = ValidationResult::failure(errors);

    assert!(!result.is_valid);
    assert!(result.has_errors());
}

#[test]
fn test_validation_result_add_error() {
    let mut result = ValidationResult::success();
    result.add_error(ValidationError::new("test", "test error", ValidationErrorCode::EmptyField));

    assert!(!result.is_valid);
    assert_eq!(result.errors.len(), 1);
}

#[test]
fn test_validation_result_into_result_success() {
    let result = ValidationResult::success();
    assert!(result.into_result().is_ok());
}

#[test]
fn test_validation_result_into_result_failure() {
    let errors = vec![ValidationError::new("test", "test error", ValidationErrorCode::EmptyField)];
    let result = ValidationResult::failure(errors);
    let res = result.into_result();

    assert!(res.is_err());
}

#[test]
fn test_is_valid_action_format() {
    assert!(is_valid_action_format("card.read"));
    assert!(is_valid_action_format("file-system.list"));
    assert!(is_valid_action_format("auth.check_permission"));

    assert!(!is_valid_action_format("invalid"));
    assert!(!is_valid_action_format("Card.read"));
    assert!(!is_valid_action_format("card.Read"));
}

#[test]
fn test_parse_action() {
    assert_eq!(parse_action("card.read"), Some(("card".to_string(), "read".to_string())));
    assert_eq!(
        parse_action("file-system.list"),
        Some(("file-system".to_string(), "list".to_string()))
    );
    assert_eq!(
        parse_action("auth.check_permission"),
        Some(("auth".to_string(), "check_permission".to_string()))
    );

    assert_eq!(parse_action("invalid"), None);
    assert_eq!(parse_action("Card.read"), None);
}

#[test]
fn test_validation_error_display() {
    let error = ValidationError::new("field", "message", ValidationErrorCode::EmptyField);
    let display = error.to_string();

    assert!(display.contains("EMPTY_FIELD"));
    assert!(display.contains("field"));
    assert!(display.contains("message"));
}

#[test]
fn test_validation_error_code_display() {
    assert_eq!(ValidationErrorCode::EmptyField.to_string(), "EMPTY_FIELD");
    assert_eq!(ValidationErrorCode::InvalidFormat.to_string(), "INVALID_FORMAT");
    assert_eq!(ValidationErrorCode::OutOfRange.to_string(), "OUT_OF_RANGE");
    assert_eq!(ValidationErrorCode::PermissionDenied.to_string(), "PERMISSION_DENIED");
}

#[test]
fn timestamps_at_fixed_now() {
    let validator = RequestValidator::new();
    let mut request = create_valid_request();
    let now: i64 = 1_700_000_000_000;
    request.timestamp = now - 300 * 1000;
    assert!(validator.validate_format_at(&request, now).is_valid);
    request.timestamp = now - 300 * 1000 - 1;
    assert!(!validator.validate_format_at(&request, now).is_valid);
    request.timestamp = now + 60 * 1000;
    assert!(validator.validate_format_at(&request, now).is_valid);
    request.timestamp = now + 60 * 1000 + 1;
    let r = validator.validate_format_at(&request, now);
    assert!(!r.is_valid);
    assert_eq!(r.errors[0].code, ValidationErrorCode::OutOfRange);
}

#[test]
fn sender_limits() {
    let validator = RequestValidator::new();
    let mut request = create_valid_request();
    request.sender = "s".repeat(64);
    assert!(validator.validate_format(&request).is_valid);
    request.sender = "s".repeat(65);
    let r = validator.validate_format(&request);
    assert_eq!(r.errors.len(), 1);
    assert_eq!(r.errors[0].field, "sender");
    assert_eq!(r.errors[0].code, ValidationErrorCode::OutOfRange);
}

#[test]
fn request_id_at_limit_is_valid() {
    let validator = RequestValidator::new();
    let mut request = create_valid_request();
    request.request_id = "a-b_C".repeat(25);
    assert!(validator.validate_format(&request).is_valid);
}

#[test]
fn timestamp_messages_show_utc_times() {
    let validator = RequestValidator::new();
    let mut request = create_valid_request();
    let now: i64 = 1_700_000_000_000;
    request.timestamp = now - 600 * 1000;
    let r = validator.validate_format_at(&request, now);
    let message = &r.errors[0].message;
    assert_eq!(
        message,
        "时间戳过早: 2023-11-14 22:03:20 UTC (允许的最早时间: 2023-11-14 22:08:20 UTC)"
    );
}
