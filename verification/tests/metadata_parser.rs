use chips_core::module::metadata::{
    Dependency, EntryPoint, HealthStatus, ModuleMetadata, ModuleState, Runtime,
};
use chips_core::module::parser::ModuleParser;
use chips_core::module::version::parse_version;

fn create_valid_metadata() -> ModuleMetadata {
    let mut metadata = ModuleMetadata::new("test-module", "Test Module", "1.0.0");
    metadata.entry = EntryPoint {
        runtime: Runtime::Rust,
        path: "lib.rs".to_string(),
        function: None,
    };
    metadata
}

fn error_text(metadata: &ModuleMetadata) -> String {
    let result = ModuleParser::validate(metadata);
    assert!(result.is_err());
    result.unwrap_err().to_string()
}

#[test]
fn test_module_metadata_creation() {
    let metadata = ModuleMetadata::new("test_module", "Test Module", "1.0.0");

    assert_eq!(metadata.id, "test_module");
    assert_eq!(metadata.name, "Test Module");
    assert_eq!(metadata.version, "1.0.0");
}

#[test]
fn test_module_metadata_validation() {
    let metadata = ModuleMetadata::new("test", "Test", "1.0.0");
    assert!(metadata.validate().is_err());

    let mut metadata = metadata;
    metadata.entry = EntryPoint::rust("lib.rs");
    assert!(metadata.validate().is_ok());
}

#[test]
fn test_module_state_transitions() {
    assert!(ModuleState::Registered.can_load());
    assert!(!ModuleState::Running.can_load());

    assert!(ModuleState::Loaded.can_start());
    assert!(!ModuleState::Loading.can_start());

    assert!(ModuleState::Running.can_stop());
    assert!(!ModuleState::Stopped.can_stop());

    assert!(ModuleState::Loaded.can_unload());
    assert!(!ModuleState::Running.can_unload());
}

#[test]
fn test_dependency_version_check() {
    let dep = Dependency::new("other_module", "^1.0.0");

    assert!(dep.version_matches(&parse_version("1.0.0").unwrap()));
    assert!(dep.version_matches(&parse_version("1.5.0").unwrap()));
    assert!(!dep.version_matches(&parse_version("2.0.0").unwrap()));
}

#[test]
fn test_health_status() {
    let healthy = HealthStatus::healthy();
    assert!(healthy.is_healthy());

    let unhealthy = HealthStatus::unhealthy("connection failed");
    assert!(!unhealthy.is_healthy());
}

#[test]
fn health_status_at_given_time() {
    let d = HealthStatus::degraded_at("slow", 42);
    assert!(!d.is_healthy());
    assert_eq!(d.checked_at, 42);
    assert_eq!(d.reason, Some("slow".to_string()));
    let h = HealthStatus::healthy_at(7);
    assert!(h.is_healthy());
    assert_eq!(h.reason, None);
}

#[test]
fn dependency_with_bad_requirement_matches_nothing() {
    let dep = Dependency::new("m", "not a requirement");
    assert!(!dep.version_matches(&parse_version("1.0.0").unwrap()));
    let opt = Dependency::new("m", "^1").optional();
    assert!(!opt.required);
    assert!(Dependency::new("m", "^1").required);
}

#[test]
fn metadata_validation_lists_every_problem() {
    let mut metadata = ModuleMetadata::new("", "", "x");
    metadata.dependencies.push(Dependency::new("d", "bad req"));
    let errors = metadata.validate().unwrap_err();
    assert_eq!(errors.len(), 5);
}

#[test]
fn test_validate_empty_id() {
    let mut metadata = create_valid_metadata();
    metadata.id = String::new();
    assert!(error_text(&metadata).contains("ID 不能为空"));
}

#[test]
fn test_validate_invalid_id_format() {
    let mut metadata = create_valid_metadata();
    metadata.id = "123-invalid".to_string();
    assert!(error_text(&metadata).contains("格式无效"));
}

#[test]
fn test_validate_empty_name() {
    let mut metadata = create_valid_metadata();
    metadata.name = String::new();
    assert!(error_text(&metadata).contains("名称不能为空"));
}

#[test]
fn test_validate_invalid_version() {
    let mut metadata = create_valid_metadata();
    metadata.version = "not-a-version".to_string();
    assert!(error_text(&metadata).contains("版本号格式"));
}

#[test]
fn test_validate_empty_version() {
    let mut metadata = create_valid_metadata();
    metadata.version = String::new();
    assert!(error_text(&metadata).contains("版本号不能为空"));
}

#[test]
fn test_validate_empty_entry_path() {
    let mut metadata = create_valid_metadata();
    metadata.entry.path = String::new();
    assert!(error_text(&metadata).contains("入口文件路径不能为空"));
}

#[test]
fn test_validate_dependency_invalid_version() {
    let mut metadata = create_valid_metadata();
    metadata.dependencies.push(Dependency {
        module_id: "other-module".to_string(),
        version: "invalid-version".to_string(),
        required: true,
    });
    assert!(error_text(&metadata).contains("版本要求格式无效"));
}

#[test]
fn test_validate_dependency_empty_module_id() {
    let mut metadata = create_valid_metadata();
    metadata.dependencies.push(Dependency {
        module_id: String::new(),
        version: "^1.0.0".to_string(),
        required: true,
    });
    assert!(error_text(&metadata).contains("模块 ID 不能为空"));
}

#[test]
fn test_validate_valid_permissions() {
    let mut metadata = create_valid_metadata();
    metadata.permissions.requested = vec![
        "file.read".to_string(),
        "file.write".to_string(),
        "network".to_string(),
        "file.*".to_string(),
    ];
    assert!(ModuleParser::validate(&metadata).is_ok());
}

#[test]
fn test_validate_invalid_permission_format() {
    let mut metadata = create_valid_metadata();
    metadata.permissions.requested = vec!["invalid..permission".to_string()];
    assert!(error_text(&metadata).contains("无效的权限声明格式"));
}

#[test]
fn test_validate_valid_action_names() {
    let mut metadata = create_valid_metadata();
    metadata.interfaces.provides = vec![
        "card.create".to_string(),
        "card.update".to_string(),
        "simple_action".to_string(),
    ];
    assert!(ModuleParser::validate(&metadata).is_ok());
}

#[test]
fn test_validate_invalid_action_name() {
    let mut metadata = create_valid_metadata();
    metadata.interfaces.provides = vec!["123invalid".to_string()];
    assert!(error_text(&metadata).contains("无效的 action 名称格式"));
}

#[test]
fn test_is_valid_module_id() {
    assert!(ModuleParser::is_valid_module_id("valid-module"));
    assert!(ModuleParser::is_valid_module_id("valid_module"));
    assert!(ModuleParser::is_valid_module_id("validModule123"));
    assert!(ModuleParser::is_valid_module_id("Module"));

    assert!(!ModuleParser::is_valid_module_id(""));
    assert!(!ModuleParser::is_valid_module_id("123module"));
    assert!(!ModuleParser::is_valid_module_id("-invalid"));
    assert!(!ModuleParser::is_valid_module_id("invalid.module"));
    assert!(!ModuleParser::is_valid_module_id("invalid module"));
}

#[test]
fn test_is_valid_permission() {
    assert!(ModuleParser::is_valid_permission("file.read"));
    assert!(ModuleParser::is_valid_permission("file.*"));
    assert!(ModuleParser::is_valid_permission("network"));
    assert!(ModuleParser::is_valid_permission("media_encode"));

    assert!(!ModuleParser::is_valid_permission(""));
    assert!(!ModuleParser::is_valid_permission("file..read"));
    assert!(!ModuleParser::is_valid_permission(".read"));
    assert!(!ModuleParser::is_valid_permission("file.read.write"));
}

#[test]
fn test_is_valid_action_name() {
    assert!(ModuleParser::is_valid_action_name("card.create"));
    assert!(ModuleParser::is_valid_action_name("simple_action"));
    assert!(ModuleParser::is_valid_action_name("domain.sub.action"));

    assert!(!ModuleParser::is_valid_action_name(""));
    assert!(!ModuleParser::is_valid_action_name("123action"));
    assert!(!ModuleParser::is_valid_action_name(".action"));
}

#[test]
fn identifiers() {
    assert!(ModuleParser::is_valid_identifier("abc_1"));
    assert!(ModuleParser::is_valid_identifier("_x"));
    assert!(!ModuleParser::is_valid_identifier("*"));
    assert!(!ModuleParser::is_valid_identifier("1a"));
    assert!(!ModuleParser::is_valid_identifier(""));
    assert!(!ModuleParser::is_valid_identifier("a-b"));
}

#[test]
fn test_multiple_validation_errors() {
    let mut metadata = create_valid_metadata();
    metadata.id = String::new();
    metadata.name = String::new();
    metadata.version = "invalid".to_string();

    let error_msg = error_text(&metadata);
    assert!(error_msg.contains("ID 不能为空"));
    assert!(error_msg.contains("名称不能为空"));
    assert!(error_msg.contains("版本号格式"));
}

#[test]
fn test_validate_compatibility_min_core_version() {
    let mut metadata = create_valid_metadata();
    metadata.compatibility.min_core_version = Some("^1.0.0".to_string());
    assert!(ModuleParser::validate(&metadata).is_ok());

    metadata.compatibility.min_core_version = Some("invalid-version".to_string());
    assert!(error_text(&metadata).contains("最低内核版本格式无效"));
}
