use chips_core::module::loader::ModuleLoader;
use chips_core::module::metadata::{Dependency, EntryPoint, ModuleInfo, ModuleMetadata, ModuleState, ModuleType, Runtime};
use chips_core::module::registry::ModuleRegistry;
use chips_core::module::runtime::RustRuntimeManager;
use chips_core::utils::error::CoreError;

fn create_test_metadata(id: &str) -> ModuleMetadata {
    let mut metadata = ModuleMetadata::new(id, &format!("Test Module {}", id), "1.0.0");
    metadata.entry = EntryPoint { runtime: Runtime::Rust, path: "lib.rs".to_string(), function: None };
    metadata
}

fn registry_with(ids: &[&str]) -> ModuleRegistry {
    let mut registry = ModuleRegistry::new(vec![]);
    for (i, id) in ids.iter().enumerate() {
        registry
            .register_with_metadata(create_test_metadata(id), format!("/test/path/{}", i + 1))
            .unwrap();
    }
    registry
}

#[test]
fn test_registry_creation() {
    let registry = ModuleRegistry::new(vec!["./modules".to_string()]);
    assert_eq!(registry.module_dirs().len(), 1);
    assert_eq!(registry.count(), 0);
}

#[test]
fn test_registry_with_defaults() {
    let registry = ModuleRegistry::with_defaults();
    assert!(!registry.module_dirs().is_empty());
}

#[test]
fn test_register_with_metadata() {
    let mut registry = ModuleRegistry::new(vec![]);
    let result = registry.register_with_metadata(create_test_metadata("test-module"), "/test/path".to_string());
    assert!(result.is_ok());
    assert_eq!(result.unwrap(), "test-module");
    assert!(registry.contains_module("test-module"));
    assert_eq!(registry.count(), 1);
}

#[test]
fn test_register_duplicate_module() {
    let mut registry = ModuleRegistry::new(vec![]);
    registry.register_with_metadata(create_test_metadata("test-module"), "/test/path".to_string()).unwrap();
    let result = registry.register_with_metadata(create_test_metadata("test-module"), "/test/path".to_string());
    assert!(result.is_err());
    assert!(matches!(result.unwrap_err(), CoreError::ModuleAlreadyLoaded(_)));
}

#[test]
fn test_unregister_module() {
    let mut registry = registry_with(&["test-module"]);
    let result = registry.unregister("test-module");
    assert!(result.is_ok());
    assert!(!registry.contains_module("test-module"));
}

#[test]
fn test_unregister_nonexistent_module() {
    let mut registry = ModuleRegistry::new(vec![]);
    let result = registry.unregister("nonexistent");
    assert!(result.is_err());
    assert!(matches!(result.unwrap_err(), CoreError::ModuleNotFound(_)));
}

#[test]
fn test_unregister_running_module() {
    let mut registry = registry_with(&["test-module"]);
    registry.set_state("test-module", ModuleState::Running).unwrap();
    let result = registry.unregister("test-module");
    assert!(result.is_err());
}

#[test]
fn test_get_module() {
    let registry = registry_with(&["test-module"]);
    let module = registry.get_module("test-module");
    assert!(module.is_some());
    assert_eq!(module.unwrap().id(), "test-module");
    assert!(registry.get_module("nonexistent").is_none());
}

#[test]
fn test_list_modules() {
    let registry = registry_with(&["module-1", "module-2", "module-3"]);
    assert_eq!(registry.list_modules().len(), 3);
}

#[test]
fn test_get_and_set_state() {
    let mut registry = registry_with(&["test-module"]);
    assert_eq!(registry.get_state("test-module"), Some(ModuleState::Registered));
    registry.set_state("test-module", ModuleState::Loading).unwrap();
    assert_eq!(registry.get_state("test-module"), Some(ModuleState::Loading));
    let result = registry.set_state("nonexistent", ModuleState::Running);
    assert!(result.is_err());
}

#[test]
fn test_set_error() {
    let mut registry = registry_with(&["test-module"]);
    registry.set_error("test-module", "Test error message").unwrap();
    assert_eq!(registry.get_state("test-module"), Some(ModuleState::Error));
    let module = registry.get_module("test-module").unwrap();
    assert_eq!(module.last_error, Some("Test error message".to_string()));
}

#[test]
fn test_find_modules() {
    let mut registry = ModuleRegistry::new(vec![]);
    for (id, module_type) in
        [("plugin-1", ModuleType::Plugin), ("plugin-2", ModuleType::Plugin), ("service-1", ModuleType::Service)]
    {
        let mut metadata = create_test_metadata(id);
        metadata.module_type = module_type;
        registry.register_with_metadata(metadata, format!("/test/path/{}", id)).unwrap();
    }
    let plugins: Vec<&ModuleInfo> =
        registry.list_modules().iter().filter(|m| m.metadata.module_type == ModuleType::Plugin).collect();
    assert_eq!(plugins.len(), 2);
    let services: Vec<&ModuleInfo> =
        registry.list_modules().iter().filter(|m| m.metadata.module_type == ModuleType::Service).collect();
    assert_eq!(services.len(), 1);
}

#[test]
fn test_find_by_state() {
    let mut registry = registry_with(&["module-1", "module-2", "module-3"]);
    registry.set_state("module-1", ModuleState::Running).unwrap();
    registry.set_state("module-2", ModuleState::Running).unwrap();
    assert_eq!(registry.find_by_state(ModuleState::Running).len(), 2);
    assert_eq!(registry.find_by_state(ModuleState::Registered).len(), 1);
}

#[test]
fn test_get_running_modules() {
    let mut registry = registry_with(&["test-module"]);
    registry.set_state("test-module", ModuleState::Running).unwrap();
    let running = registry.get_running_modules();
    assert_eq!(running.len(), 1);
    assert_eq!(running[0].id(), "test-module");
}

#[test]
fn registry_test_clear() {
    let mut registry = registry_with(&["module-1", "module-2", "module-3"]);
    assert_eq!(registry.count(), 3);
    registry.clear();
    assert_eq!(registry.count(), 0);
}

#[test]
fn test_get_metadata() {
    let registry = registry_with(&["test-module"]);
    let retrieved = registry.get_metadata("test-module");
    assert!(retrieved.is_some());
    assert_eq!(retrieved.unwrap().id, "test-module");
    assert!(registry.get_metadata("nonexistent").is_none());
}

#[test]
fn test_get_all_module_ids() {
    let registry = registry_with(&["module-1", "module-2", "module-3"]);
    assert_eq!(registry.get_all_module_ids().len(), 3);
}

#[test]
fn test_get_states_batch() {
    let mut registry = registry_with(&["module-1", "module-2", "module-3"]);
    registry.set_state("module-1", ModuleState::Running).unwrap();
    let ids = vec!["module-1".to_string(), "module-2".to_string(), "nonexistent".to_string()];
    let states = registry.get_states(&ids);
    assert_eq!(states.len(), 2);
    assert_eq!(states.iter().find(|(id, _)| id == "module-1").map(|(_, s)| *s), Some(ModuleState::Running));
    assert_eq!(states.iter().find(|(id, _)| id == "module-2").map(|(_, s)| *s), Some(ModuleState::Registered));
}

#[test]
fn test_add_module_dir() {
    let mut registry = ModuleRegistry::new(vec!["./modules".to_string()]);
    assert_eq!(registry.module_dirs().len(), 1);
    registry.add_module_dir("./plugins");
    assert_eq!(registry.module_dirs().len(), 2);
    registry.add_module_dir("./modules");
    assert_eq!(registry.module_dirs().len(), 2);
}

#[test]
fn test_state_updates_timestamps() {
    let mut registry = registry_with(&["test-module"]);
    let module = registry.get_module("test-module").unwrap();
    assert!(module.loaded_at.is_none());
    assert!(module.started_at.is_none());
    registry.set_state("test-module", ModuleState::Loaded).unwrap();
    assert!(registry.get_module("test-module").unwrap().loaded_at.is_some());
    registry.set_state("test-module", ModuleState::Running).unwrap();
    assert!(registry.get_module("test-module").unwrap().started_at.is_some());
}

#[test]
fn test_state_times_are_the_given_times() {
    let mut registry = registry_with(&["m"]);
    registry.set_state_at("m", ModuleState::Loaded, 1_000).unwrap();
    registry.set_state_at("m", ModuleState::Running, 2_000).unwrap();
    let module = registry.get_module("m").unwrap();
    assert_eq!(module.loaded_at, Some(1_000));
    assert_eq!(module.started_at, Some(2_000));
}

fn create_test_module(id: &str) -> ModuleInfo {
    let mut metadata = ModuleMetadata::new(id, &format!("Test {}", id), "1.0.0");
    metadata.entry = EntryPoint::rust("lib.rs");
    ModuleInfo::new(metadata, "/test".to_string())
}

fn create_test_module_with_dep(id: &str, dep_id: &str) -> ModuleInfo {
    let mut info = create_test_module(id);
    info.metadata.dependencies.push(Dependency::new(dep_id, "^1.0.0"));
    info
}

#[test]
fn test_loader_creation() {
    let loader = ModuleLoader::new();
    assert!(loader.loaded_modules().is_empty());
}

#[test]
fn test_load_module() {
    let mut loader = ModuleLoader::new();
    let runtime = RustRuntimeManager::new();
    let result = loader.load(&create_test_module("test_module"), &runtime);
    assert!(result.is_ok());
    assert!(loader.is_loaded("test_module"));
    assert_eq!(loader.get_state("test_module"), Some(ModuleState::Loaded));
}

#[test]
fn test_load_module_already_loaded() {
    let mut loader = ModuleLoader::new();
    let runtime = RustRuntimeManager::new();
    let module = create_test_module("test_module");
    loader.load(&module, &runtime).unwrap();
    let result = loader.load(&module, &runtime);
    assert!(result.is_err());
    assert!(matches!(result.unwrap_err(), CoreError::ModuleAlreadyLoaded(_)));
}

#[test]
fn test_unload_module() {
    let mut loader = ModuleLoader::new();
    let runtime = RustRuntimeManager::new();
    loader.load(&create_test_module("test_module"), &runtime).unwrap();
    let result = loader.unload("test_module", &runtime);
    assert!(result.is_ok());
    assert!(!loader.is_loaded("test_module"));
    assert_eq!(loader.get_state("test_module"), Some(ModuleState::Unloaded));
}

#[test]
fn test_unload_not_loaded_module() {
    let mut loader = ModuleLoader::new();
    let runtime = RustRuntimeManager::new();
    let result = loader.unload("nonexistent", &runtime);
    assert!(result.is_err());
    assert!(matches!(result.unwrap_err(), CoreError::ModuleNotLoaded(_)));
}

#[test]
fn test_unload_with_dependents() {
    let mut loader = ModuleLoader::new();
    let runtime = RustRuntimeManager::new();
    loader.load(&create_test_module("base_module"), &runtime).unwrap();
    loader.load(&create_test_module_with_dep("dependent_module", "base_module"), &runtime).unwrap();
    let result = loader.unload("base_module", &runtime);
    assert!(result.is_err());
    assert!(matches!(result.unwrap_err(), CoreError::ModuleHasDependents { .. }));
}

#[test]
fn test_unload_dependent_first() {
    let mut loader = ModuleLoader::new();
    let runtime = RustRuntimeManager::new();
    loader.load(&create_test_module("base_module"), &runtime).unwrap();
    loader.load(&create_test_module_with_dep("dependent_module", "base_module"), &runtime).unwrap();
    loader.unload("dependent_module", &runtime).unwrap();
    let result = loader.unload("base_module", &runtime);
    assert!(result.is_ok());
}

#[test]
fn test_loaded_modules() {
    let mut loader = ModuleLoader::new();
    let runtime = RustRuntimeManager::new();
    loader.load(&create_test_module("module1"), &runtime).unwrap();
    loader.load(&create_test_module("module2"), &runtime).unwrap();
    let loaded = loader.loaded_modules();
    assert_eq!(loaded.len(), 2);
    assert!(loaded.contains(&"module1".to_string()));
    assert!(loaded.contains(&"module2".to_string()));
}

#[test]
fn test_get_dependents() {
    let mut loader = ModuleLoader::new();
    let runtime = RustRuntimeManager::new();
    loader.load(&create_test_module("base"), &runtime).unwrap();
    loader.load(&create_test_module_with_dep("dep1", "base"), &runtime).unwrap();
    loader.load(&create_test_module_with_dep("dep2", "base"), &runtime).unwrap();
    let dependents = loader.get_dependents("base");
    assert_eq!(dependents.len(), 2);
    assert!(dependents.contains(&"dep1".to_string()));
    assert!(dependents.contains(&"dep2".to_string()));
}

#[test]
fn test_loader_failed_runtime_marks_error() {
    let mut loader = ModuleLoader::new();
    let module = create_test_module("m");
    loader.begin_load("m").unwrap();
    match loader.finish_load(&module, Err("boom".to_string())) {
        Err(CoreError::ModuleLoadFailed { module_id, reason }) => {
            assert_eq!(module_id, "m");
            assert_eq!(reason, "boom");
        }
        other => panic!("unexpected {:?}", other),
    }
    assert_eq!(loader.get_state("m"), Some(ModuleState::Error));
    assert!(!loader.is_loaded("m"));
}

#[test]
fn test_rust_runtime_manager() {
    let manager = RustRuntimeManager::new();
    assert_eq!(manager.runtime_type(), Runtime::Rust);
    let metadata = ModuleMetadata::new("test", "Test", "1.0.0");
    let module_info = ModuleInfo::new(metadata, "/test".to_string());
    let instance = manager.load_module(&module_info);
    assert_eq!(instance.module_id, "test");
}

#[test]
fn find_by_state_gives_the_modules_in_order() {
    let mut registry = registry_with(&["m1", "m2", "m3"]);
    registry.set_state("m3", ModuleState::Running).unwrap();
    registry.set_state("m1", ModuleState::Running).unwrap();
    let running: Vec<(&str, ModuleState)> =
        registry.find_by_state(ModuleState::Running).iter().map(|m| (m.id(), m.state)).collect();
    assert_eq!(running, vec![("m1", ModuleState::Running), ("m3", ModuleState::Running)]);
    assert!(registry.find_by_state(ModuleState::Error).is_empty());
}
