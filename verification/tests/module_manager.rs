use chips_core::module::manager::{ModuleManager, ModuleManagerConfig};
use chips_core::module::metadata::{Dependency, EntryPoint, ModuleMetadata, ModuleState};
use chips_core::router::route_table::RouteTable;
use chips_core::router::system_events;
use chips_core::utils::error::CoreError;

fn metadata(id: &str, deps: &[&str], provides: &[&str]) -> ModuleMetadata {
    let mut m = ModuleMetadata::new(id, id, "1.0.0");
    m.entry = EntryPoint::rust("lib.rs");
    m.dependencies = deps.iter().map(|d| Dependency::new(d, "^1.0.0")).collect();
    m.interfaces.provides = provides.iter().map(|p| p.to_string()).collect();
    m
}

fn state(manager: &ModuleManager, id: &str) -> Option<ModuleState> {
    manager.get_module(id).map(|m| m.state)
}

fn event_types(manager: &mut ModuleManager) -> Vec<String> {
    manager.take_events().into_iter().map(|e| e.event_type).collect()
}

#[test]
fn test_manager_creation() {
    let manager = ModuleManager::with_defaults();
    assert_eq!(manager.module_count(), 0);
}

#[test]
fn test_manager_with_config() {
    let config = ModuleManagerConfig {
        module_dirs: vec!["./modules".to_string()],
        hot_reload: true,
        health_check_interval_secs: 60,
        auto_load: vec!["test_module".to_string()],
    };
    let manager = ModuleManager::new(config);
    assert!(manager.config().hot_reload);
}

#[test]
fn test_load_nonexistent_module() {
    let mut manager = ModuleManager::with_defaults();
    let result = manager.load_module("nonexistent");
    assert!(result.is_err());
}

#[test]
fn test_module_operations() {
    let mut manager = ModuleManager::with_defaults();
    let mut m = ModuleMetadata::new("test-module", "Test Module", "1.0.0");
    m.entry = EntryPoint::rust("lib.rs");
    m.interfaces.provides = vec!["test.action".to_string()];
    manager.register_module(m, "/modules/test_module".to_string()).unwrap();

    manager.initialize().unwrap();

    assert_eq!(manager.module_count(), 1);
    let module = manager.get_module("test-module");
    assert!(module.is_some());
    assert_eq!(module.unwrap().metadata.name, "Test Module");
}

#[test]
fn test_manager_load_brings_dependencies_first() {
    let mut manager = ModuleManager::with_defaults();
    manager.register_module(metadata("a", &[], &[]), "/m/a".to_string()).unwrap();
    manager.register_module(metadata("b", &["a"], &[]), "/m/b".to_string()).unwrap();
    manager.register_module(metadata("c", &[], &[]), "/m/c".to_string()).unwrap();
    manager.build_dependency_graph().unwrap();

    manager.load_module("b").unwrap();
    assert_eq!(state(&manager, "a"), Some(ModuleState::Loaded));
    assert_eq!(state(&manager, "b"), Some(ModuleState::Loaded));
    assert_eq!(state(&manager, "c"), Some(ModuleState::Registered));
    assert_eq!(event_types(&mut manager), vec![system_events::MODULE_LOADED.to_string()]);
}

#[test]
fn test_manager_load_refused_in_wrong_state() {
    let mut manager = ModuleManager::with_defaults();
    manager.register_module(metadata("a", &[], &[]), "/m/a".to_string()).unwrap();
    manager.build_dependency_graph().unwrap();
    manager.load_module("a").unwrap();
    match manager.load_module("a") {
        Err(CoreError::ModuleLoadFailed { module_id, reason }) => {
            assert_eq!(module_id, "a");
            assert_eq!(reason, "模块当前状态 Loaded 不允许加载");
        }
        other => panic!("unexpected {:?}", other),
    }
}

#[test]
fn test_manager_unload_with_running_dependent() {
    let mut manager = ModuleManager::with_defaults();
    manager.register_module(metadata("a", &[], &[]), "/m/a".to_string()).unwrap();
    manager.register_module(metadata("b", &["a"], &[]), "/m/b".to_string()).unwrap();
    manager.build_dependency_graph().unwrap();
    manager.load_module("b").unwrap();
    manager.start_module("b").unwrap();

    match manager.unload_module("a") {
        Err(CoreError::ModuleHasDependents { module, dependents }) => {
            assert_eq!(module, "a");
            assert_eq!(dependents, vec!["b".to_string()]);
        }
        other => panic!("unexpected {:?}", other),
    }
    assert_eq!(state(&manager, "a"), Some(ModuleState::Loaded));
}

#[test]
fn test_manager_unload_after_dependent_unloaded() {
    let mut manager = ModuleManager::with_defaults();
    manager.register_module(metadata("a", &[], &[]), "/m/a".to_string()).unwrap();
    manager.register_module(metadata("b", &["a"], &[]), "/m/b".to_string()).unwrap();
    manager.build_dependency_graph().unwrap();
    manager.load_module("b").unwrap();
    manager.take_events();

    manager.unload_module("b").unwrap();
    manager.unload_module("a").unwrap();
    assert_eq!(state(&manager, "a"), Some(ModuleState::Unloaded));
    assert_eq!(state(&manager, "b"), Some(ModuleState::Unloaded));
    assert_eq!(
        event_types(&mut manager),
        vec![system_events::MODULE_UNLOADED.to_string(), system_events::MODULE_UNLOADED.to_string()]
    );
    // an unloaded module may be loaded again
    manager.load_module("a").unwrap();
    assert_eq!(state(&manager, "a"), Some(ModuleState::Loaded));
}

#[test]
fn test_manager_loader_refusal_marks_error() {
    // b depends on a; b is loaded then stopped, so the graph shows no
    // active dependent but the loader still records b as depending on a
    let mut manager = ModuleManager::with_defaults();
    manager.register_module(metadata("a", &[], &[]), "/m/a".to_string()).unwrap();
    manager.register_module(metadata("b", &["a"], &[]), "/m/b".to_string()).unwrap();
    manager.build_dependency_graph().unwrap();
    manager.load_module("b").unwrap();
    manager.stop_module("b").unwrap();

    match manager.unload_module("a") {
        Err(CoreError::ModuleHasDependents { module, dependents }) => {
            assert_eq!(module, "a");
            assert_eq!(dependents, vec!["b".to_string()]);
        }
        other => panic!("unexpected {:?}", other),
    }
    let a = manager.get_module("a").unwrap();
    assert_eq!(a.state, ModuleState::Error);
    assert!(a.last_error.is_some());
}

#[test]
fn test_manager_unload_unknown_and_wrong_state() {
    let mut manager = ModuleManager::with_defaults();
    assert!(matches!(manager.unload_module("x"), Err(CoreError::ModuleNotFound(id)) if id == "x"));
    manager.register_module(metadata("a", &[], &[]), "/m/a".to_string()).unwrap();
    match manager.unload_module("a") {
        Err(CoreError::ModuleUnloadFailed { module_id, reason }) => {
            assert_eq!(module_id, "a");
            assert_eq!(reason, "模块当前状态 Registered 不允许卸载");
        }
        other => panic!("unexpected {:?}", other),
    }
}

#[test]
fn test_manager_start_stop_restart() {
    let mut manager = ModuleManager::with_defaults();
    assert!(matches!(manager.start_module("x"), Err(CoreError::ModuleNotFound(_))));
    manager.register_module(metadata("a", &[], &[]), "/m/a".to_string()).unwrap();
    manager.build_dependency_graph().unwrap();
    manager.load_module("a").unwrap();
    manager.take_events();

    manager.start_module("a").unwrap();
    assert_eq!(state(&manager, "a"), Some(ModuleState::Running));
    let running: Vec<&str> = manager.get_running_modules().iter().map(|m| m.id()).collect();
    assert_eq!(running, vec!["a"]);
    manager.stop_module("a").unwrap();
    assert_eq!(state(&manager, "a"), Some(ModuleState::Stopped));
    manager.restart_module("a").unwrap();
    assert_eq!(state(&manager, "a"), Some(ModuleState::Running));
    assert_eq!(
        event_types(&mut manager),
        vec![
            system_events::MODULE_STARTED.to_string(),
            system_events::MODULE_STOPPED.to_string(),
            system_events::MODULE_STOPPED.to_string(),
            system_events::MODULE_STARTED.to_string(),
        ]
    );
}

#[test]
fn test_manager_module_event_data() {
    let mut manager = ModuleManager::with_defaults();
    manager.register_module(metadata("a", &[], &[]), "/m/a".to_string()).unwrap();
    manager.build_dependency_graph().unwrap();
    manager.load_module("a").unwrap();
    let events = manager.take_events();
    assert_eq!(events.len(), 1);
    assert_eq!(events[0].sender, "module_manager");
    assert_eq!(events[0].data["module_id"], "a");
    assert!(manager.take_events().is_empty());
}

#[test]
fn test_manager_routes_follow_modules() {
    let mut manager = ModuleManager::with_defaults();
    manager.set_route_table(RouteTable::new());
    manager.register_module(metadata("a", &[], &["a.ping", "a.pong"]), "/m/a".to_string()).unwrap();
    manager.build_dependency_graph().unwrap();
    manager.load_module("a").unwrap();
    let table = manager.route_table().unwrap();
    assert_eq!(table.find_route("a.ping").unwrap().module_id, "a");
    assert_eq!(table.find_route("a.pong").unwrap().module_id, "a");

    manager.unload_module("a").unwrap();
    assert!(manager.route_table().unwrap().find_route("a.ping").is_none());
}

#[test]
fn test_manager_cycle_reported() {
    let mut manager = ModuleManager::with_defaults();
    manager.register_module(metadata("a", &["b"], &[]), "/m/a".to_string()).unwrap();
    manager.register_module(metadata("b", &["a"], &[]), "/m/b".to_string()).unwrap();
    assert!(matches!(manager.initialize(), Err(CoreError::CircularDependency(_))));
}

#[test]
fn test_manager_auto_load() {
    let config = ModuleManagerConfig {
        module_dirs: vec![],
        hot_reload: true,
        health_check_interval_secs: 30,
        auto_load: vec!["missing".to_string(), "a".to_string()],
    };
    let mut manager = ModuleManager::new(config);
    manager.register_module(metadata("a", &[], &[]), "/m/a".to_string()).unwrap();
    manager.initialize().unwrap();
    assert_eq!(state(&manager, "a"), Some(ModuleState::Loaded));
}

#[test]
fn test_manager_hot_install_and_uninstall() {
    let mut manager = ModuleManager::with_defaults();
    let id = manager.hot_install(Ok(metadata("a", &[], &[])), "/m/a".to_string()).unwrap();
    assert_eq!(id, "a");
    assert_eq!(state(&manager, "a"), Some(ModuleState::Running));

    manager.hot_uninstall("a").unwrap();
    assert!(manager.get_module("a").is_none());
    assert_eq!(manager.module_count(), 0);
    assert!(matches!(manager.hot_uninstall("a"), Err(CoreError::ModuleNotFound(_))));

    // the same module can be installed again
    manager.hot_install(Ok(metadata("a", &[], &[])), "/m/a".to_string()).unwrap();
    assert_eq!(state(&manager, "a"), Some(ModuleState::Running));
}

#[test]
fn test_manager_hot_install_refusals() {
    let config = ModuleManagerConfig { hot_reload: false, ..ModuleManagerConfig::default() };
    let mut off = ModuleManager::new(config);
    match off.hot_install(Ok(metadata("a", &[], &[])), "/m/a".to_string()) {
        Err(CoreError::InitFailed(msg)) => assert_eq!(msg, "热插拔未启用"),
        other => panic!("unexpected {:?}", other),
    }
    assert!(matches!(off.hot_uninstall("a"), Err(CoreError::InitFailed(_))));

    let mut manager = ModuleManager::with_defaults();
    let parse_error = CoreError::InvalidMetadata("bad".to_string());
    assert!(matches!(
        manager.hot_install(Err(parse_error), "/m/x".to_string()),
        Err(CoreError::InvalidMetadata(m)) if m == "bad"
    ));
    manager.hot_install(Ok(metadata("a", &[], &[])), "/m/a".to_string()).unwrap();
    assert!(matches!(
        manager.hot_install(Ok(metadata("a", &[], &[])), "/m/a".to_string()),
        Err(CoreError::ModuleAlreadyLoaded(_))
    ));
}

#[test]
fn test_manager_health_check_tracks_nothing() {
    let manager = ModuleManager::with_defaults();
    assert!(matches!(manager.health_check("a", 0), Err(CoreError::ModuleNotLoaded(_))));
    assert!(manager.health_check_all().is_empty());
}
