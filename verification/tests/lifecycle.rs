use chips_core::module::lifecycle::{health_from_reply, LifecycleManager, Transition};
use chips_core::module::metadata::{HealthStatus, ModuleState};
use chips_core::utils::error::CoreError;

const NOW: i64 = 1_700_000_000_000;

// The native runtime's hooks always succeed and its health check answers
// nothing readable; these drive the manager as the kernel does.

fn start(manager: &mut LifecycleManager, id: &str) -> Result<(), CoreError> {
    if manager.begin_start(id)? == Transition::Proceed {
        manager.finish_start(id, true);
    }
    Ok(())
}

fn stop(manager: &mut LifecycleManager, id: &str) -> Result<(), CoreError> {
    if manager.begin_stop(id)? == Transition::Proceed {
        manager.finish_stop(id, true);
    }
    Ok(())
}

fn restart(manager: &mut LifecycleManager, id: &str) -> Result<(), CoreError> {
    let state = manager.get_state(id);
    if state.is_none() {
        return Err(CoreError::ModuleNotLoaded(id.to_string()));
    }
    if state == Some(ModuleState::Running) {
        stop(manager, id)?;
    }
    start(manager, id)
}

fn health_check(manager: &mut LifecycleManager, id: &str) -> Result<HealthStatus, CoreError> {
    if let Some(known) = manager.health_precheck(id, NOW)? {
        return Ok(known);
    }
    let status = health_from_reply(None, NOW);
    manager.cache_health_status(id, status.clone());
    Ok(status)
}

#[test]
fn test_lifecycle_manager_creation() {
    let manager = LifecycleManager::new();
    assert!(manager.get_all_states().is_empty());
}

#[test]
fn test_register_module() {
    let mut manager = LifecycleManager::new();
    manager.register_module("test_module");
    assert_eq!(manager.get_state("test_module"), Some(ModuleState::Registered));
}

#[test]
fn test_start_module() {
    let mut manager = LifecycleManager::new();
    manager.set_state("test_module", ModuleState::Loaded);
    let result = start(&mut manager, "test_module");
    assert!(result.is_ok());
    assert_eq!(manager.get_state("test_module"), Some(ModuleState::Running));
}

#[test]
fn test_start_module_not_loaded() {
    let mut manager = LifecycleManager::new();
    let result = start(&mut manager, "nonexistent");
    assert!(result.is_err());
    assert!(matches!(result.unwrap_err(), CoreError::ModuleNotLoaded(_)));
}

#[test]
fn test_start_module_invalid_state() {
    let mut manager = LifecycleManager::new();
    manager.set_state("test_module", ModuleState::Loading);
    let result = start(&mut manager, "test_module");
    assert!(result.is_err());
}

#[test]
fn test_stop_module() {
    let mut manager = LifecycleManager::new();
    manager.set_state("test_module", ModuleState::Running);
    let result = stop(&mut manager, "test_module");
    assert!(result.is_ok());
    assert_eq!(manager.get_state("test_module"), Some(ModuleState::Stopped));
}

#[test]
fn test_stop_module_not_running() {
    let mut manager = LifecycleManager::new();
    manager.set_state("test_module", ModuleState::Loaded);
    let result = stop(&mut manager, "test_module");
    assert!(result.is_err());
}

#[test]
fn test_restart_module() {
    let mut manager = LifecycleManager::new();
    manager.set_state("test_module", ModuleState::Running);
    let result = restart(&mut manager, "test_module");
    assert!(result.is_ok());
    assert_eq!(manager.get_state("test_module"), Some(ModuleState::Running));
}

#[test]
fn test_restart_stopped_module() {
    let mut manager = LifecycleManager::new();
    manager.set_state("test_module", ModuleState::Stopped);
    let result = restart(&mut manager, "test_module");
    assert!(result.is_ok());
    assert_eq!(manager.get_state("test_module"), Some(ModuleState::Running));
}

#[test]
fn test_health_check() {
    let mut manager = LifecycleManager::new();
    manager.set_state("test_module", ModuleState::Running);
    let result = health_check(&mut manager, "test_module");
    assert!(result.is_ok());
    assert!(result.unwrap().is_healthy());
}

#[test]
fn test_health_check_not_running() {
    let mut manager = LifecycleManager::new();
    manager.set_state("test_module", ModuleState::Loaded);
    let result = health_check(&mut manager, "test_module");
    assert!(result.is_ok());
    let status = result.unwrap();
    assert!(!status.is_healthy());
    assert_eq!(status.status, "degraded");
    assert_eq!(status.reason, Some("模块未运行，当前状态: Loaded".to_string()));
}

#[test]
fn test_health_check_error_state() {
    let mut manager = LifecycleManager::new();
    manager.set_state("test_module", ModuleState::Error);
    let result = health_check(&mut manager, "test_module");
    assert!(result.is_ok());
    let status = result.unwrap();
    assert!(!status.is_healthy());
    assert_eq!(status.status, "unhealthy");
}

#[test]
fn test_health_check_all() {
    let mut manager = LifecycleManager::new();
    manager.set_state("module1", ModuleState::Running);
    manager.set_state("module2", ModuleState::Running);
    manager.set_state("module3", ModuleState::Error);
    let ids = manager.module_ids();
    let results: Vec<(String, HealthStatus)> =
        ids.into_iter().map(|id| (id.clone(), health_check(&mut manager, &id).unwrap())).collect();
    assert_eq!(results.len(), 3);
    assert!(results[0].1.is_healthy());
    assert!(results[1].1.is_healthy());
    assert!(!results[2].1.is_healthy());
}

#[test]
fn test_get_modules_by_state() {
    let mut manager = LifecycleManager::new();
    manager.set_state("module1", ModuleState::Running);
    manager.set_state("module2", ModuleState::Running);
    manager.set_state("module3", ModuleState::Stopped);
    let running = manager.get_modules_by_state(ModuleState::Running);
    assert_eq!(running.len(), 2);
    assert!(running.contains(&"module1".to_string()));
    assert!(running.contains(&"module2".to_string()));
    let stopped = manager.get_modules_by_state(ModuleState::Stopped);
    assert_eq!(stopped.len(), 1);
    assert!(stopped.contains(&"module3".to_string()));
}

#[test]
fn test_cached_health_status() {
    let mut manager = LifecycleManager::new();
    manager.set_state("test_module", ModuleState::Running);
    assert!(manager.get_cached_health("test_module").is_none());
    health_check(&mut manager, "test_module").unwrap();
    let cached = manager.get_cached_health("test_module");
    assert!(cached.is_some());
    assert!(cached.unwrap().is_healthy());
}

#[test]
fn test_start_running_module_changes_nothing() {
    let mut manager = LifecycleManager::new();
    manager.set_state("m", ModuleState::Running);
    assert_eq!(manager.begin_start("m").unwrap(), Transition::AlreadyThere);
    assert_eq!(manager.get_state("m"), Some(ModuleState::Running));
    manager.set_state("m", ModuleState::Stopped);
    assert_eq!(manager.begin_stop("m").unwrap(), Transition::AlreadyThere);
    assert_eq!(manager.get_all_states(), vec![("m".to_string(), ModuleState::Stopped)]);
}

#[test]
fn test_failed_start_hook_marks_error() {
    let mut manager = LifecycleManager::new();
    manager.set_state("m", ModuleState::Loaded);
    assert_eq!(manager.begin_start("m").unwrap(), Transition::Proceed);
    assert_eq!(manager.get_state("m"), Some(ModuleState::Starting));
    manager.finish_start("m", false);
    assert_eq!(manager.get_state("m"), Some(ModuleState::Error));
}
