use chips_core::module::dependency::{DependencyGraph, DependencyResolver};
use chips_core::module::metadata::{Dependency, EntryPoint, ModuleInfo, ModuleMetadata};
use chips_core::utils::error::CoreError;

fn create_test_module(id: &str, version: &str, deps: Vec<(&str, &str)>) -> ModuleInfo {
    let mut metadata = ModuleMetadata::new(id, id, version);
    metadata.entry = EntryPoint::rust("lib.rs");
    metadata.dependencies = deps
        .into_iter()
        .map(|(dep_id, dep_ver)| Dependency::new(dep_id, dep_ver))
        .collect();
    ModuleInfo::new(metadata, format!("/modules/{}", id))
}

#[test]
fn test_dependency_graph_new() {
    let graph = DependencyGraph::new();
    assert!(graph.is_empty());
    assert_eq!(graph.module_count(), 0);
}

#[test]
fn test_add_module() {
    let mut graph = DependencyGraph::new();
    graph.add_module("module_a");
    assert!(graph.contains_module("module_a"));
    assert_eq!(graph.module_count(), 1);
}

#[test]
fn test_add_module_duplicate() {
    let mut graph = DependencyGraph::new();
    graph.add_module("module_a");
    graph.add_module("module_a");
    assert_eq!(graph.module_count(), 1);
}

#[test]
fn test_add_dependency() {
    let mut graph = DependencyGraph::new();
    graph.add_dependency("module_a", "module_b");
    assert!(graph.contains_module("module_a"));
    assert!(graph.contains_module("module_b"));
    assert_eq!(graph.get_dependencies("module_a"), vec!["module_b"]);
    assert_eq!(graph.get_dependents("module_b"), vec!["module_a"]);
}

#[test]
fn test_add_dependency_duplicate() {
    let mut graph = DependencyGraph::new();
    graph.add_dependency("a", "b");
    graph.add_dependency("a", "b");
    assert_eq!(graph.get_dependencies("a").len(), 1);
}

#[test]
fn test_remove_dependency() {
    let mut graph = DependencyGraph::new();
    graph.add_dependency("a", "b");
    graph.add_dependency("a", "c");
    graph.remove_dependency("a", "b");
    assert_eq!(graph.get_dependencies("a"), vec!["c"]);
    assert!(graph.get_dependents("b").is_empty());
}

#[test]
fn test_remove_module() {
    let mut graph = DependencyGraph::new();
    graph.add_dependency("a", "b");
    graph.add_dependency("c", "b");
    graph.add_dependency("b", "d");
    graph.remove_module("b");
    assert!(!graph.contains_module("b"));
    assert!(graph.get_dependencies("a").is_empty());
    assert!(graph.get_dependencies("c").is_empty());
}

#[test]
fn test_get_all_dependencies() {
    let mut graph = DependencyGraph::new();
    graph.add_dependency("a", "b");
    graph.add_dependency("b", "c");
    graph.add_dependency("c", "d");
    let all_deps = graph.get_all_dependencies("a");
    assert!(all_deps.contains(&"b".to_string()));
    assert!(all_deps.contains(&"c".to_string()));
    assert!(all_deps.contains(&"d".to_string()));
}

#[test]
fn test_has_cycle_no_cycle() {
    let mut graph = DependencyGraph::new();
    graph.add_dependency("a", "b");
    graph.add_dependency("b", "c");
    graph.add_dependency("a", "c");
    assert!(!graph.has_cycle());
}

#[test]
fn test_has_cycle_with_cycle() {
    let mut graph = DependencyGraph::new();
    graph.add_dependency("a", "b");
    graph.add_dependency("b", "c");
    graph.add_dependency("c", "a");
    assert!(graph.has_cycle());
}

#[test]
fn test_has_cycle_self_loop() {
    let mut graph = DependencyGraph::new();
    graph.add_dependency("a", "a");
    assert!(graph.has_cycle());
}

#[test]
fn test_find_cycle() {
    let mut graph = DependencyGraph::new();
    graph.add_dependency("a", "b");
    graph.add_dependency("b", "c");
    graph.add_dependency("c", "a");
    let cycle = graph.find_cycle();
    assert!(cycle.is_some());
    let cycle = cycle.unwrap();
    assert!(cycle.len() >= 3);
}

#[test]
fn test_find_cycle_no_cycle() {
    let mut graph = DependencyGraph::new();
    graph.add_dependency("a", "b");
    graph.add_dependency("b", "c");
    assert!(graph.find_cycle().is_none());
}

#[test]
fn test_topological_sort_simple() {
    let mut graph = DependencyGraph::new();
    graph.add_dependency("app", "service");
    graph.add_dependency("service", "database");
    let order = graph.topological_sort().unwrap();
    let db_pos = order.iter().position(|x| x == "database").unwrap();
    let svc_pos = order.iter().position(|x| x == "service").unwrap();
    let app_pos = order.iter().position(|x| x == "app").unwrap();
    assert!(db_pos < svc_pos);
    assert!(svc_pos < app_pos);
}

#[test]
fn test_topological_sort_complex() {
    let mut graph = DependencyGraph::new();
    graph.add_dependency("app", "a");
    graph.add_dependency("app", "b");
    graph.add_dependency("a", "c");
    graph.add_dependency("b", "c");
    graph.add_dependency("c", "d");
    let order = graph.topological_sort().unwrap();
    let d_pos = order.iter().position(|x| x == "d").unwrap();
    let c_pos = order.iter().position(|x| x == "c").unwrap();
    let a_pos = order.iter().position(|x| x == "a").unwrap();
    let b_pos = order.iter().position(|x| x == "b").unwrap();
    let app_pos = order.iter().position(|x| x == "app").unwrap();
    assert!(d_pos < c_pos);
    assert!(c_pos < a_pos);
    assert!(c_pos < b_pos);
    assert!(a_pos < app_pos);
    assert!(b_pos < app_pos);
}

#[test]
fn test_topological_sort_with_cycle() {
    let mut graph = DependencyGraph::new();
    graph.add_dependency("a", "b");
    graph.add_dependency("b", "c");
    graph.add_dependency("c", "a");
    let result = graph.topological_sort();
    assert!(result.is_err());
    assert!(matches!(result.unwrap_err(), CoreError::CircularDependency(_)));
}

#[test]
fn test_get_load_order() {
    let mut graph = DependencyGraph::new();
    graph.add_dependency("a", "b");
    graph.add_dependency("b", "c");
    let order = graph.get_load_order().unwrap();
    assert_eq!(order, vec!["c", "b", "a"]);
}

#[test]
fn test_get_unload_order() {
    let mut graph = DependencyGraph::new();
    graph.add_dependency("a", "b");
    graph.add_dependency("b", "c");
    let order = graph.get_unload_order().unwrap();
    assert_eq!(order, vec!["a", "b", "c"]);
}

#[test]
fn dependency_test_clear() {
    let mut graph = DependencyGraph::new();
    graph.add_dependency("a", "b");
    graph.add_dependency("c", "d");
    graph.clear();
    assert!(graph.is_empty());
    assert_eq!(graph.module_count(), 0);
}

#[test]
fn test_get_all_modules() {
    let mut graph = DependencyGraph::new();
    graph.add_module("a");
    graph.add_module("b");
    graph.add_module("c");
    let modules = graph.get_all_modules();
    assert_eq!(modules.len(), 3);
    assert!(modules.contains(&"a".to_string()));
    assert!(modules.contains(&"b".to_string()));
    assert!(modules.contains(&"c".to_string()));
}

#[test]
fn test_resolver_resolve_simple() {
    let modules = vec![
        create_test_module("a", "1.0.0", vec![("b", "^1.0")]),
        create_test_module("b", "1.0.0", vec![]),
    ];
    let resolver = DependencyResolver::new(modules);
    let result = resolver.resolve("a").unwrap();
    assert_eq!(result, vec!["b", "a"]);
}

#[test]
fn test_resolver_resolve_chain() {
    let modules = vec![
        create_test_module("a", "1.0.0", vec![("b", "^1.0")]),
        create_test_module("b", "1.0.0", vec![("c", "^1.0")]),
        create_test_module("c", "1.0.0", vec![]),
    ];
    let resolver = DependencyResolver::new(modules);
    let result = resolver.resolve("a").unwrap();
    assert_eq!(result, vec!["c", "b", "a"]);
}

#[test]
fn test_resolver_resolve_diamond() {
    let modules = vec![
        create_test_module("a", "1.0.0", vec![("b", "^1.0"), ("c", "^1.0")]),
        create_test_module("b", "1.0.0", vec![("d", "^1.0")]),
        create_test_module("c", "1.0.0", vec![("d", "^1.0")]),
        create_test_module("d", "1.0.0", vec![]),
    ];
    let resolver = DependencyResolver::new(modules);
    let result = resolver.resolve("a").unwrap();
    let d_pos = result.iter().position(|x| x == "d").unwrap();
    let b_pos = result.iter().position(|x| x == "b").unwrap();
    let c_pos = result.iter().position(|x| x == "c").unwrap();
    let a_pos = result.iter().position(|x| x == "a").unwrap();
    assert!(d_pos < b_pos);
    assert!(d_pos < c_pos);
    assert!(b_pos < a_pos);
    assert!(c_pos < a_pos);
}

#[test]
fn test_resolver_module_not_found() {
    let resolver = DependencyResolver::new(Vec::new());
    let result = resolver.resolve("nonexistent");
    assert!(matches!(result, Err(CoreError::ModuleNotFound(_))));
}

#[test]
fn test_resolver_dependency_not_found() {
    let modules = vec![create_test_module("a", "1.0.0", vec![("nonexistent", "^1.0")])];
    let resolver = DependencyResolver::new(modules);
    let result = resolver.resolve("a");
    assert!(matches!(result, Err(CoreError::DependencyNotFound(_))));
}

#[test]
fn test_resolver_circular_dependency() {
    let modules = vec![
        create_test_module("a", "1.0.0", vec![("b", "^1.0")]),
        create_test_module("b", "1.0.0", vec![("c", "^1.0")]),
        create_test_module("c", "1.0.0", vec![("a", "^1.0")]),
    ];
    let resolver = DependencyResolver::new(modules);
    let result = resolver.resolve("a");
    assert!(matches!(result, Err(CoreError::CircularDependency(_))));
}

#[test]
fn test_resolver_version_mismatch() {
    let modules = vec![
        create_test_module("a", "1.0.0", vec![("b", "^2.0")]),
        create_test_module("b", "1.0.0", vec![]),
    ];
    let resolver = DependencyResolver::new(modules);
    let result = resolver.resolve("a");
    assert!(matches!(result, Err(CoreError::VersionMismatch { .. })));
}

#[test]
fn test_resolver_version_compatible() {
    let modules = vec![
        create_test_module("a", "1.0.0", vec![("b", "^1.0")]),
        create_test_module("b", "1.5.0", vec![]),
    ];
    let resolver = DependencyResolver::new(modules);
    let result = resolver.resolve("a");
    assert!(result.is_ok());
}

#[test]
fn test_resolver_check_conflicts_no_conflict() {
    let modules = vec![
        create_test_module("a", "1.0.0", vec![("c", "^1.0")]),
        create_test_module("b", "1.0.0", vec![("c", "^1.0")]),
        create_test_module("c", "1.5.0", vec![]),
    ];
    let resolver = DependencyResolver::new(modules);
    let result = resolver.check_conflicts(&["a".to_string(), "b".to_string()]);
    assert!(result.is_ok());
}

#[test]
fn test_resolver_check_conflicts_with_conflict() {
    let modules = vec![
        create_test_module("a", "1.0.0", vec![("c", "^1.0")]),
        create_test_module("b", "1.0.0", vec![("c", "^2.0")]),
        create_test_module("c", "1.5.0", vec![]),
    ];
    let resolver = DependencyResolver::new(modules);
    let result = resolver.check_conflicts(&["a".to_string(), "b".to_string()]);
    assert!(matches!(result, Err(CoreError::DependencyConflict { .. })));
}

#[test]
fn test_resolver_build_dependency_graph() {
    let modules = vec![
        create_test_module("a", "1.0.0", vec![("b", "^1.0")]),
        create_test_module("b", "1.0.0", vec![("c", "^1.0")]),
        create_test_module("c", "1.0.0", vec![]),
    ];
    let resolver = DependencyResolver::new(modules);
    let graph = resolver
        .build_dependency_graph(&["a".to_string(), "b".to_string(), "c".to_string()])
        .unwrap();
    assert_eq!(graph.module_count(), 3);
    assert_eq!(graph.get_dependencies("a"), vec!["b"]);
    assert_eq!(graph.get_dependencies("b"), vec!["c"]);
    assert!(graph.get_dependencies("c").is_empty());
}

#[test]
fn test_resolver_optional_dependency_missing() {
    let mut metadata = ModuleMetadata::new("a", "a", "1.0.0");
    metadata.entry = EntryPoint::rust("lib.rs");
    metadata.dependencies = vec![Dependency::new("optional_dep", "^1.0").optional()];
    let modules = vec![ModuleInfo::new(metadata, "/modules/a".to_string())];
    let resolver = DependencyResolver::new(modules);
    let result = resolver.resolve("a");
    assert!(result.is_ok());
}

// Further cases of the resolver and the graph.

#[test]
fn resolver_reports_messages() {
    let modules = vec![
        create_test_module("a", "1.0.0", vec![("b", "^1.0")]),
        create_test_module("b", "1.0.0", vec![("c", "^1.0")]),
        create_test_module("c", "1.0.0", vec![("a", "^1.0")]),
    ];
    let resolver = DependencyResolver::new(modules);
    assert_eq!(
        resolver.resolve("a"),
        Err(CoreError::CircularDependency("模块 'a' 存在循环依赖".to_string()))
    );
    let resolver = DependencyResolver::new(vec![create_test_module("x", "1.0.0", vec![("y", "^1")])]);
    assert_eq!(
        resolver.resolve("x"),
        Err(CoreError::DependencyNotFound("模块 'x' 的依赖 'y' 未找到".to_string()))
    );
}

#[test]
fn resolver_version_errors() {
    let modules = vec![
        create_test_module("a", "1.0.0", vec![("b", "^2.0")]),
        create_test_module("b", "1.0.0", vec![]),
    ];
    let resolver = DependencyResolver::new(modules);
    assert_eq!(
        resolver.resolve("a"),
        Err(CoreError::VersionMismatch {
            module: "b".to_string(),
            required: "^2.0".to_string(),
            found: "1.0.0".to_string()
        })
    );
    let modules = vec![
        create_test_module("a", "1.0.0", vec![("b", "not a requirement!")]),
        create_test_module("b", "1.0.0", vec![]),
    ];
    let resolver = DependencyResolver::new(modules);
    match resolver.resolve("a") {
        Err(CoreError::InvalidMetadata(m)) => assert!(m.starts_with("依赖 'b' 的版本要求 'not a requirement!' 格式无效: ")),
        other => panic!("unexpected {:?}", other),
    }
    let modules = vec![
        create_test_module("a", "1.0.0", vec![("b", "^1")]),
        create_test_module("b", "one", vec![]),
    ];
    let resolver = DependencyResolver::new(modules);
    match resolver.resolve("a") {
        Err(CoreError::InvalidMetadata(m)) => assert!(m.starts_with("模块 'b' 的版本 'one' 格式无效: ")),
        other => panic!("unexpected {:?}", other),
    }
}

#[test]
fn resolver_conflict_lists_unsatisfied() {
    let modules = vec![
        create_test_module("a", "1.0.0", vec![("c", "^1.0")]),
        create_test_module("b", "1.0.0", vec![("c", "^2.0")]),
        create_test_module("c", "1.5.0", vec![]),
    ];
    let resolver = DependencyResolver::new(modules);
    assert_eq!(
        resolver.check_conflicts(&["a".to_string(), "b".to_string()]),
        Err(CoreError::DependencyConflict { module: "c".to_string(), requirements: vec!["b 要求 ^2.0".to_string()] })
    );
    assert_eq!(
        resolver.check_conflicts(&["a".to_string(), "z".to_string()]),
        Err(CoreError::ModuleNotFound("z".to_string()))
    );
}

#[test]
fn resolver_graph_missing_required() {
    let resolver = DependencyResolver::new(vec![create_test_module("a", "1.0.0", vec![("b", "^1")])]);
    match resolver.build_dependency_graph(&["a".to_string()]) {
        Err(e) => assert_eq!(e, CoreError::DependencyNotFound("模块 'a' 的必需依赖 'b' 未找到".to_string())),
        Ok(_) => panic!("expected an error"),
    }
}

#[test]
fn graph_remove_dependency_undoes_add() {
    let mut graph = DependencyGraph::new();
    graph.add_module("a");
    graph.add_module("b");
    graph.add_dependency("a", "b");
    graph.remove_dependency("a", "b");
    assert!(graph.get_dependencies("a").is_empty());
    assert!(graph.get_dependents("b").is_empty());
    assert_eq!(graph.module_count(), 2);
}

#[test]
fn graph_cycle_message() {
    let mut graph = DependencyGraph::new();
    graph.add_dependency("a", "a");
    match graph.topological_sort() {
        Err(CoreError::CircularDependency(m)) => assert!(m.contains("a")),
        other => panic!("unexpected {:?}", other),
    }
}

#[test]
fn module_count_is_number_of_distinct_ids_passed() {
    let mut graph = DependencyGraph::new();
    graph.add_module("a");
    graph.add_dependency("b", "a");
    graph.add_dependency("c", "d");
    graph.add_module("c");
    graph.add_dependency("b", "d");
    graph.add_dependency("a", "a");
    assert_eq!(graph.module_count(), 4);
    assert_eq!(graph.get_all_modules(), vec!["a", "b", "c", "d"]);
}
