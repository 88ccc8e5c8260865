use chips_core::config::ConfigSource;
use chips_core::config_store::store::{
    empty_object, env_key_of, is_empty_object, set_at, split_key, value_at_node, ConfigStore,
};
use chips_core::config_store::tree::{merge_nodes, node_equal, str_lt, ConfigNode};
use chips_core::utils::error::CoreError;

fn json(text: &str) -> serde_json::Value {
    serde_json::from_str(text).unwrap()
}

fn node(v: serde_json::Value) -> ConfigNode {
    match v {
        serde_json::Value::Object(m) => ConfigNode::Object(m.into_iter().map(|(k, v)| (k, node(v))).collect()),
        other => ConfigNode::Leaf(other),
    }
}

fn value(n: &ConfigNode) -> serde_json::Value {
    match n {
        ConfigNode::Leaf(v) => v.clone(),
        ConfigNode::Object(m) => {
            serde_json::Value::Object(m.iter().map(|(k, v)| (k.clone(), value(v))).collect())
        }
    }
}

fn get(store: &ConfigStore, key: &str) -> Option<serde_json::Value> {
    store.get(key).map(value)
}

#[test]
fn test_get_set() {
    let mut store = ConfigStore::new();
    store.set("key1", node(json(r#""value1""#)));
    store.set("nested.key2", node(json("42")));
    store.set("nested.deep.key3", node(json("true")));

    assert_eq!(get(&store, "key1"), Some(json(r#""value1""#)));
    assert_eq!(get(&store, "nested.key2"), Some(json("42")));
    assert_eq!(get(&store, "nested.deep.key3"), Some(json("true")));
    assert_eq!(get(&store, "nonexistent"), None);
}

#[test]
fn test_contains() {
    let mut store = ConfigStore::new();
    store.set("key", node(json(r#""value""#)));
    assert!(store.contains("key"));
    assert!(!store.contains("nonexistent"));
}

#[test]
fn test_keys() {
    let mut store = ConfigStore::new();
    store.set("b", node(json("2")));
    store.set("a", node(json("1")));
    store.set("c.d", node(json("3")));
    assert_eq!(store.keys(), vec!["a".to_string(), "b".to_string(), "c".to_string()]);
}

#[test]
fn test_remove() {
    let mut store = ConfigStore::new();
    store.set("key", node(json(r#""value""#)));
    assert!(store.contains("key"));
    store.remove("key");
    assert!(!store.contains("key"));
}

#[test]
fn remove_nested_and_missing() {
    let mut store = ConfigStore::new();
    store.set("a.b", node(json("1")));
    store.set("a.c", node(json("2")));
    store.remove("a.b");
    store.remove("x.y");
    store.remove("a.c.d");
    assert_eq!(value(store.root()), json(r#"{"a": {"c": 2}}"#));
}

#[test]
fn test_deep_merge() {
    let target = node(json(r#"{"a": {"b": 1, "c": 2}, "d": 3}"#));
    let source = node(json(r#"{"a": {"b": 10, "e": 5}, "f": 6}"#));
    let merged = value(&merge_nodes(target, source));
    assert_eq!(merged["a"]["b"], 10);
    assert_eq!(merged["a"]["c"], 2);
    assert_eq!(merged["a"]["e"], 5);
    assert_eq!(merged["d"], 3);
    assert_eq!(merged["f"], 6);
    assert_eq!(merged, json(r#"{"a": {"b": 10, "c": 2, "e": 5}, "d": 3, "f": 6}"#));
}

#[test]
fn merge_replaces_non_objects() {
    let t = node(json(r#"{"a": 1}"#));
    assert_eq!(value(&merge_nodes(t, node(json("[1, 2]")))), json("[1, 2]"));
    let t = node(json(r#"{"a": 1}"#));
    assert_eq!(value(&merge_nodes(t, node(json(r#"{"a": {"b": 2}}"#)))), json(r#"{"a": {"b": 2}}"#));
}

#[test]
fn test_empty_path() {
    let mut store = ConfigStore::new();
    store.set("key", node(json(r#""value""#)));
    let all = value(&store.snapshot());
    assert!(all.get("key").is_some());
    assert_eq!(value_at_node(store.root(), "").map(value), Some(all));
}

#[test]
fn test_special_characters_in_value() {
    let mut store = ConfigStore::new();
    store.set("key", node(json(r#""value with spaces and 中文""#)));
    assert_eq!(get(&store, "key"), Some(json(r#""value with spaces and 中文""#)));
}

#[test]
fn test_complex_nested_structure() {
    let mut store = ConfigStore::new();
    store.set("a.b.c.d.e", node(json("1")));
    store.set("a.b.c.d.f", node(json("2")));
    store.set("a.b.g", node(json("3")));
    assert_eq!(get(&store, "a.b.c.d.e"), Some(json("1")));
    assert_eq!(get(&store, "a.b.c.d.f"), Some(json("2")));
    assert_eq!(get(&store, "a.b.g"), Some(json("3")));
}

#[test]
fn test_array_config() {
    let mut store = ConfigStore::new();
    store.set("list", node(json(r#"["a", "b", "c"]"#)));
    assert_eq!(get(&store, "list"), Some(json(r#"["a", "b", "c"]"#)));
}

#[test]
fn set_through_a_leaf_changes_nothing() {
    let mut store = ConfigStore::new();
    store.set("a", node(json("1")));
    store.set("a.b", node(json("2")));
    assert_eq!(value(store.root()), json(r#"{"a": 1}"#));
}

#[test]
fn watchers_hear_changes_on_their_keys() {
    let mut store = ConfigStore::new();
    let w = store.add_watcher("test");
    let router = store.add_watcher("router");
    let all = store.add_watcher("");
    assert_eq!(w.len(), 10);

    let old = store.snapshot();
    store.set("test.value", node(json("1")));
    assert_eq!(store.watchers_to_notify("test.value", &old), vec![w.clone(), all.clone()]);

    let old = store.snapshot();
    store.set("test.value", node(json("1")));
    assert!(store.watchers_to_notify("test.value", &old).is_empty());

    let old = store.snapshot();
    store.set("router.worker_count", node(json("8")));
    assert_eq!(store.watchers_to_notify("router.worker_count", &old), vec![router.clone(), all.clone()]);

    assert!(store.remove_watcher(&w));
    assert!(!store.remove_watcher(&w));
    let old = store.snapshot();
    store.set("test.value", node(json("3")));
    assert_eq!(store.watchers_to_notify("test.value", &old), vec![all.clone()]);

    store.remove_watchers_of("");
    let old = store.snapshot();
    store.set("test.value", node(json("4")));
    assert!(store.watchers_to_notify("test.value", &old).is_empty());
}

#[test]
fn missing_value_counts_as_null() {
    let mut store = ConfigStore::new();
    let w = store.add_watcher("x");
    let old = store.snapshot();
    store.set("x", node(json("null")));
    assert!(store.watchers_to_notify("x", &old).is_empty());
    let old = store.snapshot();
    store.set("x", node(json("0")));
    assert_eq!(store.watchers_to_notify("x", &old), vec![w]);
}

#[test]
fn sources_and_save_destination() {
    let mut store = ConfigStore::with_env_prefix("APP");
    assert_eq!(store.env_prefix(), "APP");
    match store.save_destination(None) {
        Err(CoreError::ConfigLoadFailed(m)) => assert_eq!(m, "没有指定保存路径"),
        other => panic!("unexpected {:?}", other),
    }
    store.record_source("/etc/chips.yaml", ConfigSource::System);
    store.record_source("/home/u/chips.yaml", ConfigSource::User);
    assert_eq!(store.save_destination(None).unwrap(), "/home/u/chips.yaml");
    assert_eq!(store.save_destination(Some("/tmp/x.json")).unwrap(), "/tmp/x.json");
    let sources = store.loaded_sources();
    assert_eq!(sources.len(), 2);
    assert_eq!(sources[0], ("/etc/chips.yaml".to_string(), ConfigSource::System));
    assert!(!store.is_hot_reload_enabled());
    store.set_hot_reload(true);
    assert!(store.is_hot_reload_enabled());
}

#[test]
fn clearing_empties_the_tree() {
    let mut store = ConfigStore::new();
    store.set("a", node(json("1")));
    store.clear();
    assert!(is_empty_object(store.root()));
    assert!(!is_empty_object(&node(json("1"))));
}

#[test]
fn environment_keys() {
    assert_eq!(env_key_of("CHIPS", "CHIPS_ROUTER_WORKER_COUNT"), Some("router.worker.count".to_string()));
    assert_eq!(env_key_of("CHIPS", "CHIPS_LOG"), Some("log".to_string()));
    assert_eq!(env_key_of("CHIPS", "OTHER_X"), None);
    assert_eq!(env_key_of("CHIPS", "CHIPS"), None);
    let env = set_at(empty_object(), "router.worker", node(json("8")));
    assert_eq!(value(&env), json(r#"{"router": {"worker": 8}}"#));
}

#[test]
fn tree_equality_and_order() {
    assert!(node_equal(&node(json(r#"{"a": [1], "b": {"c": null}}"#)), &node(json(r#"{"b": {"c": null}, "a": [1]}"#))));
    assert!(!node_equal(&node(json(r#"{"a": 1}"#)), &node(json(r#"{"a": 2}"#))));
    assert!(!node_equal(&node(json(r#"{"a": 1}"#)), &node(json("1"))));
    assert!(str_lt("a", "b"));
    assert!(str_lt("a", "ab"));
    assert!(!str_lt("b", "ab"));
    assert!(!str_lt("a", "a"));
    assert_eq!(split_key("a.b.c"), vec!["a".to_string(), "b".to_string(), "c".to_string()]);
    assert_eq!(split_key(""), vec![String::new()]);
}

fn set_and_notify(store: &mut ConfigStore, key: &str, v: serde_json::Value) -> usize {
    let old = store.snapshot();
    store.set(key, node(v));
    store.watchers_to_notify(key, &old).len()
}

#[test]
fn test_get_or() {
    let mut store = ConfigStore::new();
    store.set("existing", node(json("10")));
    assert_eq!(get(&store, "existing").and_then(|v| v.as_i64()).unwrap_or(0), 10);
    assert_eq!(get(&store, "nonexistent").and_then(|v| v.as_i64()).unwrap_or(99), 99);
}

#[test]
fn test_get_required() {
    let mut store = ConfigStore::new();
    store.set("existing", node(json("\"value\"")));
    assert!(get(&store, "existing").is_some());
    assert!(get(&store, "nonexistent").is_none());
}

#[test]
fn test_on_change() {
    let mut store = ConfigStore::new();
    let watcher_id = store.add_watcher("test");
    let mut counter = 0;
    counter += set_and_notify(&mut store, "test.value", json("1"));
    assert_eq!(counter, 1);
    counter += set_and_notify(&mut store, "test.value", json("2"));
    assert_eq!(counter, 2);
    assert!(store.remove_watcher(&watcher_id));
    counter += set_and_notify(&mut store, "test.value", json("3"));
    assert_eq!(counter, 2);
}

#[test]
fn test_path_specific_change() {
    let mut store = ConfigStore::new();
    store.add_watcher("router");
    let mut counter = 0;
    counter += set_and_notify(&mut store, "router.worker_count", json("8"));
    assert_eq!(counter, 1);
    counter += set_and_notify(&mut store, "logging.level", json("\"debug\""));
    assert_eq!(counter, 1);
}

#[test]
fn test_global_change_listener() {
    let mut store = ConfigStore::new();
    store.add_watcher("");
    let mut counter = 0;
    counter += set_and_notify(&mut store, "a", json("1"));
    counter += set_and_notify(&mut store, "b.c", json("2"));
    counter += set_and_notify(&mut store, "d.e.f", json("3"));
    assert_eq!(counter, 3);
}

#[test]
fn test_off_change_all() {
    let mut store = ConfigStore::new();
    for _ in 0..3 {
        store.add_watcher("test");
    }
    let mut counter = set_and_notify(&mut store, "test.value", json("1"));
    assert_eq!(counter, 3);
    store.remove_watchers_of("test");
    counter += set_and_notify(&mut store, "test.value", json("2"));
    assert_eq!(counter, 3);
}

#[test]
fn test_hot_reload_enable_disable() {
    let mut store = ConfigStore::new();
    assert!(!store.is_hot_reload_enabled());
    store.set_hot_reload(true);
    assert!(store.is_hot_reload_enabled());
    store.set_hot_reload(false);
    assert!(!store.is_hot_reload_enabled());
}
