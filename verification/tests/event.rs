use chips_core::router::event::{event_type_matches, Event, EventFilter, Subscription};

fn json(text: &str) -> serde_json::Value {
    serde_json::from_str(text).unwrap()
}

#[test]
fn test_event_creation() {
    let event = Event::new("test.event", "test_module", json(r#"{"key": "value"}"#));

    assert!(!event.event_id.is_empty());
    assert_eq!(event.event_type, "test.event");
    assert_eq!(event.sender, "test_module");
    assert!(event.propagate);
}

#[test]
fn test_event_builder() {
    let event = Event::builder("test.event", "test_module")
        .data(json(r#"{"key": "value"}"#))
        .propagate(false)
        .metadata("trace_id", serde_json::Value::String("trace-123".to_string()))
        .build();

    assert!(!event.propagate);
    assert!(event.metadata.iter().any(|(k, _)| k == "trace_id"));
}

#[test]
fn test_event_filter_type() {
    let filter = EventFilter::by_type("module.*");

    let event1 = Event::new("module.loaded", "core", json("{}"));
    let event2 = Event::new("config.changed", "core", json("{}"));

    assert!(filter.matches(&event1));
    assert!(!filter.matches(&event2));
}

#[test]
fn test_event_filter_sender() {
    let filter = EventFilter::by_sender("filesystem");

    let event1 = Event::new("file.changed", "filesystem", json("{}"));
    let event2 = Event::new("file.changed", "editor", json("{}"));

    assert!(filter.matches(&event1));
    assert!(!filter.matches(&event2));
}

#[test]
fn test_event_filter_wildcard() {
    let filter = EventFilter::by_type("*");

    let event = Event::new("any.event", "any_module", json("{}"));
    assert!(filter.matches(&event));
}

#[test]
fn test_subscription_matches() {
    let sub = Subscription::new("handler", "module.*");

    let event1 = Event::new("module.loaded", "core", json("{}"));
    let event2 = Event::new("config.changed", "core", json("{}"));

    assert!(sub.matches(&event1));
    assert!(!sub.matches(&event2));
}

#[test]
fn test_subscription_disabled() {
    let mut sub = Subscription::new("handler", "module.*");
    sub.enabled = false;

    let event = Event::new("module.loaded", "core", json("{}"));
    assert!(!sub.matches(&event));
}

#[test]
fn type_patterns() {
    assert!(event_type_matches("*", "x"));
    assert!(event_type_matches("a.*", "a.b"));
    assert!(event_type_matches("a.*", "ab"));
    assert!(!event_type_matches("a.*", "b.a"));
    assert!(event_type_matches("a.b", "a.b"));
    assert!(!event_type_matches("a.b", "a.c"));
    assert!(EventFilter::matches_pattern("x.*", "x.y.z"));
}

#[test]
fn filter_with_data_fields() {
    let mut filter = EventFilter::new().with_type("file.*").with_sender("fs");
    filter.data_filters.push(("path".to_string(), json(r#""/a""#)));
    let good = Event::new("file.changed", "fs", json(r#"{"path": "/a", "n": 1}"#));
    let other_path = Event::new("file.changed", "fs", json(r#"{"path": "/b"}"#));
    let no_path = Event::new("file.changed", "fs", json(r#"{"n": 1}"#));
    let other_sender = Event::new("file.changed", "ed", json(r#"{"path": "/a"}"#));
    assert!(filter.matches(&good));
    assert!(!filter.matches(&other_path));
    assert!(!filter.matches(&no_path));
    assert!(!filter.matches(&other_sender));
}

#[test]
fn subscription_with_filter() {
    let sub = Subscription::new("h", "*").with_filter(EventFilter::by_sender("core"));
    assert!(sub.matches(&Event::new("a.b", "core", json("{}"))));
    assert!(!sub.matches(&Event::new("a.b", "other", json("{}"))));
    assert!(sub.enabled);
    assert_eq!(sub.subscription_id.len(), 36);
}

#[test]
fn event_metadata_replaces_key() {
    let e = Event::new("t", "s", json("null"))
        .with_propagate(false)
        .with_metadata("k", json("1"))
        .with_metadata("k", json("2"));
    assert!(!e.propagate);
    assert_eq!(e.metadata.len(), 1);
    assert_eq!(e.metadata[0].1, json("2"));
}
