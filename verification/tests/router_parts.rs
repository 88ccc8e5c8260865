use std::cell::Cell;
use std::rc::Rc;

use chips_core::router::concurrency::{timeout_error, timeout_response, TimeoutManager};
use chips_core::router::event::{Event, EventFilter};
use chips_core::router::event_bus::{DispatchResult, EventBus, EventBusConfig, SubscriptionEntry};
use chips_core::router::queue::RequestQueue;
use chips_core::router::request::{Priority, RouteRequest};
use chips_core::router::route_table::{RouteEntry, RouteTable};
use chips_core::utils::error::CoreError;

// ---------------------------------------------------------------- queue

fn create_test_request(priority: Priority) -> RouteRequest {
    RouteRequest::new("test_sender", "test.action", serde_json::Value::Object(serde_json::Map::new())).with_priority(priority)
}

fn enqueue(queue: &mut RequestQueue<RouteRequest>, request: RouteRequest) -> Result<(), CoreError> {
    queue.enqueue(request.priority, request)
}

#[test]
fn test_queue_new() {
    let queue: RequestQueue<RouteRequest> = RequestQueue::new(100);
    assert_eq!(queue.max_size(), 100);
    assert_eq!(queue.size(), 0);
    assert!(queue.is_empty());
    assert!(!queue.is_full());
}

#[test]
fn test_enqueue_dequeue() {
    let mut queue = RequestQueue::new(10);
    let request = create_test_request(Priority::Normal);
    let request_id = request.request_id.clone();
    enqueue(&mut queue, request).unwrap();
    assert_eq!(queue.size(), 1);
    let dequeued = queue.try_dequeue().unwrap();
    assert_eq!(dequeued.request_id, request_id);
    assert_eq!(queue.size(), 0);
}

#[test]
fn queue_test_priority_ordering() {
    let mut queue = RequestQueue::new(10);
    enqueue(&mut queue, create_test_request(Priority::Normal)).unwrap();
    enqueue(&mut queue, create_test_request(Priority::High)).unwrap();
    enqueue(&mut queue, create_test_request(Priority::Low)).unwrap();
    enqueue(&mut queue, create_test_request(Priority::Urgent)).unwrap();
    assert_eq!(queue.size(), 4);
    assert_eq!(queue.try_dequeue().unwrap().priority, Priority::Urgent);
    assert_eq!(queue.try_dequeue().unwrap().priority, Priority::High);
    assert_eq!(queue.try_dequeue().unwrap().priority, Priority::Normal);
    assert_eq!(queue.try_dequeue().unwrap().priority, Priority::Low);
    assert!(queue.is_empty());
}

#[test]
fn test_fifo_same_priority() {
    let mut queue = RequestQueue::new(10);
    let r1 = create_test_request(Priority::Normal);
    let r2 = create_test_request(Priority::Normal);
    let r3 = create_test_request(Priority::Normal);
    let (id1, id2, id3) = (r1.request_id.clone(), r2.request_id.clone(), r3.request_id.clone());
    enqueue(&mut queue, r1).unwrap();
    enqueue(&mut queue, r2).unwrap();
    enqueue(&mut queue, r3).unwrap();
    assert_eq!(queue.try_dequeue().unwrap().request_id, id1);
    assert_eq!(queue.try_dequeue().unwrap().request_id, id2);
    assert_eq!(queue.try_dequeue().unwrap().request_id, id3);
}

#[test]
fn test_queue_full() {
    let mut queue = RequestQueue::new(2);
    enqueue(&mut queue, create_test_request(Priority::Normal)).unwrap();
    enqueue(&mut queue, create_test_request(Priority::Normal)).unwrap();
    assert!(queue.is_full());
    let result = enqueue(&mut queue, create_test_request(Priority::Normal));
    assert!(result.is_err());
    match result {
        Err(CoreError::QueueFull { max_size, .. }) => assert_eq!(max_size, 2),
        _ => panic!("Expected QueueFull error"),
    }
}

#[test]
fn test_try_dequeue_empty() {
    let mut queue: RequestQueue<RouteRequest> = RequestQueue::new(10);
    assert!(queue.try_dequeue().is_none());
}

#[test]
fn queue_test_clear() {
    let mut queue = RequestQueue::new(10);
    enqueue(&mut queue, create_test_request(Priority::Normal)).unwrap();
    enqueue(&mut queue, create_test_request(Priority::High)).unwrap();
    assert_eq!(queue.size(), 2);
    queue.clear();
    assert_eq!(queue.size(), 0);
    assert!(queue.is_empty());
}

#[test]
fn test_queue_stats() {
    let mut queue = RequestQueue::new(5);
    enqueue(&mut queue, create_test_request(Priority::Normal)).unwrap();
    enqueue(&mut queue, create_test_request(Priority::High)).unwrap();
    let stats = queue.stats();
    assert_eq!(stats.current_size, 2);
    assert_eq!(stats.max_size, 5);
    assert!(!stats.is_full);
    assert!(!stats.is_empty);
}

#[test]
fn test_queue_mixed_priorities_keep_arrival_order() {
    let mut queue = RequestQueue::new(10);
    for (n, p) in [(1, Priority::Low), (2, Priority::High), (3, Priority::Low), (4, Priority::High)] {
        queue.enqueue(p, n).unwrap();
    }
    let order: Vec<i32> = std::iter::from_fn(|| queue.try_dequeue()).collect();
    assert_eq!(order, vec![2, 4, 1, 3]);
}

// ---------------------------------------------------------- route table

fn found(table: &RouteTable, request: &RouteRequest) -> Option<RouteEntry> {
    table.find_route(&request.action)
}

#[test]
fn test_exact_route_match() {
    let mut table = RouteTable::new();
    table.register_action_route("file.open", RouteEntry::exact("filesystem", "file.open")).unwrap();
    let request = RouteRequest::new("editor", "file.open", serde_json::Value::Object(serde_json::Map::new()));
    let result = found(&table, &request);
    assert!(result.is_some());
    assert_eq!(result.unwrap().module_id, "filesystem");
}

#[test]
fn test_regex_route_match() {
    let mut table = RouteTable::new();
    table.register_custom_route(RouteEntry::regex("filesystem", r"^file\..*")).unwrap();
    let request = RouteRequest::new("editor", "file.save", serde_json::Value::Object(serde_json::Map::new()));
    let result = found(&table, &request);
    assert!(result.is_some());
    assert_eq!(result.unwrap().module_id, "filesystem");
}

#[test]
fn test_prefix_route_match() {
    let mut table = RouteTable::new();
    table.register_prefix_route(RouteEntry::prefix("network", "http.")).unwrap();
    let request = RouteRequest::new("app", "http.get", serde_json::Value::Object(serde_json::Map::new()));
    let result = found(&table, &request);
    assert!(result.is_some());
    assert_eq!(result.unwrap().module_id, "network");
}

#[test]
fn test_default_route() {
    let mut table = RouteTable::new();
    table.set_default_route(RouteEntry::exact("default_handler", "*"));
    let request = RouteRequest::new("app", "unknown.action", serde_json::Value::Object(serde_json::Map::new()));
    let result = found(&table, &request);
    assert!(result.is_some());
    assert_eq!(result.unwrap().module_id, "default_handler");
}

#[test]
fn test_no_route_found() {
    let table = RouteTable::new();
    let request = RouteRequest::new("app", "unknown.action", serde_json::Value::Object(serde_json::Map::new()));
    assert!(found(&table, &request).is_none());
}

#[test]
fn route_table_test_priority_ordering() {
    let mut table = RouteTable::new();
    let low_priority = RouteEntry::exact("low_handler", "test.action").with_priority(1);
    let high_priority = RouteEntry::exact("high_handler", "test.action").with_priority(10);
    table.register_action_route("test.action", low_priority).unwrap();
    table.register_action_route("test.action", high_priority).unwrap();
    let request = RouteRequest::new("app", "test.action", serde_json::Value::Object(serde_json::Map::new()));
    let result = found(&table, &request);
    assert!(result.is_some());
    assert_eq!(result.unwrap().module_id, "high_handler");
}

#[test]
fn test_remove_module_routes() {
    let mut table = RouteTable::new();
    table.register_action_route("test.a", RouteEntry::exact("mod_a", "test.a")).unwrap();
    table.register_action_route("test.b", RouteEntry::exact("mod_a", "test.b")).unwrap();
    table.register_action_route("test.c", RouteEntry::exact("mod_b", "test.c")).unwrap();
    table.remove_module_routes("mod_a");
    let stats = table.stats();
    assert_eq!(stats.action_route_count, 1);
}

#[test]
fn test_disabled_route() {
    let mut table = RouteTable::new();
    let mut entry = RouteEntry::exact("handler", "test.action");
    entry.enabled = false;
    table.register_action_route("test.action", entry).unwrap();
    let request = RouteRequest::new("app", "test.action", serde_json::Value::Object(serde_json::Map::new()));
    assert!(found(&table, &request).is_none());
}

#[test]
fn test_equal_priority_first_registered_wins() {
    let mut table = RouteTable::new();
    table.register_action_route("a.b", RouteEntry::exact("first", "a.b").with_priority(5)).unwrap();
    table.register_action_route("a.b", RouteEntry::exact("second", "a.b").with_priority(5)).unwrap();
    assert_eq!(table.find_route("a.b").unwrap().module_id, "first");
}

#[test]
fn test_removed_module_never_routed() {
    let mut table = RouteTable::new();
    table.register_custom_route(RouteEntry::regex("gone", "^x\\.")).unwrap();
    table.register_prefix_route(RouteEntry::prefix("gone", "x.")).unwrap();
    table.register_action_route("x.y", RouteEntry::exact("gone", "x.y")).unwrap();
    table.register_action_route("x.y", RouteEntry::exact("kept", "x.y").with_priority(-1)).unwrap();
    table.set_default_route(RouteEntry::exact("gone", "*"));
    assert_eq!(table.find_route("x.y").unwrap().module_id, "gone");
    table.remove_module_routes("gone");
    assert_eq!(table.find_route("x.y").unwrap().module_id, "kept");
    assert!(table.find_route("x.z").is_none());
}

// ------------------------------------------------------------ event bus

type Counter = Rc<Cell<usize>>;

fn counting(counter: &Counter) -> Counter {
    counter.clone()
}

/// Delivers `event` to its subscribers, each callback counting one, and
/// records the outcomes as the kernel does.
fn deliver(bus: &mut EventBus<Counter>, event: &Event, now: i64) -> (usize, usize, usize) {
    let ids = bus.find_matching_subscriptions(event);
    let mut results = Vec::new();
    for id in &ids {
        let counter = bus.callback_of(id).unwrap();
        counter.set(counter.get() + 1);
        results.push(DispatchResult::Success);
    }
    bus.record_results(&results, now)
}

fn event(event_type: &str, sender: &str) -> Event {
    Event::new(event_type, sender, serde_json::Value::Object(serde_json::Map::new()))
}

#[test]
fn test_event_bus_creation() {
    let bus: EventBus<Counter> = EventBus::new();
    assert_eq!(bus.subscription_count(), 0);
}

#[test]
fn test_event_bus_with_config() {
    let config = EventBusConfig { handler_timeout_ms: 10_000, concurrent_dispatch: false, max_concurrent_handlers: 50 };
    let bus: EventBus<Counter> = EventBus::with_config(config);
    assert_eq!(bus.config().handler_timeout_ms, 10_000);
    assert!(!bus.config().concurrent_dispatch);
}

#[test]
fn test_subscribe_and_unsubscribe() {
    let mut bus: EventBus<Counter> = EventBus::new();
    let sub_id = bus.subscribe("test_module", "test.event", None, Counter::default()).unwrap();
    assert_eq!(bus.subscription_count(), 1);
    bus.unsubscribe(&sub_id).unwrap();
    assert_eq!(bus.subscription_count(), 0);
}

#[test]
fn test_unsubscribe_not_found() {
    let mut bus: EventBus<Counter> = EventBus::new();
    let result = bus.unsubscribe("non_existent");
    assert!(matches!(result, Err(CoreError::SubscriptionNotFound(_))));
}

#[test]
fn test_unsubscribe_all() {
    let mut bus: EventBus<Counter> = EventBus::new();
    bus.subscribe("module_a", "event1", None, Counter::default()).unwrap();
    bus.subscribe("module_a", "event2", None, Counter::default()).unwrap();
    bus.subscribe("module_b", "event1", None, Counter::default()).unwrap();
    assert_eq!(bus.subscription_count(), 3);
    let removed = bus.unsubscribe_all("module_a").unwrap();
    assert_eq!(removed, 2);
    assert_eq!(bus.subscription_count(), 1);
}

#[test]
fn test_publish_event() {
    let mut bus: EventBus<Counter> = EventBus::new();
    let counter = Counter::default();
    bus.subscribe("test_module", "test.event", None, counting(&counter)).unwrap();
    let e = event("test.event", "sender");
    assert_eq!(bus.find_matching_subscriptions(&e).len(), 1);
    deliver(&mut bus, &e, 1);
    assert_eq!(counter.get(), 1);
}

#[test]
fn test_publish_sync() {
    let mut bus: EventBus<Counter> = EventBus::new();
    let counter = Counter::default();
    bus.subscribe("test_module", "test.event", None, counting(&counter)).unwrap();
    let (successful, failed, timeouts) = deliver(&mut bus, &event("test.event", "sender"), 1);
    assert_eq!(successful, 1);
    assert_eq!(failed, 0);
    assert_eq!(timeouts, 0);
    assert_eq!(counter.get(), 1);
}

#[test]
fn test_wildcard_subscription() {
    let mut bus: EventBus<Counter> = EventBus::new();
    let counter = Counter::default();
    bus.subscribe("test_module", "module.*", None, counting(&counter)).unwrap();
    deliver(&mut bus, &event("module.loaded", "sender"), 1);
    deliver(&mut bus, &event("module.started", "sender"), 2);
    deliver(&mut bus, &event("config.changed", "sender"), 3);
    assert_eq!(counter.get(), 2);
}

#[test]
fn test_event_filter() {
    let mut bus: EventBus<Counter> = EventBus::new();
    let counter = Counter::default();
    let filter = EventFilter::by_sender("allowed_sender");
    bus.subscribe("test_module", "test.event", Some(filter), counting(&counter)).unwrap();
    deliver(&mut bus, &event("test.event", "allowed_sender"), 1);
    deliver(&mut bus, &event("test.event", "other_sender"), 2);
    assert_eq!(counter.get(), 1);
}

#[test]
fn test_multiple_subscribers() {
    let mut bus: EventBus<Counter> = EventBus::new();
    let counter1 = Counter::default();
    let counter2 = Counter::default();
    bus.subscribe("module_a", "test.event", None, counting(&counter1)).unwrap();
    bus.subscribe("module_b", "test.event", None, counting(&counter2)).unwrap();
    let (successful, _, _) = deliver(&mut bus, &event("test.event", "sender"), 1);
    assert_eq!(successful, 2);
    assert_eq!(counter1.get(), 1);
    assert_eq!(counter2.get(), 1);
}

#[test]
fn event_bus_test_stats() {
    let mut bus: EventBus<Counter> = EventBus::new();
    bus.subscribe("test_module", "test.event", None, Counter::default()).unwrap();
    for i in 0..5 {
        deliver(&mut bus, &event("test.event", "sender"), i);
    }
    let stats = bus.stats();
    assert_eq!(stats.total_dispatched, 5);
    assert_eq!(stats.successful, 5);
    assert!(stats.last_dispatch_at.is_some());
}

#[test]
fn test_reset_stats() {
    let mut bus: EventBus<Counter> = EventBus::new();
    bus.subscribe("test_module", "test.event", None, Counter::default()).unwrap();
    deliver(&mut bus, &event("test.event", "sender"), 1);
    bus.reset_stats();
    assert_eq!(bus.stats().total_dispatched, 0);
}

#[test]
fn test_dispatch_outcomes_tallied() {
    let mut bus: EventBus<Counter> = EventBus::new();
    let results =
        vec![DispatchResult::Success, DispatchResult::Failed("回调函数 panic".to_string()), DispatchResult::Timeout];
    assert_eq!(bus.record_results(&results, 7), (1, 1, 1));
    let stats = bus.stats();
    assert_eq!((stats.total_dispatched, stats.successful, stats.failed, stats.timeouts), (3, 1, 1, 1));
    assert_eq!(stats.last_dispatch_at, Some(7));
}

#[test]
fn test_has_subscribers() {
    let mut bus: EventBus<Counter> = EventBus::new();
    assert!(!bus.has_subscribers("test.event"));
    bus.subscribe("test_module", "test.event", None, Counter::default()).unwrap();
    assert!(bus.has_subscribers("test.event"));
}

#[test]
fn test_has_subscribers_wildcard() {
    let mut bus: EventBus<Counter> = EventBus::new();
    bus.subscribe("test_module", "module.*", None, Counter::default()).unwrap();
    assert!(bus.has_subscribers("module.loaded"));
    assert!(bus.has_subscribers("module.started"));
    assert!(!bus.has_subscribers("config.changed"));
}

#[test]
fn test_get_subscriptions_for_module() {
    let mut bus: EventBus<Counter> = EventBus::new();
    let sub1 = bus.subscribe("module_a", "event1", None, Counter::default()).unwrap();
    let sub2 = bus.subscribe("module_a", "event2", None, Counter::default()).unwrap();
    bus.subscribe("module_b", "event1", None, Counter::default()).unwrap();
    let subs = bus.get_subscriptions_for_module("module_a");
    assert_eq!(subs.len(), 2);
    assert!(subs.contains(&sub1));
    assert!(subs.contains(&sub2));
}

#[test]
fn test_set_subscription_enabled() {
    let mut bus: EventBus<Counter> = EventBus::new();
    let counter = Counter::default();
    let sub_id = bus.subscribe("test_module", "test.event", None, counting(&counter)).unwrap();
    bus.set_subscription_enabled(&sub_id, false).unwrap();
    deliver(&mut bus, &event("test.event", "sender"), 1);
    assert_eq!(counter.get(), 0);
    bus.set_subscription_enabled(&sub_id, true).unwrap();
    deliver(&mut bus, &event("test.event", "sender"), 2);
    assert_eq!(counter.get(), 1);
}

#[test]
fn test_subscription_count_for_type() {
    let mut bus: EventBus<Counter> = EventBus::new();
    bus.subscribe("module_a", "event1", None, Counter::default()).unwrap();
    bus.subscribe("module_b", "event1", None, Counter::default()).unwrap();
    bus.subscribe("module_a", "event2", None, Counter::default()).unwrap();
    assert_eq!(bus.subscription_count_for_type("event1"), 2);
    assert_eq!(bus.subscription_count_for_type("event2"), 1);
    assert_eq!(bus.subscription_count_for_type("event3"), 0);
}

#[test]
fn test_no_matching_subscribers() {
    let mut bus: EventBus<Counter> = EventBus::new();
    bus.subscribe("test_module", "other.event", None, Counter::default()).unwrap();
    assert_eq!(bus.find_matching_subscriptions(&event("test.event", "sender")).len(), 0);
}

#[test]
fn test_publish_without_subscribers() {
    let bus: EventBus<Counter> = EventBus::new();
    assert_eq!(bus.find_matching_subscriptions(&event("test.event", "sender")).len(), 0);
}

#[test]
fn test_subscription_entry_matches_pattern() {
    assert!(SubscriptionEntry::<Counter>::matches_pattern("test.event", "test.event"));
    assert!(!SubscriptionEntry::<Counter>::matches_pattern("test.event", "other.event"));
    assert!(SubscriptionEntry::<Counter>::matches_pattern("*", "any.event"));
    assert!(SubscriptionEntry::<Counter>::matches_pattern("*", "module.loaded"));
    assert!(SubscriptionEntry::<Counter>::matches_pattern("module.*", "module.loaded"));
    assert!(SubscriptionEntry::<Counter>::matches_pattern("module.*", "module.started"));
    assert!(!SubscriptionEntry::<Counter>::matches_pattern("module.*", "config.changed"));
    assert!(!SubscriptionEntry::<Counter>::matches_pattern("module.*", "module"));
}

// ------------------------------------------------------------- timeouts

#[test]
fn test_timeout_manager_new() {
    let manager = TimeoutManager::new(10_000);
    assert_eq!(manager.default_timeout(), 10_000);
}

#[test]
fn test_timeout_manager_default() {
    let manager = TimeoutManager::default_manager();
    assert_eq!(manager.default_timeout(), 30_000);
}

#[test]
fn test_timeout_manager_set_default() {
    let mut manager = TimeoutManager::new(10_000);
    manager.set_default_timeout(20_000);
    assert_eq!(manager.default_timeout(), 20_000);
}

#[test]
fn test_timeout_texts() {
    match timeout_error(10) {
        CoreError::Timeout(m) => assert_eq!(m, "Operation timed out after 10ms"),
        other => panic!("unexpected {:?}", other),
    }
    let response = timeout_response("req-456", 10);
    assert_eq!(response.request_id, "req-456");
    assert_eq!(response.status, 408);
    let error = response.error.unwrap();
    assert_eq!(error.code, "TIMEOUT");
    assert_eq!(error.message, "Request timed out after 10ms");
}

#[test]
fn test_unsubscribed_gets_no_event() {
    let mut bus: EventBus<Counter> = EventBus::new();
    let keep = bus.subscribe("a", "test.event", None, Counter::default()).unwrap();
    let gone = bus.subscribe("b", "test.event", None, Counter::default()).unwrap();
    bus.unsubscribe(&gone).unwrap();
    let ids = bus.find_matching_subscriptions(&event("test.event", "sender"));
    assert_eq!(ids, vec![keep]);
}

#[test]
fn test_catch_all_subscription_delivered_by_type_and_as_wildcard() {
    let mut bus: EventBus<Counter> = EventBus::new();
    let all = bus.subscribe("a", "*", None, Counter::default()).unwrap();
    let ids = bus.find_matching_subscriptions(&event("any.event", "sender"));
    assert_eq!(ids, vec![all.clone(), all]);
}

#[test]
fn test_route_table_export() {
    let mut table = RouteTable::new();
    table.register_action_route("a.x", RouteEntry::exact("m1", "a.x").with_priority(1)).unwrap();
    table.register_action_route("a.x", RouteEntry::exact("m2", "a.x").with_priority(5)).unwrap();
    table.register_action_route("b.y", RouteEntry::exact("m3", "b.y")).unwrap();
    table.register_prefix_route(RouteEntry::prefix("m4", "c.")).unwrap();
    table.set_default_route(RouteEntry::exact("m5", "*"));
    let export = table.export();
    let actions: Vec<(&str, Vec<&str>)> = export
        .action_routes
        .iter()
        .map(|(a, rs)| (a.as_str(), rs.iter().map(|r| r.module_id.as_str()).collect()))
        .collect();
    assert_eq!(actions, vec![("a.x", vec!["m2", "m1"]), ("b.y", vec!["m3"])]);
    assert!(export.custom_routes.is_empty());
    assert_eq!(export.prefix_routes[0].module_id, "m4");
    assert_eq!(export.default_route.unwrap().module_id, "m5");
}
