use chips_core::api::sdk::{ChipsCore, CoreState};
use chips_core::config::CoreConfig;
use chips_core::router::dispatch::{
    accept_request, outcome_flags, processed, queue_refused, reply, Admission, HandlerOutcome,
    ReplyOutcome,
};
use chips_core::router::request::{RouteRequest, RouteResponse};
use chips_core::router::route_table::{RouteEntry, RouteTable};
use chips_core::router::validator::RequestValidator;
use chips_core::utils::error::CoreError;
use chips_core::utils::status_code;

fn json(text: &str) -> serde_json::Value {
    serde_json::from_str(text).unwrap()
}

fn error_parts(r: &RouteResponse) -> (String, String) {
    let e = r.error.as_ref().unwrap();
    (e.code.clone(), e.message.clone())
}

#[test]
fn test_core_creation() {
    let core = ChipsCore::new(CoreConfig::default());
    assert_eq!(core.state(), CoreState::Initialized);
}

#[test]
fn test_core_start_shutdown() {
    let mut core = ChipsCore::new(CoreConfig::default());

    core.start(1000).unwrap();
    assert_eq!(core.state(), CoreState::Running);
    assert!(core.is_running());

    core.shutdown().unwrap();
    assert_eq!(core.state(), CoreState::Shutdown);
    assert!(!core.is_running());
}

#[test]
fn test_route_before_start() {
    let core = ChipsCore::new(CoreConfig::default());
    let request = RouteRequest::new("test", "test.action", json("{}"));
    let response = core.route(&request, 0);

    assert!(response.is_error());
    assert_eq!(response.status, status_code::SERVICE_UNAVAILABLE);
}

#[test]
fn sdk_test_route_not_found() {
    let mut core = ChipsCore::new(CoreConfig::default());
    core.start(0).unwrap();

    let request = RouteRequest::new("test", "unknown.action", json("{}"));
    let response = core.route(&request, 3);

    assert!(response.is_error());
    assert_eq!(response.status, status_code::NOT_FOUND);
    assert_eq!(error_parts(&response).1, "未找到路由: unknown.action");
    assert_eq!(response.elapsed_ms, 3);
}

#[test]
fn test_uptime() {
    let mut core = ChipsCore::new(CoreConfig::default());
    assert!(core.uptime_ms(5).is_none());
    core.start(100).unwrap();
    assert_eq!(core.uptime_ms(110), Some(10));
    assert_eq!(core.uptime_ms(50), Some(0));
}

#[test]
fn core_starts_once() {
    let mut core = ChipsCore::new(CoreConfig::default());
    core.start(1).unwrap();
    match core.start(2) {
        Err(CoreError::InitFailed(m)) => assert_eq!(m, "内核必须处于 Initialized 状态才能启动"),
        other => panic!("unexpected {:?}", other),
    }
    assert_eq!(core.uptime_ms(3), Some(2));
    core.shutdown().unwrap();
    core.shutdown().unwrap();
    assert_eq!(core.state(), CoreState::Shutdown);
    assert!(core.start(4).is_err());
}

#[test]
fn core_routes_to_registered_module() {
    let mut core = ChipsCore::new(CoreConfig::default());
    core.register_route("card.read", RouteEntry::exact("cards", "card.read")).unwrap();
    core.start(0).unwrap();
    let request = RouteRequest::new("ui", "card.read", json("{}"));
    let response = core.route(&request, 7);
    assert!(response.is_success());
    assert_eq!(response.elapsed_ms, 7);
    assert_eq!(
        response.data,
        Some(json(r#"{"module_id": "cards", "action": "card.read", "status": "placeholder"}"#))
    );
}

#[test]
fn accept_not_running() {
    let table = RouteTable::new();
    let v = RequestValidator::new();
    let request = RouteRequest::new("s", "a.b", json("{}"));
    match accept_request(&table, &v, &request, false, true, request.timestamp, 4) {
        Admission::Reject(r) => {
            assert_eq!(r.status, status_code::SERVICE_UNAVAILABLE);
            assert_eq!(error_parts(&r), ("ROUTER_NOT_RUNNING".to_string(), "路由器未运行".to_string()));
            assert_eq!(r.elapsed_ms, 4);
        }
        Admission::Enqueue(_) => panic!("should reject"),
    }
}

#[test]
fn accept_invalid_request() {
    let table = RouteTable::new();
    let v = RequestValidator::new();
    let mut request = RouteRequest::new("s", "a.b", json("{}"));
    request.sender = String::new();
    request.action = String::new();
    match accept_request(&table, &v, &request, true, true, request.timestamp, 1) {
        Admission::Reject(r) => {
            assert_eq!(r.status, status_code::BAD_REQUEST);
            let (code, message) = error_parts(&r);
            assert_eq!(code, "INVALID_REQUEST");
            assert_eq!(message.matches("; ").count(), 1);
        }
        Admission::Enqueue(_) => panic!("should reject"),
    }
    // Without validation the empty action is looked up and not found.
    match accept_request(&table, &v, &request, true, false, request.timestamp, 1) {
        Admission::Reject(r) => assert_eq!(r.status, status_code::NOT_FOUND),
        Admission::Enqueue(_) => panic!("should reject"),
    }
}

#[test]
fn accept_routes_to_module() {
    let mut table = RouteTable::new();
    table.register_action_route("file.open", RouteEntry::exact("fs", "file.open")).unwrap();
    let v = RequestValidator::new();
    let request = RouteRequest::new("s", "file.open", json("{}"));
    match accept_request(&table, &v, &request, true, true, request.timestamp, 0) {
        Admission::Enqueue(m) => assert_eq!(m, "fs"),
        Admission::Reject(r) => panic!("rejected {:?}", r),
    }
    let other = RouteRequest::new("s", "file.close", json("{}"));
    match accept_request(&table, &v, &other, true, true, other.timestamp, 0) {
        Admission::Reject(r) => {
            assert_eq!(error_parts(&r), ("ROUTE_NOT_FOUND".to_string(), "未找到路由: file.close".to_string()))
        }
        Admission::Enqueue(_) => panic!("should reject"),
    }
}

#[test]
fn worker_and_caller_outcomes() {
    let ok = RouteResponse::success("r", json("1"), 2);
    assert_eq!(processed("r", "m", 10, HandlerOutcome::Answered(ok.clone())).data, ok.data);
    let t = processed("r", "m", 10, HandlerOutcome::TimedOut);
    assert_eq!(t.status, status_code::TIMEOUT);
    assert_eq!(t.elapsed_ms, 10);
    let m = processed("r", "mod", 10, HandlerOutcome::Missing);
    assert_eq!(m.status, status_code::NOT_FOUND);
    assert_eq!(error_parts(&m), ("MODULE_NOT_FOUND".to_string(), "模块未找到: mod".to_string()));

    let r = reply("r", ReplyOutcome::Replied(ok.clone()), 99);
    assert_eq!(r.elapsed_ms, 99);
    assert_eq!(r.status, status_code::OK);
    let c = reply("r", ReplyOutcome::ChannelClosed, 5);
    assert_eq!(c.status, status_code::INTERNAL_ERROR);
    assert_eq!(error_parts(&c).0, "CHANNEL_CLOSED");
    assert_eq!(reply("r", ReplyOutcome::TimedOut, 5).status, status_code::TIMEOUT);

    assert_eq!(outcome_flags(&ok), (true, false));
    assert_eq!(outcome_flags(&t), (false, true));

    let q = queue_refused("r", &CoreError::QueueFull { max_size: 1, message: "满".to_string() }, 0);
    assert_eq!(q.status, status_code::SERVICE_UNAVAILABLE);
    assert_eq!(error_parts(&q), ("QUEUE_FULL".to_string(), "队列已满: 满".to_string()));
}
