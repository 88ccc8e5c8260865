use chips_core::api::ipc::{
    next_step, ConnectionStep, IpcConfig, IpcConfigBuilder, IpcEvent, IpcMessageType, IpcRequest,
    IpcResponse, IpcServerStats, IpcTransport, ReadOutcome,
};
use chips_core::api::ipc_commands::{command_of, IpcCommand};
use chips_core::router::event::Event;
use chips_core::config::{default_worker_count, ConfigSource, CoreConfig, RouterConfig};

fn json(text: &str) -> serde_json::Value {
    serde_json::from_str(text).unwrap()
}

#[test]
fn test_ipc_config_default() {
    let config = IpcConfig::default();
    assert_eq!(config.max_connections, 100);
    assert_eq!(config.connection_timeout_ms, 5000);
    assert_eq!(config.request_timeout_ms, 30000);
    assert!(config.enable_heartbeat);
}

#[test]
fn test_ipc_config_tcp() {
    let config = IpcConfig::tcp("127.0.0.1", 8080);
    assert!(matches!(config.transport, IpcTransport::Tcp(_, 8080)));
}

#[test]
fn test_ipc_config_unix_socket() {
    let config = IpcConfig::unix_socket("/tmp/test.sock");
    assert!(matches!(config.transport, IpcTransport::UnixSocket(_)));
}

#[test]
fn test_ipc_config_builder() {
    let config = IpcConfigBuilder::new()
        .tcp("localhost", 9527)
        .max_connections(50)
        .connection_timeout_ms(10000)
        .disable_heartbeat()
        .build();

    assert_eq!(config.max_connections, 50);
    assert_eq!(config.connection_timeout_ms, 10000);
    assert!(!config.enable_heartbeat);
}

#[test]
fn test_ipc_request_route() {
    let request = IpcRequest::route("client", "test.action", json(r#"{"key": "value"}"#));

    assert_eq!(request.message_type, IpcMessageType::Route);
    assert_eq!(request.payload["sender"], "client");
    assert_eq!(request.payload["action"], "test.action");
}

#[test]
fn test_ipc_request_publish() {
    let request = IpcRequest::publish("test.event", "sender", json(r#"{"data": 123}"#));

    assert_eq!(request.message_type, IpcMessageType::Publish);
    assert_eq!(request.payload["event_type"], "test.event");
}

#[test]
fn test_ipc_request_subscribe() {
    let request = IpcRequest::subscribe("subscriber", "event.*");

    assert_eq!(request.message_type, IpcMessageType::Subscribe);
    assert_eq!(request.payload["subscriber_id"], "subscriber");
    assert_eq!(request.payload["event_type"], "event.*");
}

#[test]
fn test_ipc_request_config() {
    let get_request = IpcRequest::config_get("router.worker_count");
    assert_eq!(get_request.message_type, IpcMessageType::ConfigGet);
    assert_eq!(get_request.payload["key"], "router.worker_count");

    let set_request = IpcRequest::config_set("router.worker_count", json("8"));
    assert_eq!(set_request.message_type, IpcMessageType::ConfigSet);
    assert_eq!(set_request.payload["value"], 8);
}

#[test]
fn ipc_request_payload_objects() {
    let r = IpcRequest::route("c", "a.b", json(r#"{"x": [1, 2]}"#));
    assert_eq!(r.payload, json(r#"{"sender": "c", "action": "a.b", "params": {"x": [1, 2]}}"#));
    let u = IpcRequest::unsubscribe("sub-1");
    assert_eq!(u.message_type, IpcMessageType::Unsubscribe);
    assert_eq!(u.payload, json(r#"{"subscription_id": "sub-1"}"#));
    let p = IpcRequest::publish("t", "s", json("null"));
    assert_eq!(p.payload, json(r#"{"event_type": "t", "sender": "s", "data": null}"#));
}

#[test]
fn test_ipc_event_from_event() {
    let event = Event::new("test.event", "sender", json(r#"{"key": "value"}"#));
    let ipc_event: IpcEvent = event.clone().into();

    assert_eq!(ipc_event.event_id, event.event_id);
    assert_eq!(ipc_event.event_type, event.event_type);
    assert_eq!(ipc_event.sender, event.sender);
    assert_eq!(ipc_event.data, event.data);
    assert_eq!(ipc_event.timestamp, event.timestamp);
}

#[test]
fn test_ipc_request_heartbeat() {
    let request = IpcRequest::heartbeat();
    assert_eq!(request.message_type, IpcMessageType::Heartbeat);
}

#[test]
fn test_ipc_response_success() {
    let response = IpcResponse::success("req-123", json(r#"{"result": "ok"}"#));

    assert!(response.success);
    assert_eq!(response.request_id, "req-123");
    assert!(response.data.is_some());
    assert!(response.error.is_none());
}

#[test]
fn test_ipc_response_error() {
    let response = IpcResponse::error("req-123", "Something went wrong");

    assert!(!response.success);
    assert_eq!(response.request_id, "req-123");
    assert!(response.data.is_none());
    assert!(response.error.is_some());
}

#[test]
fn test_ipc_server_stats_default() {
    let stats = IpcServerStats::default();
    assert_eq!(stats.total_connections, 0);
    assert_eq!(stats.active_connections, 0);
    assert_eq!(stats.total_requests, 0);
    assert_eq!(stats.successful_requests, 0);
    assert_eq!(stats.failed_requests, 0);
}

#[test]
fn ipc_request_ids_are_hyphenated_uuids() {
    let a = IpcRequest::status();
    let b = IpcRequest::disconnect();
    assert_eq!(a.id.len(), 36);
    assert_eq!(a.id.matches('-').count(), 4);
    assert_ne!(a.id, b.id);
    assert_eq!(a.message_type, IpcMessageType::Status);
    assert_eq!(b.message_type, IpcMessageType::Disconnect);
}

#[test]
fn ipc_request_new_keeps_payload() {
    let payload = json(r#"{"k": 1}"#);
    let r = IpcRequest::new(IpcMessageType::Route, payload.clone());
    assert_eq!(r.payload, payload);
    assert_eq!(r.message_type, IpcMessageType::Route);
}

#[test]
fn ipc_response_success_empty_has_no_data() {
    let r = IpcResponse::success_empty("req-1");
    assert!(r.success);
    assert!(r.data.is_none());
    assert!(r.error.is_none());
    let e = IpcResponse::error("req-2", "bad");
    assert_eq!(e.error, Some("bad".to_string()));
}

#[test]
fn ipc_config_setters() {
    let c = IpcConfig::tcp("h", 1)
        .max_connections(7)
        .connection_timeout(11)
        .request_timeout(13)
        .disable_heartbeat();
    assert_eq!(c.max_connections, 7);
    assert_eq!(c.connection_timeout_ms, 11);
    assert_eq!(c.request_timeout_ms, 13);
    assert!(!c.enable_heartbeat);
    match c.transport {
        IpcTransport::Tcp(h, p) => {
            assert_eq!(h, "h");
            assert_eq!(p, 1);
        }
        _ => panic!("expected tcp"),
    }
}

#[test]
fn ipc_builder_heartbeat_and_buffer() {
    let c = IpcConfigBuilder::new()
        .unix_socket("/run/x.sock")
        .request_timeout_ms(42)
        .enable_heartbeat(9)
        .buffer_size(1024)
        .build();
    assert!(c.enable_heartbeat);
    assert_eq!(c.heartbeat_interval_secs, 9);
    assert_eq!(c.buffer_size, 1024);
    assert_eq!(c.request_timeout_ms, 42);
    match c.transport {
        IpcTransport::UnixSocket(p) => assert_eq!(p, "/run/x.sock"),
        _ => panic!("expected unix socket"),
    }
}

#[test]
fn server_stats_accept_until_limit() {
    let mut s = IpcServerStats::default();
    assert!(s.accept_connection(2));
    assert!(s.accept_connection(2));
    assert!(!s.accept_connection(2));
    assert_eq!(s.total_connections, 2);
    assert_eq!(s.active_connections, 2);
    s.close();
    assert_eq!(s.active_connections, 1);
    assert_eq!(s.total_connections, 2);
    assert!(s.accept_connection(2));
    assert_eq!(s.total_connections, 3);
}

#[test]
fn server_stats_close_at_zero_stays_zero() {
    let mut s = IpcServerStats::default();
    s.close();
    assert_eq!(s.active_connections, 0);
}

#[test]
fn server_stats_record_requests() {
    let mut s = IpcServerStats::default();
    s.record_request(true);
    s.record_request(false);
    s.record_request(true);
    assert_eq!(s.total_requests, 3);
    assert_eq!(s.successful_requests, 2);
    assert_eq!(s.failed_requests, 1);
}

#[test]
fn connection_steps() {
    assert_eq!(next_step(ReadOutcome::Closed), ConnectionStep::Close);
    assert_eq!(next_step(ReadOutcome::Failed), ConnectionStep::Close);
    assert_eq!(next_step(ReadOutcome::TimedOut), ConnectionStep::Continue);
    assert_eq!(next_step(ReadOutcome::Unparsable), ConnectionStep::RejectLine);
    assert_eq!(
        next_step(ReadOutcome::Request(IpcMessageType::Disconnect)),
        ConnectionStep::RespondThenClose
    );
    assert_eq!(next_step(ReadOutcome::Request(IpcMessageType::Route)), ConnectionStep::Respond);
}

#[test]
fn test_default_config() {
    let config = CoreConfig::default();
    assert!(!config.dev_mode);
    assert_eq!(config.logging.level, "info");
    assert_eq!(config.router.default_timeout_ms, 30000);
}

#[test]
fn test_config_builder() {
    let config = CoreConfig::builder()
        .worker_count(8)
        .log_level("debug")
        .dev_mode()
        .build();

    assert_eq!(config.router.worker_count, 8);
    assert_eq!(config.logging.level, "debug");
    assert!(config.dev_mode);
}

#[test]
fn test_config_merge() {
    let mut base = CoreConfig::default();
    let override_config = CoreConfig::builder().log_level("debug").dev_mode().build();

    base.merge(override_config);

    assert_eq!(base.logging.level, "debug");
    assert!(base.dev_mode);
}

#[test]
fn worker_count_is_twice_parallelism() {
    assert_eq!(default_worker_count(Some(4)), 8);
    assert_eq!(default_worker_count(Some(1)), 2);
    assert_eq!(default_worker_count(None), 8);
    assert_eq!(RouterConfig::for_parallelism(Some(3)).worker_count, 6);
}

#[test]
fn builder_fills_paths_and_logging() {
    let config = CoreConfig::builder()
        .config_path("/etc/chips.yaml")
        .max_concurrent(7)
        .file_logging("/var/log/chips")
        .json_logging()
        .module_dir("/opt/mods")
        .data_dir("/var/lib/chips")
        .build();
    assert_eq!(config.config_path, Some("/etc/chips.yaml".to_string()));
    assert_eq!(config.router.max_concurrent, 7);
    assert!(config.logging.file_output);
    assert_eq!(config.logging.log_dir, Some("/var/log/chips".to_string()));
    assert!(config.logging.json_format);
    assert!(config.modules.module_dirs.contains(&"/opt/mods".to_string()));
    assert_eq!(config.data_dir, Some("/var/lib/chips".to_string()));
}

#[test]
fn merge_keeps_base_where_other_is_default() {
    let mut base = CoreConfig::builder().log_level("warn").data_dir("/d").build();
    base.merge(CoreConfig::default());
    assert_eq!(base.logging.level, "warn");
    assert_eq!(base.data_dir, Some("/d".to_string()));
}

#[test]
fn merge_takes_non_default_router_and_logging_settings() {
    let mut base = CoreConfig::default();
    base.merge(CoreConfig::builder().json_logging().build());
    assert!(base.logging.json_format);

    let mut other = CoreConfig::default();
    other.router.queue_size = 64;
    other.router.default_timeout_ms = 500;
    other.logging.rotation = "hourly".to_string();
    other.logging.max_files = 3;
    let mut base = CoreConfig::default();
    base.router.queue_size = 99;
    base.merge(other);
    assert_eq!(base.router.queue_size, 64);
    assert_eq!(base.router.default_timeout_ms, 500);
    assert_eq!(base.logging.rotation, "hourly");
    assert_eq!(base.logging.max_files, 3);
    assert!(!base.logging.json_format);

    let mut kept = CoreConfig::default();
    kept.router.queue_size = 99;
    kept.logging.rotation = "never".to_string();
    kept.merge(CoreConfig::default());
    assert_eq!(kept.router.queue_size, 99);
    assert_eq!(kept.logging.rotation, "never");
}

#[test]
fn config_sources_rank_and_name() {
    assert!(ConfigSource::Default.rank() < ConfigSource::Environment.rank());
    assert_eq!(ConfigSource::User.rank(), 2);
    assert_eq!(ConfigSource::Default.to_string(), "default");
}

#[test]
fn route_request_reads_back_as_its_route() {
    let params = json(r#"{"key": "value", "n": [1, 2]}"#);
    let request = IpcRequest::route("client", "test.action", params.clone());
    match command_of(&request) {
        Ok(IpcCommand::Route { sender, action, params: p }) => {
            assert_eq!(sender, "client");
            assert_eq!(action, "test.action");
            assert_eq!(p, params);
        }
        other => panic!("unexpected: {:?}", other),
    }

    let empty = IpcRequest::route("client", "", json("null"));
    match command_of(&empty) {
        Err(resp) => {
            assert!(!resp.success);
            assert_eq!(resp.request_id, empty.id);
            assert_eq!(resp.error, Some("action 不能为空".to_string()));
        }
        other => panic!("unexpected: {:?}", other),
    }
}
