//! Inter-process communication: its settings, its messages, and the
//! decisions of the server; the sockets themselves are run by the caller.
//!
//! Times are milliseconds since the Unix epoch.

use vstd::prelude::*;

use crate::utils::clock::now_millis;
use crate::utils::id::{generate_uuid, is_hyphenated_uuid};
use crate::router::event::Event;
use crate::utils::json::{
    json_member_of, json_null, json_object, json_object_of, json_str_of, json_string, json_string_of,
};

verus! {

/// How clients reach the server.
#[derive(Debug, Clone, PartialEq, Eq)]
pub enum IpcTransport {
    /// A Unix socket at a path.
    UnixSocket(String),
    /// A TCP host and port.
    Tcp(String, u16),
}

impl Default for IpcTransport {
    /// The Unix socket `/tmp/chips-core.sock`.
    fn default() -> (r: Self)
        ensures
            r matches IpcTransport::UnixSocket(p) && p@ == "/tmp/chips-core.sock"@,
    {
        IpcTransport::UnixSocket(String::from_str("/tmp/chips-core.sock"))
    }
}

/// Server settings.
#[derive(Debug, Clone)]
pub struct IpcConfig {
    /// How clients reach the server.
    pub transport: IpcTransport,
    /// Most connections open at once.
    pub max_connections: usize,
    /// Connection timeout, in milliseconds.
    pub connection_timeout_ms: u64,
    /// Request timeout, in milliseconds.
    pub request_timeout_ms: u64,
    /// Whether heartbeats are sent.
    pub enable_heartbeat: bool,
    /// Seconds between heartbeats.
    pub heartbeat_interval_secs: u64,
    /// Size of the read buffer, in bytes.
    pub buffer_size: usize,
}

/// Whether `c` holds the default settings, but for its transport.
pub open spec fn ipc_defaults_but_transport(c: IpcConfig) -> bool {
    &&& c.max_connections == 100
    &&& c.connection_timeout_ms == 5000
    &&& c.request_timeout_ms == 30000
    &&& c.enable_heartbeat
    &&& c.heartbeat_interval_secs == 30
    &&& c.buffer_size == 64 * 1024
}

impl Default for IpcConfig {
    fn default() -> (r: Self)
        ensures
            r.transport matches IpcTransport::UnixSocket(p) && p@ == "/tmp/chips-core.sock"@,
            ipc_defaults_but_transport(r),
    {
        IpcConfig {
            transport: IpcTransport::default(),
            max_connections: 100,
            connection_timeout_ms: 5000,
            request_timeout_ms: 30000,
            enable_heartbeat: true,
            heartbeat_interval_secs: 30,
            buffer_size: 64 * 1024,
        }
    }
}

impl IpcConfig {
    /// The default settings on the Unix socket at `path`.
    pub fn unix_socket(path: &str) -> (r: Self)
        ensures
            r.transport matches IpcTransport::UnixSocket(p) && p@ == path@,
            ipc_defaults_but_transport(r),
    {
        IpcConfig { transport: IpcTransport::UnixSocket(path.to_owned()), ..IpcConfig::default() }
    }

    /// The default settings on TCP `host`:`port`.
    pub fn tcp(host: &str, port: u16) -> (r: Self)
        ensures
            r.transport matches IpcTransport::Tcp(h, p) && h@ == host@ && p == port,
            ipc_defaults_but_transport(r),
    {
        IpcConfig { transport: IpcTransport::Tcp(host.to_owned(), port), ..IpcConfig::default() }
    }

    /// The settings with at most `max` connections.
    pub fn max_connections(self, max: usize) -> (r: Self)
        ensures
            r == (IpcConfig { max_connections: max, ..self }),
    {
        let mut s = self;
        s.max_connections = max;
        s
    }

    /// The settings with connection timeout `timeout_ms`.
    pub fn connection_timeout(self, timeout_ms: u64) -> (r: Self)
        ensures
            r == (IpcConfig { connection_timeout_ms: timeout_ms, ..self }),
    {
        let mut s = self;
        s.connection_timeout_ms = timeout_ms;
        s
    }

    /// The settings with request timeout `timeout_ms`.
    pub fn request_timeout(self, timeout_ms: u64) -> (r: Self)
        ensures
            r == (IpcConfig { request_timeout_ms: timeout_ms, ..self }),
    {
        let mut s = self;
        s.request_timeout_ms = timeout_ms;
        s
    }

    /// The settings without heartbeats.
    pub fn disable_heartbeat(self) -> (r: Self)
        ensures
            r == (IpcConfig { enable_heartbeat: false, ..self }),
    {
        let mut s = self;
        s.enable_heartbeat = false;
        s
    }
}

/// Builds server settings step by step.
#[derive(Debug)]
pub struct IpcConfigBuilder {
    /// The settings built so far.
    pub config: IpcConfig,
}

impl IpcConfigBuilder {
    /// A builder starting from the default settings.
    pub fn new() -> (r: Self)
        ensures
            r.config.transport matches IpcTransport::UnixSocket(p) && p@ == "/tmp/chips-core.sock"@,
            ipc_defaults_but_transport(r.config),
    {
        IpcConfigBuilder { config: IpcConfig::default() }
    }

    /// Uses the Unix socket at `path`.
    pub fn unix_socket(self, path: &str) -> (r: Self)
        ensures
            r.config == (IpcConfig { transport: r.config.transport, ..self.config }),
            r.config.transport matches IpcTransport::UnixSocket(p) && p@ == path@,
    {
        let mut s = self;
        s.config.transport = IpcTransport::UnixSocket(path.to_owned());
        s
    }

    /// Uses TCP `host`:`port`.
    pub fn tcp(self, host: &str, port: u16) -> (r: Self)
        ensures
            r.config == (IpcConfig { transport: r.config.transport, ..self.config }),
            r.config.transport matches IpcTransport::Tcp(h, p) && h@ == host@ && p == port,
    {
        let mut s = self;
        s.config.transport = IpcTransport::Tcp(host.to_owned(), port);
        s
    }

    /// Allows at most `max` connections.
    pub fn max_connections(self, max: usize) -> (r: Self)
        ensures
            r.config == (IpcConfig { max_connections: max, ..self.config }),
    {
        let mut s = self;
        s.config.max_connections = max;
        s
    }

    /// Sets the connection timeout.
    pub fn connection_timeout_ms(self, timeout_ms: u64) -> (r: Self)
        ensures
            r.config == (IpcConfig { connection_timeout_ms: timeout_ms, ..self.config }),
    {
        let mut s = self;
        s.config.connection_timeout_ms = timeout_ms;
        s
    }

    /// Sets the request timeout.
    pub fn request_timeout_ms(self, timeout_ms: u64) -> (r: Self)
        ensures
            r.config == (IpcConfig { request_timeout_ms: timeout_ms, ..self.config }),
    {
        let mut s = self;
        s.config.request_timeout_ms = timeout_ms;
        s
    }

    /// Sends heartbeats every `interval_secs` seconds.
    pub fn enable_heartbeat(self, interval_secs: u64) -> (r: Self)
        ensures
            r.config == (IpcConfig { enable_heartbeat: true, heartbeat_interval_secs: interval_secs, ..self.config }),
    {
        let mut s = self;
        s.config.enable_heartbeat = true;
        s.config.heartbeat_interval_secs = interval_secs;
        s
    }

    /// Sends no heartbeats.
    pub fn disable_heartbeat(self) -> (r: Self)
        ensures
            r.config == (IpcConfig { enable_heartbeat: false, ..self.config }),
    {
        let mut s = self;
        s.config.enable_heartbeat = false;
        s
    }

    /// Sets the read buffer size.
    pub fn buffer_size(self, size: usize) -> (r: Self)
        ensures
            r.config == (IpcConfig { buffer_size: size, ..self.config }),
    {
        let mut s = self;
        s.config.buffer_size = size;
        s
    }

    /// The settings.
    pub fn build(self) -> (r: IpcConfig)
        ensures
            r == self.config,
    {
        self.config
    }
}

/// The kind of an IPC message.
#[derive(Debug, Clone, Copy, PartialEq, Eq, Structural)]
pub enum IpcMessageType {
    /// Route a request.
    Route,
    /// Publish an event.
    Publish,
    /// Subscribe to events.
    Subscribe,
    /// Cancel a subscription.
    Unsubscribe,
    /// Heartbeat.
    Heartbeat,
    /// Heartbeat answer.
    HeartbeatAck,
    /// Read a configuration value.
    ConfigGet,
    /// Write a configuration value.
    ConfigSet,
    /// Ask for the kernel's status.
    Status,
    /// Close the connection.
    Disconnect,
}

/// An IPC request.
#[derive(Debug, Clone)]
pub struct IpcRequest {
    /// Unique request id.
    pub id: String,
    /// Kind of request.
    pub message_type: IpcMessageType,
    /// Payload.
    pub payload: serde_json::Value,
    /// When the request was made.
    pub timestamp: i64,
}

/// Whether `r` is a route request whose payload gives back `sender`,
/// `action` and `params`: its members `sender` and `action` are strings
/// holding the first two, its member `params` is the third.
pub open spec fn carries_route(r: IpcRequest, sender: Seq<char>, action: Seq<char>, params: serde_json::Value) -> bool {
    &&& r.message_type == IpcMessageType::Route
    &&& json_member_of(r.payload, "sender"@) matches Some(v) && json_str_of(v) == Some(sender)
    &&& json_member_of(r.payload, "action"@) matches Some(v) && json_str_of(v) == Some(action)
    &&& json_member_of(r.payload, "params"@) == Some(params)
}

impl IpcRequest {
    /// A request of kind `message_type` with `payload`: a new UUID as its
    /// id, made now.
    pub fn new(message_type: IpcMessageType, payload: serde_json::Value) -> (r: Self)
        ensures
            is_hyphenated_uuid(r.id@),
            r.message_type == message_type,
            r.payload == payload,
    {
        IpcRequest { id: generate_uuid(), message_type, payload, timestamp: now_millis() }
    }

    /// A route request: `sender` asks for `action` with `params`; the
    /// payload is the object `{"sender", "action", "params"}`, whose
    /// members give back the three.
    pub fn route(sender: &str, action: &str, params: serde_json::Value) -> (r: Self)
        ensures
            is_hyphenated_uuid(r.id@),
            r.message_type == IpcMessageType::Route,
            r.payload == json_object_of(
                seq![("sender"@, json_string_of(sender@)), ("action"@, json_string_of(action@)), ("params"@, params)],
            ),
            carries_route(r, sender@, action@, params),
    {
        let mut m: Vec<(String, serde_json::Value)> = Vec::new();
        let s = json_string(sender);
        let a = json_string(action);
        m.push((String::from_str("sender"), s));
        m.push((String::from_str("action"), a));
        m.push((String::from_str("params"), params));
        let ghost es = crate::utils::json::member_views(m@);
        proof {
            assert(es =~= seq![
                ("sender"@, json_string_of(sender@)),
                ("action"@, json_string_of(action@)),
                ("params"@, params),
            ]);
            reveal_strlit("sender");
            reveal_strlit("action");
            reveal_strlit("params");
            assert(es[0].0[0] != es[1].0[0] && es[0].0[0] != es[2].0[0] && es[1].0[0] != es[2].0[0]);
            assert(crate::utils::json::sole_name_at(es, 0));
            assert(crate::utils::json::sole_name_at(es, 1));
            assert(crate::utils::json::sole_name_at(es, 2));
        }
        let payload = json_object(m);
        proof {
            assert(json_member_of(payload, es[0].0) == Some(es[0].1));
            assert(json_member_of(payload, es[1].0) == Some(es[1].1));
            assert(json_member_of(payload, es[2].0) == Some(es[2].1));
        }
        Self::new(IpcMessageType::Route, payload)
    }

    /// A request to publish an event of type `event_type` from `sender`
    /// with `data`; the payload is the object `{"event_type", "sender",
    /// "data"}`.
    pub fn publish(event_type: &str, sender: &str, data: serde_json::Value) -> (r: Self)
        ensures
            is_hyphenated_uuid(r.id@),
            r.message_type == IpcMessageType::Publish,
            r.payload == json_object_of(
                seq![("event_type"@, json_string_of(event_type@)), ("sender"@, json_string_of(sender@)), ("data"@, data)],
            ),
    {
        let mut m: Vec<(String, serde_json::Value)> = Vec::new();
        m.push((String::from_str("event_type"), json_string(event_type)));
        m.push((String::from_str("sender"), json_string(sender)));
        m.push((String::from_str("data"), data));
        proof {
            assert(crate::utils::json::member_views(m@) =~= seq![
                ("event_type"@, json_string_of(event_type@)),
                ("sender"@, json_string_of(sender@)),
                ("data"@, data),
            ]);
        }
        Self::new(IpcMessageType::Publish, json_object(m))
    }

    /// A request to subscribe `subscriber_id` to events of type pattern
    /// `event_type`; the payload is the object `{"subscriber_id",
    /// "event_type"}`.
    pub fn subscribe(subscriber_id: &str, event_type: &str) -> (r: Self)
        ensures
            is_hyphenated_uuid(r.id@),
            r.message_type == IpcMessageType::Subscribe,
            r.payload == json_object_of(
                seq![("subscriber_id"@, json_string_of(subscriber_id@)), ("event_type"@, json_string_of(event_type@))],
            ),
    {
        let mut m: Vec<(String, serde_json::Value)> = Vec::new();
        m.push((String::from_str("subscriber_id"), json_string(subscriber_id)));
        m.push((String::from_str("event_type"), json_string(event_type)));
        proof {
            assert(crate::utils::json::member_views(m@) =~= seq![
                ("subscriber_id"@, json_string_of(subscriber_id@)),
                ("event_type"@, json_string_of(event_type@)),
            ]);
        }
        Self::new(IpcMessageType::Subscribe, json_object(m))
    }

    /// A request to cancel subscription `subscription_id`; the payload is
    /// the object `{"subscription_id"}`.
    pub fn unsubscribe(subscription_id: &str) -> (r: Self)
        ensures
            is_hyphenated_uuid(r.id@),
            r.message_type == IpcMessageType::Unsubscribe,
            r.payload == json_object_of(seq![("subscription_id"@, json_string_of(subscription_id@))]),
    {
        let mut m: Vec<(String, serde_json::Value)> = Vec::new();
        m.push((String::from_str("subscription_id"), json_string(subscription_id)));
        proof {
            assert(crate::utils::json::member_views(m@) =~= seq![("subscription_id"@, json_string_of(subscription_id@))]);
        }
        Self::new(IpcMessageType::Unsubscribe, json_object(m))
    }

    /// A request to read configuration key `key`; the payload is the
    /// object `{"key"}`.
    pub fn config_get(key: &str) -> (r: Self)
        ensures
            is_hyphenated_uuid(r.id@),
            r.message_type == IpcMessageType::ConfigGet,
            r.payload == json_object_of(seq![("key"@, json_string_of(key@))]),
    {
        let mut m: Vec<(String, serde_json::Value)> = Vec::new();
        m.push((String::from_str("key"), json_string(key)));
        proof {
            assert(crate::utils::json::member_views(m@) =~= seq![("key"@, json_string_of(key@))]);
        }
        Self::new(IpcMessageType::ConfigGet, json_object(m))
    }

    /// A request to set configuration key `key` to `value`; the payload is
    /// the object `{"key", "value"}`.
    pub fn config_set(key: &str, value: serde_json::Value) -> (r: Self)
        ensures
            is_hyphenated_uuid(r.id@),
            r.message_type == IpcMessageType::ConfigSet,
            r.payload == json_object_of(seq![("key"@, json_string_of(key@)), ("value"@, value)]),
    {
        let mut m: Vec<(String, serde_json::Value)> = Vec::new();
        m.push((String::from_str("key"), json_string(key)));
        m.push((String::from_str("value"), value));
        proof {
            assert(crate::utils::json::member_views(m@) =~= seq![("key"@, json_string_of(key@)), ("value"@, value)]);
        }
        Self::new(IpcMessageType::ConfigSet, json_object(m))
    }

    /// A heartbeat request.
    pub fn heartbeat() -> (r: Self)
        ensures
            is_hyphenated_uuid(r.id@),
            r.message_type == IpcMessageType::Heartbeat,
    {
        Self::new(IpcMessageType::Heartbeat, json_null())
    }

    /// A status request.
    pub fn status() -> (r: Self)
        ensures
            is_hyphenated_uuid(r.id@),
            r.message_type == IpcMessageType::Status,
    {
        Self::new(IpcMessageType::Status, json_null())
    }

    /// A disconnect request.
    pub fn disconnect() -> (r: Self)
        ensures
            is_hyphenated_uuid(r.id@),
            r.message_type == IpcMessageType::Disconnect,
    {
        Self::new(IpcMessageType::Disconnect, json_null())
    }
}

/// An IPC response.
#[derive(Debug, Clone)]
pub struct IpcResponse {
    /// Id of the request answered.
    pub request_id: String,
    /// Whether the request succeeded.
    pub success: bool,
    /// Data returned.
    pub data: Option<serde_json::Value>,
    /// Error message.
    pub error: Option<String>,
    /// When the response was made.
    pub timestamp: i64,
}

impl IpcResponse {
    /// A success carrying `data`.
    pub fn success(request_id: &str, data: serde_json::Value) -> (r: Self)
        ensures
            r.request_id@ == request_id@,
            r.success,
            r.data == Some(data),
            r.error is None,
    {
        IpcResponse { request_id: request_id.to_owned(), success: true, data: Some(data), error: None, timestamp: now_millis() }
    }

    /// A success with no data.
    pub fn success_empty(request_id: &str) -> (r: Self)
        ensures
            r.request_id@ == request_id@,
            r.success,
            r.data is None,
            r.error is None,
    {
        IpcResponse { request_id: request_id.to_owned(), success: true, data: None, error: None, timestamp: now_millis() }
    }

    /// A failure with message `error`.
    pub fn error(request_id: &str, error: &str) -> (r: Self)
        ensures
            r.request_id@ == request_id@,
            !r.success,
            r.data is None,
            r.error matches Some(e) && e@ == error@,
    {
        IpcResponse {
            request_id: request_id.to_owned(),
            success: false,
            data: None,
            error: Some(error.to_owned()),
            timestamp: now_millis(),
        }
    }
}

/// An event notification pushed to a client.
#[derive(Debug, Clone)]
pub struct IpcEvent {
    /// Event id.
    pub event_id: String,
    /// Event type.
    pub event_type: String,
    /// Sender.
    pub sender: String,
    /// Event data.
    pub data: serde_json::Value,
    /// When the event was made.
    pub timestamp: i64,
}

impl From<Event> for IpcEvent {
    fn from(event: Event) -> (r: Self) {
        IpcEvent {
            event_id: event.event_id,
            event_type: event.event_type,
            sender: event.sender,
            data: event.data,
            timestamp: event.timestamp,
        }
    }
}

impl vstd::std_specs::convert::FromSpecImpl<Event> for IpcEvent {
    open spec fn obeys_from_spec() -> bool {
        true
    }

    open spec fn from_spec(event: Event) -> Self {
        IpcEvent {
            event_id: event.event_id,
            event_type: event.event_type,
            sender: event.sender,
            data: event.data,
            timestamp: event.timestamp,
        }
    }
}

/// Counts of the server.
#[derive(Debug, Clone, Copy, PartialEq, Eq, Structural)]
pub struct IpcServerStats {
    /// Connections accepted.
    pub total_connections: u64,
    /// Connections open.
    pub active_connections: u64,
    /// Requests handled.
    pub total_requests: u64,
    /// Requests that succeeded.
    pub successful_requests: u64,
    /// Requests that failed.
    pub failed_requests: u64,
}

impl Default for IpcServerStats {
    fn default() -> (r: Self)
        ensures
            r == (IpcServerStats {
                total_connections: 0,
                active_connections: 0,
                total_requests: 0,
                successful_requests: 0,
                failed_requests: 0,
            }),
    {
        IpcServerStats {
            total_connections: 0,
            active_connections: 0,
            total_requests: 0,
            successful_requests: 0,
            failed_requests: 0,
        }
    }
}

impl IpcServerStats {
    /// Accepts a new connection when fewer than `max_connections` are open:
    /// the connection is counted and becomes active. Returns whether it was
    /// accepted; a refused connection changes nothing. Counts wrap around
    /// at `u64::MAX`.
    pub fn accept_connection(&mut self, max_connections: usize) -> (r: bool)
        ensures
            r == (old(self).active_connections < max_connections),
            r ==> *final(self) == (IpcServerStats {
                total_connections: old(self).total_connections.wrapping_add(1),
                active_connections: old(self).active_connections.wrapping_add(1),
                ..*old(self)
            }),
            !r ==> *final(self) == *old(self),
    {
        if self.active_connections >= max_connections as u64 {
            return false;
        }
        self.total_connections = self.total_connections.wrapping_add(1);
        self.active_connections = self.active_connections.wrapping_add(1);
        true
    }

    /// Records that a connection closed.
    pub fn close(&mut self)
        ensures
            *final(self) == (IpcServerStats {
                active_connections: if old(self).active_connections > 0 { (old(self).active_connections - 1) as u64 } else { 0 },
                ..*old(self)
            }),
    {
        if self.active_connections > 0 {
            self.active_connections = self.active_connections - 1;
        }
    }

    /// Records a handled request and whether its response was a success.
    /// Counts wrap around at `u64::MAX`.
    pub fn record_request(&mut self, success: bool)
        ensures
            final(self).total_requests == old(self).total_requests.wrapping_add(1),
            final(self).successful_requests == if success { old(self).successful_requests.wrapping_add(1) } else { old(self).successful_requests },
            final(self).failed_requests == if success { old(self).failed_requests } else { old(self).failed_requests.wrapping_add(1) },
            final(self).total_connections == old(self).total_connections,
            final(self).active_connections == old(self).active_connections,
    {
        self.total_requests = self.total_requests.wrapping_add(1);
        if success {
            self.successful_requests = self.successful_requests.wrapping_add(1);
        } else {
            self.failed_requests = self.failed_requests.wrapping_add(1);
        }
    }
}

/// What happened when a connection read a line.
#[derive(Debug, Clone, Copy, PartialEq, Eq, Structural)]
pub enum ReadOutcome {
    /// The client closed the connection.
    Closed,
    /// A line was read and parsed as a request of this kind.
    Request(IpcMessageType),
    /// A line was read that is not a request.
    Unparsable,
    /// Reading failed.
    Failed,
    /// No line came before the request timeout.
    TimedOut,
}

/// What a connection does next.
#[derive(Debug, Clone, Copy, PartialEq, Eq, Structural)]
pub enum ConnectionStep {
    /// Close the connection.
    Close,
    /// Handle the request, send the response, then go on reading.
    Respond,
    /// Handle the request, send the response, then close.
    RespondThenClose,
    /// Send an error response for the unparsable line, then go on reading.
    RejectLine,
    /// Go on reading.
    Continue,
}

/// The next step of a connection after a read: a closed or failed read
/// closes it; a timeout keeps it waiting; a request is answered, and a
/// disconnect request is answered then closes it; a line that is not a
/// request gets an error response.
pub fn next_step(outcome: ReadOutcome) -> (r: ConnectionStep)
    ensures
        r == match outcome {
            ReadOutcome::Closed => ConnectionStep::Close,
            ReadOutcome::Failed => ConnectionStep::Close,
            ReadOutcome::TimedOut => ConnectionStep::Continue,
            ReadOutcome::Unparsable => ConnectionStep::RejectLine,
            ReadOutcome::Request(t) => if t == IpcMessageType::Disconnect {
                ConnectionStep::RespondThenClose
            } else {
                ConnectionStep::Respond
            },
        },
{
    match outcome {
        ReadOutcome::Closed => ConnectionStep::Close,
        ReadOutcome::Failed => ConnectionStep::Close,
        ReadOutcome::TimedOut => ConnectionStep::Continue,
        ReadOutcome::Unparsable => ConnectionStep::RejectLine,
        ReadOutcome::Request(t) => {
            if t == IpcMessageType::Disconnect {
                ConnectionStep::RespondThenClose
            } else {
                ConnectionStep::Respond
            }
        },
    }
}

} // verus!
