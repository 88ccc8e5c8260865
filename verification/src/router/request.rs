//! Route requests and responses.
//!
//! Times are milliseconds since the Unix epoch.

use vstd::prelude::*;

use crate::utils::clock::now_millis;
use crate::utils::id::{generate_uuid, is_hyphenated_uuid};
use crate::utils::json::json_null;
use crate::utils::status_code;
use crate::utils::text::{lowercase, str_eq, to_lowercase};

verus! {

/// The priority of a request; later variants come first.
#[derive(Debug, Clone, Copy, PartialEq, Eq, Structural, PartialOrd, Ord, Hash)]
pub enum Priority {
    /// Low.
    Low,
    /// Normal.
    Normal,
    /// High.
    High,
    /// Urgent.
    Urgent,
}

/// The rank of a priority: 0 for low up to 3 for urgent.
pub open spec fn priority_rank(p: Priority) -> u8 {
    match p {
        Priority::Low => 0,
        Priority::Normal => 1,
        Priority::High => 2,
        Priority::Urgent => 3,
    }
}

/// The priority a name stands for: `low`, `high` or `urgent` in any case,
/// anything else normal.
pub open spec fn priority_named(name: Seq<char>) -> Priority {
    let l = lowercase(name);
    if l == "low"@ {
        Priority::Low
    } else if l == "high"@ {
        Priority::High
    } else if l == "urgent"@ {
        Priority::Urgent
    } else {
        Priority::Normal
    }
}

impl Default for Priority {
    fn default() -> (r: Self)
        ensures
            r == Priority::Normal,
    {
        Priority::Normal
    }
}

impl Priority {
    /// The rank of this priority: 0 for low up to 3 for urgent.
    pub fn rank(&self) -> (r: u8)
        ensures
            r == priority_rank(*self),
    {
        match self {
            Priority::Low => 0,
            Priority::Normal => 1,
            Priority::High => 2,
            Priority::Urgent => 3,
        }
    }
}

impl<'a> From<&'a str> for Priority {
    fn from(s: &'a str) -> (r: Self) {
        let l = to_lowercase(s);
        if str_eq(l.as_str(), "low") {
            Priority::Low
        } else if str_eq(l.as_str(), "high") {
            Priority::High
        } else if str_eq(l.as_str(), "urgent") {
            Priority::Urgent
        } else {
            Priority::Normal
        }
    }
}

impl<'a> vstd::std_specs::convert::FromSpecImpl<&'a str> for Priority {
    open spec fn obeys_from_spec() -> bool {
        true
    }

    open spec fn from_spec(s: &'a str) -> Self {
        priority_named(s@)
    }
}

/// The timeout of a request when none is given, in milliseconds.
pub fn default_timeout() -> (r: u64)
    ensures
        r == 30000,
{
    30000
}

/// Whether `entries` holds key `k`.
pub open spec fn has_key(entries: Seq<(String, serde_json::Value)>, k: Seq<char>) -> bool {
    exists|i: int| 0 <= i < entries.len() && #[trigger] entries[i].0@ == k
}

/// The entries after setting key `k` to `v`: the value of the first entry
/// with that key is replaced, or a new entry is appended.
pub open spec fn set_entry(
    entries: Seq<(String, serde_json::Value)>,
    k: Seq<char>,
    v: serde_json::Value,
    i: int,
) -> bool {
    0 <= i < entries.len() && entries[i].0@ == k && forall|j: int| 0 <= j < i ==> entries[j].0@ != k
}

/// Sets key `key` of `entries` to `value`.
pub fn insert_entry(entries: &mut Vec<(String, serde_json::Value)>, key: &str, value: serde_json::Value)
    ensures
        has_key(old(entries)@, key@) ==> exists|i: int|
            set_entry(old(entries)@, key@, value, i) && final(entries)@.len() == old(entries)@.len()
                && final(entries)@[i].0 == old(entries)@[i].0 && final(entries)@[i].1 == value && forall|j: int|
                0 <= j < old(entries)@.len() && j != i ==> #[trigger] final(entries)@[j] == old(entries)@[j],
        !has_key(old(entries)@, key@) ==> final(entries)@ == old(entries)@.push((final(entries)@.last().0, value))
            && final(entries)@.last().0@ == key@,
{
    let mut i: usize = 0;
    while i < entries.len()
        invariant
            i <= entries.len(),
            entries@ == old(entries)@,
            forall|j: int| 0 <= j < i ==> entries@[j].0@ != key@,
        decreases entries.len() - i,
    {
        if str_eq(entries[i].0.as_str(), key) {
            let k = entries[i].0.clone();
            entries.set(i, (k, value));
            proof {
                assert(set_entry(old(entries)@, key@, value, i as int));
            }
            return;
        }
        i = i + 1;
    }
    entries.push((key.to_owned(), value));
}

/// A request routed to a module.
#[derive(Debug, Clone)]
pub struct RouteRequest {
    /// Unique request id.
    pub request_id: String,
    /// Module that sent the request.
    pub sender: String,
    /// Action, as `namespace.action`.
    pub action: String,
    /// Target module, if the sender names one.
    pub target: Option<String>,
    /// Parameters.
    pub params: serde_json::Value,
    /// Priority.
    pub priority: Priority,
    /// Timeout in milliseconds.
    pub timeout_ms: u64,
    /// When the request was made.
    pub timestamp: i64,
    /// Extra data, by key.
    pub metadata: Vec<(String, serde_json::Value)>,
}

impl RouteRequest {
    /// A request from `sender` for `action` with `params`: a new UUID as
    /// its id, no target, normal priority, a timeout of 30 seconds, made
    /// now, with no extra data.
    pub fn new(sender: &str, action: &str, params: serde_json::Value) -> (r: Self)
        ensures
            is_hyphenated_uuid(r.request_id@),
            r.sender@ == sender@,
            r.action@ == action@,
            r.target is None,
            r.params == params,
            r.priority == Priority::Normal,
            r.timeout_ms == 30000,
            r.metadata@.len() == 0,
    {
        RouteRequest {
            request_id: generate_uuid(),
            sender: sender.to_owned(),
            action: action.to_owned(),
            target: None,
            params,
            priority: Priority::Normal,
            timeout_ms: 30000,
            timestamp: now_millis(),
            metadata: Vec::new(),
        }
    }

    /// A builder for a request from `sender` for `action`.
    pub fn builder(sender: &str, action: &str) -> (r: RouteRequestBuilder)
        ensures
            r.sender@ == sender@,
            r.action@ == action@,
            r.target is None,
            r.priority == Priority::Normal,
            r.timeout_ms == 30000,
            r.metadata@.len() == 0,
    {
        RouteRequestBuilder::new(sender, action)
    }

    /// The request with target `target`.
    pub fn with_target(self, target: &str) -> (r: Self)
        ensures
            r == (RouteRequest { target: r.target, ..self }),
            r.target matches Some(t) && t@ == target@,
    {
        let mut s = self;
        s.target = Some(target.to_owned());
        s
    }

    /// The request with priority `priority`.
    pub fn with_priority(self, priority: Priority) -> (r: Self)
        ensures
            r == (RouteRequest { priority, ..self }),
    {
        let mut s = self;
        s.priority = priority;
        s
    }

    /// The request with timeout `timeout_ms`.
    pub fn with_timeout(self, timeout_ms: u64) -> (r: Self)
        ensures
            r == (RouteRequest { timeout_ms, ..self }),
    {
        let mut s = self;
        s.timeout_ms = timeout_ms;
        s
    }

    /// The request with extra data `key` set to `value`.
    pub fn with_metadata(self, key: &str, value: serde_json::Value) -> (r: Self)
        ensures
            r == (RouteRequest { metadata: r.metadata, ..self }),
            has_key(r.metadata@, key@),
    {
        let mut s = self;
        insert_entry(&mut s.metadata, key, value);
        proof {
            let m = s.metadata@;
            if has_key(self.metadata@, key@) {
                let i = choose|i: int|
                    set_entry(self.metadata@, key@, value, i) && m.len() == self.metadata@.len() && m[i].0
                        == self.metadata@[i].0 && m[i].1 == value && forall|j: int|
                        0 <= j < self.metadata@.len() && j != i ==> #[trigger] m[j] == self.metadata@[j];
                assert(m[i].0@ == key@);
            } else {
                assert(m[m.len() - 1].0@ == key@);
            }
        }
        s
    }
}

/// A request being built.
#[derive(Debug, Clone)]
pub struct RouteRequestBuilder {
    /// Module that sends the request.
    pub sender: String,
    /// Action.
    pub action: String,
    /// Target module.
    pub target: Option<String>,
    /// Parameters.
    pub params: serde_json::Value,
    /// Priority.
    pub priority: Priority,
    /// Timeout in milliseconds.
    pub timeout_ms: u64,
    /// Extra data, by key.
    pub metadata: Vec<(String, serde_json::Value)>,
}

impl RouteRequestBuilder {
    /// A builder for a request from `sender` for `action`, with null
    /// parameters, no target, normal priority, a 30 second timeout and no
    /// extra data.
    pub fn new(sender: &str, action: &str) -> (r: Self)
        ensures
            r.sender@ == sender@,
            r.action@ == action@,
            r.target is None,
            r.priority == Priority::Normal,
            r.timeout_ms == 30000,
            r.metadata@.len() == 0,
    {
        RouteRequestBuilder {
            sender: sender.to_owned(),
            action: action.to_owned(),
            target: None,
            params: json_null(),
            priority: Priority::Normal,
            timeout_ms: 30000,
            metadata: Vec::new(),
        }
    }

    /// Sets the target.
    pub fn target(self, target: &str) -> (r: Self)
        ensures
            r == (RouteRequestBuilder { target: r.target, ..self }),
            r.target matches Some(t) && t@ == target@,
    {
        let mut s = self;
        s.target = Some(target.to_owned());
        s
    }

    /// Sets the parameters.
    pub fn params(self, params: serde_json::Value) -> (r: Self)
        ensures
            r == (RouteRequestBuilder { params, ..self }),
    {
        let mut s = self;
        s.params = params;
        s
    }

    /// Sets the priority.
    pub fn priority(self, priority: Priority) -> (r: Self)
        ensures
            r == (RouteRequestBuilder { priority, ..self }),
    {
        let mut s = self;
        s.priority = priority;
        s
    }

    /// Sets the timeout.
    pub fn timeout_ms(self, timeout_ms: u64) -> (r: Self)
        ensures
            r == (RouteRequestBuilder { timeout_ms, ..self }),
    {
        let mut s = self;
        s.timeout_ms = timeout_ms;
        s
    }

    /// Sets extra data `key` to `value`.
    pub fn metadata(self, key: &str, value: serde_json::Value) -> (r: Self)
        ensures
            r == (RouteRequestBuilder { metadata: r.metadata, ..self }),
            has_key(r.metadata@, key@),
    {
        let mut s = self;
        insert_entry(&mut s.metadata, key, value);
        proof {
            let m = s.metadata@;
            if has_key(self.metadata@, key@) {
                let i = choose|i: int|
                    set_entry(self.metadata@, key@, value, i) && m.len() == self.metadata@.len() && m[i].0
                        == self.metadata@[i].0 && m[i].1 == value && forall|j: int|
                        0 <= j < self.metadata@.len() && j != i ==> #[trigger] m[j] == self.metadata@[j];
                assert(m[i].0@ == key@);
            } else {
                assert(m[m.len() - 1].0@ == key@);
            }
        }
        s
    }

    /// The request: a new UUID as its id, made now, with the built fields.
    pub fn build(self) -> (r: RouteRequest)
        ensures
            is_hyphenated_uuid(r.request_id@),
            r.sender == self.sender,
            r.action == self.action,
            r.target == self.target,
            r.params == self.params,
            r.priority == self.priority,
            r.timeout_ms == self.timeout_ms,
            r.metadata == self.metadata,
    {
        RouteRequest {
            request_id: generate_uuid(),
            sender: self.sender,
            action: self.action,
            target: self.target,
            params: self.params,
            priority: self.priority,
            timeout_ms: self.timeout_ms,
            timestamp: now_millis(),
            metadata: self.metadata,
        }
    }
}

/// Details of a failed request.
#[derive(Debug, Clone)]
pub struct ErrorInfo {
    /// Error code.
    pub code: String,
    /// Message.
    pub message: String,
    /// Further details.
    pub details: Option<serde_json::Value>,
}

impl ErrorInfo {
    /// An error with `code` and `message` and no details.
    pub fn new(code: &str, message: &str) -> (r: Self)
        ensures
            r.code@ == code@,
            r.message@ == message@,
            r.details is None,
    {
        ErrorInfo { code: code.to_owned(), message: message.to_owned(), details: None }
    }

    /// The error with `details`.
    pub fn with_details(self, details: serde_json::Value) -> (r: Self)
        ensures
            r.code == self.code,
            r.message == self.message,
            r.details == Some(details),
    {
        let mut s = self;
        s.details = Some(details);
        s
    }
}

/// The response to a request.
#[derive(Debug, Clone)]
pub struct RouteResponse {
    /// Id of the request answered.
    pub request_id: String,
    /// HTTP-style status code.
    pub status: u16,
    /// Data returned.
    pub data: Option<serde_json::Value>,
    /// Error, when the request failed.
    pub error: Option<ErrorInfo>,
    /// Handling time in milliseconds.
    pub elapsed_ms: u64,
    /// When the response was made.
    pub timestamp: i64,
}

impl RouteResponse {
    /// A success (200) carrying `data`.
    pub fn success(request_id: &str, data: serde_json::Value, elapsed_ms: u64) -> (r: Self)
        ensures
            r.request_id@ == request_id@,
            r.status == status_code::OK,
            r.data == Some(data),
            r.error is None,
            r.elapsed_ms == elapsed_ms,
    {
        RouteResponse {
            request_id: request_id.to_owned(),
            status: status_code::OK,
            data: Some(data),
            error: None,
            elapsed_ms,
            timestamp: now_millis(),
        }
    }

    /// A success (200) with no data.
    pub fn success_empty(request_id: &str, elapsed_ms: u64) -> (r: Self)
        ensures
            r.request_id@ == request_id@,
            r.status == status_code::OK,
            r.data is None,
            r.error is None,
            r.elapsed_ms == elapsed_ms,
    {
        RouteResponse {
            request_id: request_id.to_owned(),
            status: status_code::OK,
            data: None,
            error: None,
            elapsed_ms,
            timestamp: now_millis(),
        }
    }

    /// An acceptance (202): the request will be handled later.
    pub fn accepted(request_id: &str, elapsed_ms: u64) -> (r: Self)
        ensures
            r.request_id@ == request_id@,
            r.status == status_code::ACCEPTED,
            r.data is None,
            r.error is None,
            r.elapsed_ms == elapsed_ms,
    {
        RouteResponse {
            request_id: request_id.to_owned(),
            status: status_code::ACCEPTED,
            data: None,
            error: None,
            elapsed_ms,
            timestamp: now_millis(),
        }
    }

    /// A failure with `status` and `error`.
    pub fn error(request_id: &str, status: u16, error: ErrorInfo, elapsed_ms: u64) -> (r: Self)
        ensures
            r.request_id@ == request_id@,
            r.status == status,
            r.data is None,
            r.error == Some(error),
            r.elapsed_ms == elapsed_ms,
    {
        RouteResponse {
            request_id: request_id.to_owned(),
            status,
            data: None,
            error: Some(error),
            elapsed_ms,
            timestamp: now_millis(),
        }
    }

    /// Whether the status is a success (200 to 299).
    pub fn is_success(&self) -> (r: bool)
        ensures
            r == (200 <= self.status && self.status < 300),
    {
        self.status >= 200 && self.status < 300
    }

    /// Whether the status is an error (400 and above).
    pub fn is_error(&self) -> (r: bool)
        ensures
            r == (self.status >= 400),
    {
        self.status >= 400
    }
}

} // verus!
