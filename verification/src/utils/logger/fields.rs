//! Names of the structured fields of log records.

use vstd::prelude::*;

verus! {

/// Request id.
pub const REQUEST_ID: &'static str = "request_id";
/// Sender.
pub const SENDER: &'static str = "sender";
/// Receiver.
pub const RECEIVER: &'static str = "receiver";
/// Action.
pub const ACTION: &'static str = "action";
/// Module id.
pub const MODULE_ID: &'static str = "module_id";
/// Error code.
pub const ERROR_CODE: &'static str = "error_code";
/// Error message.
pub const ERROR_MSG: &'static str = "error_msg";
/// Duration in microseconds.
pub const DURATION_US: &'static str = "duration_us";
/// Duration in milliseconds.
pub const DURATION_MS: &'static str = "duration_ms";
/// Status.
pub const STATUS: &'static str = "status";
/// Result.
pub const RESULT: &'static str = "result";
/// Event type.
pub const EVENT_TYPE: &'static str = "event_type";
/// Event id.
pub const EVENT_ID: &'static str = "event_id";
/// Priority.
pub const PRIORITY: &'static str = "priority";
/// Version.
pub const VERSION: &'static str = "version";
/// Protocol version.
pub const PROTOCOL_VERSION: &'static str = "protocol_version";
/// Payload size.
pub const PAYLOAD_SIZE: &'static str = "payload_size";
/// Queue length.
pub const QUEUE_LEN: &'static str = "queue_len";
/// Concurrency.
pub const CONCURRENT: &'static str = "concurrent";

} // verus!
