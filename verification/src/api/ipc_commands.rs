//! What the IPC server makes of a request: the command its payload
//! carries, or the error it is answered with.

use vstd::prelude::*;

use super::ipc::{carries_route, IpcMessageType, IpcRequest, IpcResponse};
use crate::router::request::RouteResponse;
use crate::utils::json::{json_as_str, json_member, json_member_of, json_null, json_null_of, json_str_of};

verus! {

/// A command of an IPC client.
#[derive(Debug, Clone)]
pub enum IpcCommand {
    /// Route `action` from `sender` with `params`.
    Route { sender: String, action: String, params: serde_json::Value },
    /// Publish an event of type `event_type` from `sender` with `data`.
    Publish { event_type: String, sender: String, data: serde_json::Value },
    /// Subscribe `subscriber_id` to events of type pattern `event_type`.
    Subscribe { subscriber_id: String, event_type: String },
    /// Cancel subscription `subscription_id`.
    Unsubscribe { subscription_id: String },
    /// Answer a heartbeat.
    Heartbeat,
    /// Read configuration key `key`.
    ConfigGet { key: String },
    /// Set configuration key `key` to `value`.
    ConfigSet { key: String, value: serde_json::Value },
    /// Report the kernel's status.
    Status,
    /// Acknowledge with an empty success.
    Acknowledge,
}

/// The text of payload member `name`, or `default` when it is missing or
/// not a string.
pub open spec fn text_field(payload: serde_json::Value, name: Seq<char>, default: Seq<char>) -> Seq<char> {
    match json_member_of(payload, name) {
        Some(v) => match json_str_of(v) {
            Some(s) => s,
            None => default,
        },
        None => default,
    }
}

/// The text of payload member `name` (see [`text_field`]).
pub fn text_field_of(payload: &serde_json::Value, name: &str, default: &str) -> (r: String)
    ensures
        r@ == text_field(*payload, name@, default@),
{
    match json_member(payload, name) {
        Some(v) => match json_as_str(v) {
            Some(s) => s,
            None => default.to_owned(),
        },
        None => default.to_owned(),
    }
}

/// Payload member `name`, or `null` when it is missing.
pub fn value_field_of(payload: &serde_json::Value, name: &str) -> (r: serde_json::Value)
    ensures
        match json_member_of(*payload, name@) {
            Some(v) => r == v,
            None => json_null_of(r),
        },
{
    match json_member(payload, name) {
        Some(v) => v.clone(),
        None => json_null(),
    }
}

/// Whether `r` is the failure of request `id` with message `message`.
pub open spec fn is_refusal(r: IpcResponse, id: Seq<char>, message: Seq<char>) -> bool {
    &&& r.request_id@ == id
    &&& !r.success
    &&& r.data is None
    &&& r.error matches Some(e) && e@ == message
}

/// Whether `r` is how a request `request` is read: the command it carries,
/// or the refusal it is answered with (see [`command_of`]).
pub open spec fn decodes_to(request: IpcRequest, r: Result<IpcCommand, IpcResponse>) -> bool {
    match request.message_type {
        IpcMessageType::Route => {
            let action = text_field(request.payload, "action"@, ""@);
            if action.len() == 0 {
                r matches Err(x) && is_refusal(x, request.id@, "action 不能为空"@)
            } else {
                r matches Ok(IpcCommand::Route { sender, action: a, params }) && sender@ == text_field(
                    request.payload,
                    "sender"@,
                    "ipc_client"@,
                ) && a@ == action && match json_member_of(request.payload, "params"@) {
                    Some(v) => params == v,
                    None => json_null_of(params),
                }
            }
        },
        IpcMessageType::Publish => {
            let event_type = text_field(request.payload, "event_type"@, ""@);
            if event_type.len() == 0 {
                r matches Err(x) && is_refusal(x, request.id@, "event_type 不能为空"@)
            } else {
                r matches Ok(IpcCommand::Publish { event_type: t, sender, data }) && t@ == event_type
                    && sender@ == text_field(request.payload, "sender"@, "ipc_client"@) && match json_member_of(
                    request.payload,
                    "data"@,
                ) {
                    Some(v) => data == v,
                    None => json_null_of(data),
                }
            }
        },
        IpcMessageType::Subscribe => {
            let event_type = text_field(request.payload, "event_type"@, ""@);
            if event_type.len() == 0 {
                r matches Err(x) && is_refusal(x, request.id@, "event_type 不能为空"@)
            } else {
                r matches Ok(IpcCommand::Subscribe { subscriber_id, event_type: t }) && t@ == event_type
                    && subscriber_id@ == text_field(request.payload, "subscriber_id"@, "ipc_subscriber"@)
            }
        },
        IpcMessageType::Unsubscribe => {
            let id = text_field(request.payload, "subscription_id"@, ""@);
            if id.len() == 0 {
                r matches Err(x) && is_refusal(x, request.id@, "subscription_id 不能为空"@)
            } else {
                r matches Ok(IpcCommand::Unsubscribe { subscription_id }) && subscription_id@ == id
            }
        },
        IpcMessageType::ConfigGet => {
            let key = text_field(request.payload, "key"@, ""@);
            if key.len() == 0 {
                r matches Err(x) && is_refusal(x, request.id@, "key 不能为空"@)
            } else {
                r matches Ok(IpcCommand::ConfigGet { key: k }) && k@ == key
            }
        },
        IpcMessageType::ConfigSet => {
            let key = text_field(request.payload, "key"@, ""@);
            if key.len() == 0 {
                r matches Err(x) && is_refusal(x, request.id@, "key 不能为空"@)
            } else {
                match json_member_of(request.payload, "value"@) {
                    None => r matches Err(x) && is_refusal(x, request.id@, "value 不能为空"@),
                    Some(v) => r matches Ok(IpcCommand::ConfigSet { key: k, value }) && k@ == key && value == v,
                }
            }
        },
        IpcMessageType::Heartbeat => r matches Ok(IpcCommand::Heartbeat),
        IpcMessageType::Status => r matches Ok(IpcCommand::Status),
        IpcMessageType::HeartbeatAck => r matches Ok(IpcCommand::Acknowledge),
        IpcMessageType::Disconnect => r matches Ok(IpcCommand::Acknowledge),
    }
}

/// The command a request carries, or the error it is answered with: a
/// route needs an action, a publication and a subscription an event type,
/// a cancellation a subscription id, a configuration read a key, and a
/// configuration write a key and a value. A missing sender is
/// `ipc_client`, a missing subscriber `ipc_subscriber`, missing parameters
/// or data `null`.
pub fn command_of(request: &IpcRequest) -> (r: Result<IpcCommand, IpcResponse>)
    ensures
        decodes_to(*request, r),
{
    let id = request.id.as_str();
    let payload = &request.payload;
    match request.message_type {
        IpcMessageType::Route => {
            let sender = text_field_of(payload, "sender", "ipc_client");
            let action = text_field_of(payload, "action", "");
            let params = value_field_of(payload, "params");
            if action.as_str().is_empty() {
                return Err(IpcResponse::error(id, "action 不能为空"));
            }
            Ok(IpcCommand::Route { sender, action, params })
        },
        IpcMessageType::Publish => {
            let event_type = text_field_of(payload, "event_type", "");
            let sender = text_field_of(payload, "sender", "ipc_client");
            let data = value_field_of(payload, "data");
            if event_type.as_str().is_empty() {
                return Err(IpcResponse::error(id, "event_type 不能为空"));
            }
            Ok(IpcCommand::Publish { event_type, sender, data })
        },
        IpcMessageType::Subscribe => {
            let subscriber_id = text_field_of(payload, "subscriber_id", "ipc_subscriber");
            let event_type = text_field_of(payload, "event_type", "");
            if event_type.as_str().is_empty() {
                return Err(IpcResponse::error(id, "event_type 不能为空"));
            }
            Ok(IpcCommand::Subscribe { subscriber_id, event_type })
        },
        IpcMessageType::Unsubscribe => {
            let subscription_id = text_field_of(payload, "subscription_id", "");
            if subscription_id.as_str().is_empty() {
                return Err(IpcResponse::error(id, "subscription_id 不能为空"));
            }
            Ok(IpcCommand::Unsubscribe { subscription_id })
        },
        IpcMessageType::ConfigGet => {
            let key = text_field_of(payload, "key", "");
            if key.as_str().is_empty() {
                return Err(IpcResponse::error(id, "key 不能为空"));
            }
            Ok(IpcCommand::ConfigGet { key })
        },
        IpcMessageType::ConfigSet => {
            let key = text_field_of(payload, "key", "");
            if key.as_str().is_empty() {
                return Err(IpcResponse::error(id, "key 不能为空"));
            }
            match json_member(payload, "value") {
                Some(v) => Ok(IpcCommand::ConfigSet { key, value: v.clone() }),
                None => Err(IpcResponse::error(id, "value 不能为空")),
            }
        },
        IpcMessageType::Heartbeat => Ok(IpcCommand::Heartbeat),
        IpcMessageType::Status => Ok(IpcCommand::Status),
        IpcMessageType::HeartbeatAck => Ok(IpcCommand::Acknowledge),
        IpcMessageType::Disconnect => Ok(IpcCommand::Acknowledge),
    }
}

/// Why a route failed, for the IPC client: the message of its error, or
/// `路由失败` without one; none for a success.
pub fn route_failure(response: &RouteResponse) -> (r: Option<String>)
    ensures
        200 <= response.status < 300 ==> r is None,
        !(200 <= response.status < 300) ==> match response.error {
            Some(e) => r matches Some(m) && m@ == e.message@,
            None => r matches Some(m) && m@ == "路由失败"@,
        },
{
    if response.is_success() {
        None
    } else {
        match &response.error {
            Some(e) => Some(e.message.clone()),
            None => Some(String::from_str("路由失败")),
        }
    }
}

/// The answer to a read of configuration key `key` that has no value.
pub fn missing_config(request_id: &str, key: &str) -> (r: IpcResponse)
    ensures
        is_refusal(r, request_id@, "配置项 '"@ + key@ + "' 不存在"@),
{
    let mut m = String::from_str("配置项 '");
    m.append(key);
    m.append("' 不存在");
    IpcResponse::error(request_id, m.as_str())
}


/// A route request reads back as the route it was made for: a request
/// whose payload carries `sender`, `action` and `params`, as each that
/// [`IpcRequest::route`] makes does, is read by [`command_of`] as the
/// route of `action` from `sender` with `params` when `action` is not
/// empty, and is refused for want of an action when it is.
pub proof fn lemma_route_request_reads_back(
    request: IpcRequest,
    sender: Seq<char>,
    action: Seq<char>,
    params: serde_json::Value,
    r: Result<IpcCommand, IpcResponse>,
)
    requires
        carries_route(request, sender, action, params),
        decodes_to(request, r),
    ensures
        action.len() > 0 ==> (r matches Ok(IpcCommand::Route { sender: s, action: a, params: p }) && s@ == sender
            && a@ == action && p == params),
        action.len() == 0 ==> (r matches Err(x) && is_refusal(x, request.id@, "action 不能为空"@)),
{
}

} // verus!
