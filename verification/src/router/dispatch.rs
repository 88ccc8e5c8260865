//! The decisions of the router around a request: whether it is taken, what
//! a missing or late handler gives, and what the caller gets back. Queues,
//! workers and channels are run by the caller.

use vstd::prelude::*;

use super::request::{ErrorInfo, RouteRequest, RouteResponse};
use super::route_table::RouteTable;
use super::validator::{format_errors, triples_of, ErrorTriple, RequestValidator};
use crate::utils::error::{error_text, CoreError};
use crate::utils::status_code;
use crate::utils::text::{join, join_names};

verus! {

/// What the router does with a request handed to it.
#[derive(Debug, Clone)]
pub enum Admission {
    /// Answer at once with this response.
    Reject(RouteResponse),
    /// Queue the request for the module with this id.
    Enqueue(String),
}

/// Whether `r` is the failure of request `request_id` with `status`, error
/// `code` and `message`, after `elapsed_ms`.
pub open spec fn is_failure(
    r: RouteResponse,
    request_id: Seq<char>,
    status: u16,
    code: Seq<char>,
    message: Seq<char>,
    elapsed_ms: u64,
) -> bool {
    &&& r.request_id@ == request_id
    &&& r.status == status
    &&& r.data is None
    &&& r.error matches Some(e) && e.code@ == code && e.message@ == message && e.details is None
    &&& r.elapsed_ms == elapsed_ms
}

/// The messages of validation errors, in order.
pub open spec fn messages(errors: Seq<ErrorTriple>) -> Seq<Seq<char>> {
    errors.map_values(|e: ErrorTriple| e.1)
}

/// A failure response with a fresh `ErrorInfo`.
fn failure(request_id: &str, status: u16, code: &str, message: &str, elapsed_ms: u64) -> (r: RouteResponse)
    ensures
        is_failure(r, request_id@, status, code@, message@, elapsed_ms),
{
    RouteResponse::error(request_id, status, ErrorInfo::new(code, message), elapsed_ms)
}

/// `a` followed by `b`, as a new string.
fn cat(a: &str, b: &str) -> (r: String)
    ensures
        r@ == a@ + b@,
{
    let mut r = String::from_str(a);
    r.append(b);
    r
}

/// Decides what the router does with `request` at time `now`, `elapsed_ms`
/// after it came in: a router that is not running answers 503
/// `ROUTER_NOT_RUNNING`; with `validate`, a request whose format is wrong
/// is answered 400 `INVALID_REQUEST` with the messages of its errors
/// joined by `"; "`; a request no route takes is answered 404
/// `ROUTE_NOT_FOUND`; any other is queued for the module of its route.
pub fn accept_request(
    table: &RouteTable,
    validator: &RequestValidator,
    request: &RouteRequest,
    running: bool,
    validate: bool,
    now: i64,
    elapsed_ms: u64,
) -> (r: Admission)
    requires
        table.wf(),
    ensures
        !running ==> (r matches Admission::Reject(x) && is_failure(
            x,
            request.request_id@,
            status_code::SERVICE_UNAVAILABLE,
            "ROUTER_NOT_RUNNING"@,
            "路由器未运行"@,
            elapsed_ms,
        )),
        running && validate && format_errors(validator.limits(), *request, now).len() > 0 ==> (r matches Admission::Reject(x)
            && is_failure(
            x,
            request.request_id@,
            status_code::BAD_REQUEST,
            "INVALID_REQUEST"@,
            join(messages(format_errors(validator.limits(), *request, now)), "; "@),
            elapsed_ms,
        )),
        running && (!validate || format_errors(validator.limits(), *request, now).len() == 0) ==> match table.lookup(
            request.action@,
        ) {
            None => r matches Admission::Reject(x) && is_failure(
                x,
                request.request_id@,
                status_code::NOT_FOUND,
                "ROUTE_NOT_FOUND"@,
                "未找到路由: "@ + request.action@,
                elapsed_ms,
            ),
            Some(e) => r matches Admission::Enqueue(m) && m@ == e.module_id@,
        },
{
    if !running {
        return Admission::Reject(failure(
            request.request_id.as_str(),
            status_code::SERVICE_UNAVAILABLE,
            "ROUTER_NOT_RUNNING",
            "路由器未运行",
            elapsed_ms,
        ));
    }
    if validate {
        let result = validator.validate_format_at(request, now);
        if !result.is_valid {
            let mut texts: Vec<String> = Vec::new();
            let mut i: usize = 0;
            while i < result.errors.len()
                invariant
                    i <= result.errors.len(),
                    texts.deep_view() == messages(triples_of(result.errors@).take(i as int)),
                decreases result.errors.len() - i,
            {
                let ghost before = texts.deep_view();
                texts.push(result.errors[i].message.clone());
                proof {
                    assert(texts.deep_view() =~= before.push(result.errors@[i as int].message@));
                    assert(messages(triples_of(result.errors@).take(i + 1)) =~= messages(
                        triples_of(result.errors@).take(i as int),
                    ).push(result.errors@[i as int].message@));
                }
                i = i + 1;
            }
            proof {
                assert(triples_of(result.errors@).take(i as int) =~= triples_of(result.errors@));
            }
            let joined = join_names(&texts, "; ");
            return Admission::Reject(failure(
                request.request_id.as_str(),
                status_code::BAD_REQUEST,
                "INVALID_REQUEST",
                joined.as_str(),
                elapsed_ms,
            ));
        }
    }
    match table.find_route(request.action.as_str()) {
        Some(entry) => Admission::Enqueue(entry.module_id),
        None => {
            let m = cat("未找到路由: ", request.action.as_str());
            Admission::Reject(failure(
                request.request_id.as_str(),
                status_code::NOT_FOUND,
                "ROUTE_NOT_FOUND",
                m.as_str(),
                elapsed_ms,
            ))
        },
    }
}

/// The answer to request `request_id` that the queue refused with `error`:
/// 503 `QUEUE_FULL` with the error's message.
pub fn queue_refused(request_id: &str, error: &CoreError, elapsed_ms: u64) -> (r: RouteResponse)
    ensures
        is_failure(r, request_id@, status_code::SERVICE_UNAVAILABLE, "QUEUE_FULL"@, error_text(error@), elapsed_ms),
{
    let m = error.to_string();
    failure(request_id, status_code::SERVICE_UNAVAILABLE, "QUEUE_FULL", m.as_str(), elapsed_ms)
}

/// What became of a queued request's handler.
#[derive(Debug, Clone)]
pub enum HandlerOutcome {
    /// No handler is registered for the target module.
    Missing,
    /// The handler did not answer within the request's timeout.
    TimedOut,
    /// The handler answered.
    Answered(RouteResponse),
}

/// The response of a worker to request `request_id` for module
/// `target_module` with timeout `timeout_ms`: the handler's answer; 408
/// `TIMEOUT` after the timeout; 404 `MODULE_NOT_FOUND` when no handler
/// is registered.
pub fn processed(request_id: &str, target_module: &str, timeout_ms: u64, outcome: HandlerOutcome) -> (r: RouteResponse)
    ensures
        match outcome {
            HandlerOutcome::Answered(x) => r == x,
            HandlerOutcome::TimedOut => is_failure(
                r,
                request_id@,
                status_code::TIMEOUT,
                "TIMEOUT"@,
                "请求超时"@,
                timeout_ms,
            ),
            HandlerOutcome::Missing => is_failure(
                r,
                request_id@,
                status_code::NOT_FOUND,
                "MODULE_NOT_FOUND"@,
                "模块未找到: "@ + target_module@,
                0,
            ),
        },
{
    match outcome {
        HandlerOutcome::Answered(x) => x,
        HandlerOutcome::TimedOut => failure(request_id, status_code::TIMEOUT, "TIMEOUT", "请求超时", timeout_ms),
        HandlerOutcome::Missing => {
            let m = cat("模块未找到: ", target_module);
            failure(request_id, status_code::NOT_FOUND, "MODULE_NOT_FOUND", m.as_str(), 0)
        },
    }
}

/// What the caller of a queued request waited for.
#[derive(Debug, Clone)]
pub enum ReplyOutcome {
    /// The worker sent this response.
    Replied(RouteResponse),
    /// The worker dropped the channel without a response.
    ChannelClosed,
    /// No response came within the request's timeout.
    TimedOut,
}

/// What the caller of request `request_id` gets back `elapsed_ms` after it
/// came in: the worker's response with that elapsed time; 500
/// `CHANNEL_CLOSED` when the channel closed; 408 `TIMEOUT` after the
/// timeout.
pub fn reply(request_id: &str, outcome: ReplyOutcome, elapsed_ms: u64) -> (r: RouteResponse)
    ensures
        match outcome {
            ReplyOutcome::Replied(x) => r == (RouteResponse { elapsed_ms, ..x }),
            ReplyOutcome::ChannelClosed => is_failure(
                r,
                request_id@,
                status_code::INTERNAL_ERROR,
                "CHANNEL_CLOSED"@,
                "响应通道已关闭"@,
                elapsed_ms,
            ),
            ReplyOutcome::TimedOut => is_failure(
                r,
                request_id@,
                status_code::TIMEOUT,
                "TIMEOUT"@,
                "请求超时"@,
                elapsed_ms,
            ),
        },
{
    match outcome {
        ReplyOutcome::Replied(x) => {
            let mut x = x;
            x.elapsed_ms = elapsed_ms;
            x
        },
        ReplyOutcome::ChannelClosed => failure(
            request_id,
            status_code::INTERNAL_ERROR,
            "CHANNEL_CLOSED",
            "响应通道已关闭",
            elapsed_ms,
        ),
        ReplyOutcome::TimedOut => failure(request_id, status_code::TIMEOUT, "TIMEOUT", "请求超时", elapsed_ms),
    }
}

/// How a worker counts a response in the router's statistics: whether it
/// succeeded, and whether it timed out.
pub fn outcome_flags(response: &RouteResponse) -> (r: (bool, bool))
    ensures
        r.0 == (200 <= response.status && response.status < 300),
        r.1 == (response.status == status_code::TIMEOUT),
{
    (response.is_success(), response.status == status_code::TIMEOUT)
}

} // verus!
