//! The kernel as a whole: its state, its routes and how it answers a
//! request. Locks and clocks are left to the caller; times are
//! milliseconds since the Unix epoch.

use vstd::prelude::*;

use crate::config::CoreConfig;
use crate::router::dispatch::is_failure;
use crate::router::request::{ErrorInfo, RouteRequest, RouteResponse};
use crate::router::route_table::{RouteEntry, RouteTable};
use crate::utils::error::{CoreError, ErrorView};
use crate::utils::json::{json_object, json_object_of, json_string, json_string_of, member_views};
use crate::utils::status_code;

verus! {

/// The life cycle of the kernel.
#[derive(Debug, Clone, Copy, PartialEq, Eq, Structural)]
pub enum CoreState {
    /// Not set up yet.
    Uninitialized,
    /// Set up, not started.
    Initialized,
    /// Running.
    Running,
    /// Shutting down.
    ShuttingDown,
    /// Shut down.
    Shutdown,
}

/// The kernel.
pub struct ChipsCore {
    config: CoreConfig,
    state: CoreState,
    route_table: RouteTable,
    started_at: Option<i64>,
}

/// The payload of an answered route: the module that takes the action,
/// the action, and the status `placeholder`.
pub open spec fn route_payload(module_id: Seq<char>, action: Seq<char>) -> serde_json::Value {
    json_object_of(
        seq![
            ("module_id"@, json_string_of(module_id)),
            ("action"@, json_string_of(action)),
            ("status"@, json_string_of("placeholder"@)),
        ],
    )
}

impl ChipsCore {
    /// The configuration.
    pub closed spec fn config_of(&self) -> CoreConfig {
        self.config
    }

    /// The state.
    pub closed spec fn state_of(&self) -> CoreState {
        self.state
    }

    /// The route table.
    pub closed spec fn table(&self) -> RouteTable {
        self.route_table
    }

    /// When the kernel started, if it did.
    pub closed spec fn started(&self) -> Option<i64> {
        self.started_at
    }

    /// The kernel's invariant: its route table is well formed.
    pub closed spec fn wf(&self) -> bool {
        self.route_table.wf()
    }

    /// A kernel with `config`, initialised, with no route.
    pub fn new(config: CoreConfig) -> (r: Self)
        ensures
            r.wf(),
            r.config_of() == config,
            r.state_of() == CoreState::Initialized,
            r.started() is None,
            r.table().actions().len() == 0,
            forall|a: Seq<char>| #[trigger] r.table().lookup(a) is None,
    {
        let t = RouteTable::new();
        proof {
            assert forall|a: Seq<char>| #[trigger] t.lookup(a) is None by {
                assert(t.routes_for(a).len() == 0);
            }
        }
        ChipsCore { config, state: CoreState::Initialized, route_table: t, started_at: None }
    }

    /// Starts the kernel at time `now`: only an initialised kernel starts,
    /// others fail with `InitFailed`.
    pub fn start(&mut self, now: i64) -> (r: Result<(), CoreError>)
        requires
            old(self).wf(),
        ensures
            final(self).wf(),
            final(self).config_of() == old(self).config_of(),
            final(self).table() == old(self).table(),
            old(self).state_of() == CoreState::Initialized ==> r is Ok && final(self).state_of() == CoreState::Running
                && final(self).started() == Some(now),
            old(self).state_of() != CoreState::Initialized ==> (r matches Err(e) && e@ == ErrorView::InitFailed(
                "内核必须处于 Initialized 状态才能启动"@,
            )) && final(self).state_of() == old(self).state_of() && final(self).started() == old(self).started(),
    {
        if self.state != CoreState::Initialized {
            return Err(CoreError::InitFailed(String::from_str("内核必须处于 Initialized 状态才能启动")));
        }
        self.state = CoreState::Running;
        self.started_at = Some(now);
        Ok(())
    }

    /// Shuts a running kernel down; any other is left as it is.
    pub fn shutdown(&mut self) -> (r: Result<(), CoreError>)
        requires
            old(self).wf(),
        ensures
            r is Ok,
            final(self).wf(),
            final(self).config_of() == old(self).config_of(),
            final(self).table() == old(self).table(),
            final(self).started() == old(self).started(),
            final(self).state_of() == if old(self).state_of() == CoreState::Running {
                CoreState::Shutdown
            } else {
                old(self).state_of()
            },
    {
        if self.state != CoreState::Running {
            return Ok(());
        }
        self.state = CoreState::ShuttingDown;
        self.state = CoreState::Shutdown;
        Ok(())
    }

    /// Registers `entry` for exact action `action`.
    pub fn register_route(&mut self, action: &str, entry: RouteEntry) -> (r: Result<(), CoreError>)
        requires
            old(self).wf(),
        ensures
            r is Ok,
            final(self).wf(),
            final(self).config_of() == old(self).config_of(),
            final(self).state_of() == old(self).state_of(),
            final(self).started() == old(self).started(),
            final(self).table().routes_for(action@) == crate::router::route_table::insert_by_priority(
                old(self).table().routes_for(action@),
                entry,
            ),
            forall|a: Seq<char>| a != action@ ==> #[trigger] final(self).table().routes_for(a) == old(
                self,
            ).table().routes_for(a),
            final(self).table().custom() == old(self).table().custom(),
            final(self).table().prefixes() == old(self).table().prefixes(),
            final(self).table().default_entry() == old(self).table().default_entry(),
    {
        self.route_table.register_action_route(action, entry)
    }

    /// Answers `request`, `elapsed_ms` after it came in: a kernel that is
    /// not running answers 503 `CORE_NOT_RUNNING` at once; a request no
    /// route takes is answered 404 `ROUTE_NOT_FOUND`; any other succeeds
    /// with [`route_payload`] of its route's module.
    pub fn route(&self, request: &RouteRequest, elapsed_ms: u64) -> (r: RouteResponse)
        requires
            self.wf(),
        ensures
            self.state_of() != CoreState::Running ==> is_failure(
                r,
                request.request_id@,
                status_code::SERVICE_UNAVAILABLE,
                "CORE_NOT_RUNNING"@,
                "内核未运行"@,
                0,
            ),
            self.state_of() == CoreState::Running ==> match self.table().lookup(request.action@) {
                None => is_failure(
                    r,
                    request.request_id@,
                    status_code::NOT_FOUND,
                    "ROUTE_NOT_FOUND"@,
                    "未找到路由: "@ + request.action@,
                    elapsed_ms,
                ),
                Some(e) => r.request_id@ == request.request_id@ && r.status == status_code::OK && r.error is None
                    && r.elapsed_ms == elapsed_ms && r.data == Some(route_payload(e.module_id@, request.action@)),
            },
    {
        if self.state != CoreState::Running {
            return RouteResponse::error(
                request.request_id.as_str(),
                status_code::SERVICE_UNAVAILABLE,
                ErrorInfo::new("CORE_NOT_RUNNING", "内核未运行"),
                0,
            );
        }
        match self.route_table.find_route(request.action.as_str()) {
            None => {
                let mut m = String::from_str("未找到路由: ");
                m.append(request.action.as_str());
                RouteResponse::error(
                    request.request_id.as_str(),
                    status_code::NOT_FOUND,
                    ErrorInfo::new("ROUTE_NOT_FOUND", m.as_str()),
                    elapsed_ms,
                )
            },
            Some(entry) => {
                let mut members: Vec<(String, serde_json::Value)> = Vec::new();
                members.push((String::from_str("module_id"), json_string(entry.module_id.as_str())));
                members.push((String::from_str("action"), json_string(request.action.as_str())));
                members.push((String::from_str("status"), json_string("placeholder")));
                proof {
                    assert(member_views(members@) =~= seq![
                        ("module_id"@, json_string_of(entry.module_id@)),
                        ("action"@, json_string_of(request.action@)),
                        ("status"@, json_string_of("placeholder"@)),
                    ]);
                }
                RouteResponse::success(request.request_id.as_str(), json_object(members), elapsed_ms)
            },
        }
    }

    /// The state.
    pub fn state(&self) -> (r: CoreState)
        ensures
            r == self.state_of(),
    {
        self.state
    }

    /// Whether the kernel is running.
    pub fn is_running(&self) -> (r: bool)
        ensures
            r == (self.state_of() == CoreState::Running),
    {
        self.state == CoreState::Running
    }

    /// The configuration.
    pub fn config(&self) -> (r: &CoreConfig)
        ensures
            *r == self.config_of(),
    {
        &self.config
    }

    /// The route table.
    pub fn route_table(&self) -> (r: &RouteTable)
        ensures
            *r == self.table(),
    {
        &self.route_table
    }

    /// How long the kernel has run at time `now`, if it started: `now`
    /// less the start time, or 0 for a time before it.
    pub fn uptime_ms(&self, now: i64) -> (r: Option<u64>)
        ensures
            match self.started() {
                None => r is None,
                Some(s) => r == Some(if now > s { (now - s) as u64 } else { 0u64 }),
            },
    {
        match self.started_at {
            None => None,
            Some(s) => {
                if now > s {
                    let d: i128 = (now as i128) - (s as i128);
                    Some(d as u64)
                } else {
                    Some(0)
                }
            },
        }
    }
}

} // verus!
