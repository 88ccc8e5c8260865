//! The lifecycle of modules: their states, whether a module may start or
//! stop, and their health, checked and cached.
//!
//! The hooks of a module run in its runtime, which the caller drives; the
//! functions here decide from the module's state what happens around them,
//! and record what comes of it.

use vstd::prelude::*;

use super::loader::{state_name, state_name_of};
use super::metadata::{HealthStatus, ModuleState};
use crate::utils::error::{CoreError, ErrorView};
use crate::utils::text::str_eq;

verus! {

/// What to do when asked to start or stop a module.
#[derive(Debug, Clone, Copy, PartialEq, Eq, Structural)]
pub enum Transition {
    /// Go ahead: run the hook and change the state.
    Proceed,
    /// Nothing to do: the module is already where it was asked to go.
    AlreadyThere,
}

/// Whether a module in state `state` (unknown when `None`) may start:
/// loaded or stopped modules start, a running one is left as it is, an
/// unknown one gives `ModuleNotLoaded`, any other `ModuleLoadFailed`.
pub fn check_start(module_id: &str, state: Option<ModuleState>) -> (r: Result<Transition, CoreError>)
    ensures
        match state {
            None => r matches Err(e) && e@ == ErrorView::ModuleNotLoaded(module_id@),
            Some(s) => if s == ModuleState::Loaded || s == ModuleState::Stopped {
                r == Ok::<Transition, CoreError>(Transition::Proceed)
            } else if s == ModuleState::Running {
                r == Ok::<Transition, CoreError>(Transition::AlreadyThere)
            } else {
                r matches Err(e) && e@ == ErrorView::ModuleLoadFailed {
                    module_id: module_id@,
                    reason: "模块状态 "@ + state_name(s) + " 不允许启动"@,
                }
            },
        },
{
    match state {
        None => Err(CoreError::ModuleNotLoaded(module_id.to_owned())),
        Some(s) => {
            if s.can_start() {
                Ok(Transition::Proceed)
            } else if s == ModuleState::Running {
                Ok(Transition::AlreadyThere)
            } else {
                let mut reason = String::from_str("模块状态 ");
                let name = state_name_of(s);
                reason.append(name.as_str());
                reason.append(" 不允许启动");
                Err(CoreError::ModuleLoadFailed { module_id: module_id.to_owned(), reason })
            }
        },
    }
}

/// Whether a module in state `state` (unknown when `None`) may stop:
/// running modules stop, a stopped one is left as it is, an unknown one
/// gives `ModuleNotLoaded`, any other `ModuleUnloadFailed`.
pub fn check_stop(module_id: &str, state: Option<ModuleState>) -> (r: Result<Transition, CoreError>)
    ensures
        match state {
            None => r matches Err(e) && e@ == ErrorView::ModuleNotLoaded(module_id@),
            Some(s) => if s == ModuleState::Running {
                r == Ok::<Transition, CoreError>(Transition::Proceed)
            } else if s == ModuleState::Stopped {
                r == Ok::<Transition, CoreError>(Transition::AlreadyThere)
            } else {
                r matches Err(e) && e@ == ErrorView::ModuleUnloadFailed {
                    module_id: module_id@,
                    reason: "模块状态 "@ + state_name(s) + " 不允许停止"@,
                }
            },
        },
{
    match state {
        None => Err(CoreError::ModuleNotLoaded(module_id.to_owned())),
        Some(s) => {
            if s.can_stop() {
                Ok(Transition::Proceed)
            } else if s == ModuleState::Stopped {
                Ok(Transition::AlreadyThere)
            } else {
                let mut reason = String::from_str("模块状态 ");
                let name = state_name_of(s);
                reason.append(name.as_str());
                reason.append(" 不允许停止");
                Err(CoreError::ModuleUnloadFailed { module_id: module_id.to_owned(), reason })
            }
        },
    }
}

/// The state a module ends in after its start hook ran: running, or error
/// when the hook failed.
pub fn state_after_start(hook_ok: bool) -> (r: ModuleState)
    ensures
        r == if hook_ok { ModuleState::Running } else { ModuleState::Error },
{
    if hook_ok {
        ModuleState::Running
    } else {
        ModuleState::Error
    }
}

/// The state a module ends in after its stop hook ran: stopped, whether or
/// not the hook failed.
pub fn state_after_stop(hook_ok: bool) -> (r: ModuleState)
    ensures
        r == ModuleState::Stopped,
{
    ModuleState::Stopped
}

/// The health of a module in state `state` (unknown when `None`) that can
/// be told without asking its runtime, at time `now`: an unknown module
/// gives `ModuleNotLoaded`; a failed one is unhealthy; one that is not
/// running is degraded; for a running one the runtime must be asked
/// (`None`).
pub fn health_before_check(module_id: &str, state: Option<ModuleState>, now: i64) -> (r: Result<Option<HealthStatus>, CoreError>)
    ensures
        match state {
            None => r matches Err(e) && e@ == ErrorView::ModuleNotLoaded(module_id@),
            Some(s) => if s == ModuleState::Error {
                r matches Ok(Some(h)) && h.status@ == "unhealthy"@ && (h.reason matches Some(x) && x@ == "模块处于错误状态"@)
                    && h.checked_at == now
            } else if s != ModuleState::Running {
                r matches Ok(Some(h)) && h.status@ == "degraded"@ && (h.reason matches Some(x) && x@ == "模块未运行，当前状态: "@
                    + state_name(s)) && h.checked_at == now
            } else {
                r matches Ok(None)
            },
        },
{
    match state {
        None => Err(CoreError::ModuleNotLoaded(module_id.to_owned())),
        Some(ModuleState::Error) => Ok(Some(HealthStatus::unhealthy_at("模块处于错误状态", now))),
        Some(ModuleState::Running) => Ok(None),
        Some(s) => {
            let mut reason = String::from_str("模块未运行，当前状态: ");
            let name = state_name_of(s);
            reason.append(name.as_str());
            Ok(Some(HealthStatus::degraded_at(reason.as_str(), now)))
        },
    }
}

/// The health of a running module from its runtime's answer: the status it
/// reported, or healthy at time `now` when it reported none that could be
/// read.
pub fn health_from_reply(reply: Option<HealthStatus>, now: i64) -> (r: HealthStatus)
    ensures
        match reply {
            Some(h) => r == h,
            None => r.status@ == "healthy"@ && r.reason is None && r.checked_at == now,
        },
{
    match reply {
        Some(h) => h,
        None => HealthStatus::healthy_at(now),
    }
}

type Name = Seq<char>;

/// The keys of a keyed list.
pub open spec fn keys_of<V>(s: Seq<(Name, V)>) -> Seq<Name> {
    s.map_values(|p: (Name, V)| p.0)
}

/// The value of key `k` in a keyed list, if it is there.
pub open spec fn value_of<V>(s: Seq<(Name, V)>, k: Name) -> Option<V> {
    if keys_of(s).contains(k) {
        Some(s[keys_of(s).index_of(k)].1)
    } else {
        None
    }
}

/// A keyed list with key `k` set to `v`: in place when it is there, else
/// at the end.
pub open spec fn put<V>(s: Seq<(Name, V)>, k: Name, v: V) -> Seq<(Name, V)> {
    if keys_of(s).contains(k) {
        s.update(keys_of(s).index_of(k), (k, v))
    } else {
        s.push((k, v))
    }
}

/// The names and values of a list of entries.
pub open spec fn entry_views<V>(v: Seq<(String, V)>) -> Seq<(Name, V)> {
    v.map_values(|p: (String, V)| (p.0@, p.1))
}

/// The keys of `s[..n]` whose value is `state`, in order.
pub open spec fn keys_in_state(s: Seq<(Name, ModuleState)>, state: ModuleState, n: nat) -> Seq<Name>
    decreases n,
{
    if n == 0 || n > s.len() {
        Seq::empty()
    } else {
        let r = keys_in_state(s, state, (n - 1) as nat);
        if s[n - 1].1 == state {
            r.push(s[n - 1].0)
        } else {
            r
        }
    }
}

/// In a list without repeated keys, a key's position is where it stands.
proof fn lemma_key_index<V>(s: Seq<(Name, V)>, i: int)
    requires
        keys_of(s).no_duplicates(),
        0 <= i < s.len(),
    ensures
        keys_of(s).contains(s[i].0),
        keys_of(s).index_of(s[i].0) == i,
{
    let ks = keys_of(s);
    assert(ks[i] == s[i].0);
    let j = ks.index_of(s[i].0);
    assert(ks[j] == ks[i]);
}

/// The position of key `k` in `v`.
fn find_key<V>(v: &Vec<(String, V)>, k: &str) -> (r: Option<usize>)
    requires
        keys_of(entry_views(v@)).no_duplicates(),
    ensures
        match r {
            Some(i) => i < v@.len() && keys_of(entry_views(v@)).contains(k@) && keys_of(entry_views(v@)).index_of(k@)
                == i,
            None => !keys_of(entry_views(v@)).contains(k@),
        },
{
    let ghost s = entry_views(v@);
    let mut i: usize = 0;
    while i < v.len()
        invariant
            i <= v.len(),
            s == entry_views(v@),
            keys_of(s).no_duplicates(),
            forall|j: int| 0 <= j < i ==> keys_of(s)[j] != k@,
        decreases v.len() - i,
    {
        if str_eq(v[i].0.as_str(), k) {
            proof {
                assert(keys_of(s)[i as int] == k@);
                lemma_key_index(s, i as int);
            }
            return Some(i);
        }
        i = i + 1;
    }
    proof {
        if keys_of(s).contains(k@) {
            let j = choose|j: int| 0 <= j < keys_of(s).len() && keys_of(s)[j] == k@;
        }
    }
    None
}

/// Sets key `k` of `v` to `val`.
fn put_entry<V>(v: &mut Vec<(String, V)>, k: &str, val: V)
    requires
        keys_of(entry_views(old(v)@)).no_duplicates(),
    ensures
        entry_views(final(v)@) == put(entry_views(old(v)@), k@, val),
        keys_of(entry_views(final(v)@)).no_duplicates(),
{
    let ghost s0 = entry_views(v@);
    match find_key(v, k) {
        Some(i) => {
            let key = k.to_owned();
            v.set(i, (key, val));
            proof {
                assert(entry_views(v@) =~= s0.update(i as int, (k@, val)));
                assert(keys_of(entry_views(v@)) =~= keys_of(s0));
            }
        },
        None => {
            v.push((k.to_owned(), val));
            proof {
                assert(entry_views(v@) =~= s0.push((k@, val)));
                assert(keys_of(entry_views(v@)) =~= keys_of(s0).push(k@));
            }
        },
    }
}

/// The states of modules and their last health, each by module id, in the
/// order first recorded.
pub struct LifecycleManager {
    states: Vec<(String, ModuleState)>,
    health_cache: Vec<(String, HealthStatus)>,
}

impl LifecycleManager {
    /// Each module's state, in the order first recorded.
    pub closed spec fn states(&self) -> Seq<(Name, ModuleState)> {
        entry_views(self.states@)
    }

    /// Each module's last health, in the order first recorded.
    pub closed spec fn healths(&self) -> Seq<(Name, HealthStatus)> {
        entry_views(self.health_cache@)
    }

    /// No module is recorded twice.
    pub closed spec fn wf(&self) -> bool {
        &&& keys_of(self.states()).no_duplicates()
        &&& keys_of(self.healths()).no_duplicates()
    }

    /// A manager that knows no module.
    pub fn new() -> (r: Self)
        ensures
            r.wf(),
            r.states().len() == 0,
            r.healths().len() == 0,
    {
        let r = LifecycleManager { states: Vec::new(), health_cache: Vec::new() };
        proof {
            assert(keys_of(r.states()) =~= Seq::<Name>::empty());
            assert(keys_of(r.healths()) =~= Seq::<Name>::empty());
        }
        r
    }

    /// The state of module `module_id`, if known.
    pub fn get_state(&self, module_id: &str) -> (r: Option<ModuleState>)
        requires
            self.wf(),
        ensures
            r == value_of(self.states(), module_id@),
    {
        match find_key(&self.states, module_id) {
            Some(i) => Some(self.states[i].1),
            None => None,
        }
    }

    /// Sets the state of module `module_id`.
    pub fn set_state(&mut self, module_id: &str, state: ModuleState)
        requires
            old(self).wf(),
        ensures
            final(self).wf(),
            final(self).states() == put(old(self).states(), module_id@, state),
            final(self).healths() == old(self).healths(),
    {
        put_entry(&mut self.states, module_id, state);
    }

    /// Records module `module_id`, in state registered.
    pub fn register_module(&mut self, module_id: &str)
        requires
            old(self).wf(),
        ensures
            final(self).wf(),
            final(self).states() == put(old(self).states(), module_id@, ModuleState::Registered),
            final(self).healths() == old(self).healths(),
    {
        self.set_state(module_id, ModuleState::Registered);
    }

    /// The ids of the modules in `state`, in the order first recorded.
    pub fn get_modules_by_state(&self, state: ModuleState) -> (r: Vec<String>)
        ensures
            r.deep_view() == keys_in_state(self.states(), state, self.states().len()),
    {
        let ghost s = self.states();
        let mut r: Vec<String> = Vec::new();
        let mut i: usize = 0;
        proof {
            assert(r.deep_view() =~= Seq::<Name>::empty());
        }
        while i < self.states.len()
            invariant
                i <= self.states.len(),
                s == entry_views(self.states@),
                r.deep_view() == keys_in_state(s, state, i as nat),
            decreases self.states.len() - i,
        {
            if self.states[i].1 == state {
                let ghost before = r.deep_view();
                r.push(self.states[i].0.clone());
                proof {
                    assert(r.deep_view() =~= before.push(s[i as int].0));
                }
            }
            i = i + 1;
        }
        r
    }

    /// The ids of the modules known, in the order first recorded.
    pub fn module_ids(&self) -> (r: Vec<String>)
        ensures
            r.deep_view() == keys_of(self.states()),
    {
        let ghost s = self.states();
        let mut r: Vec<String> = Vec::new();
        let mut i: usize = 0;
        while i < self.states.len()
            invariant
                i <= self.states.len(),
                s == entry_views(self.states@),
                r.deep_view() == keys_of(s).take(i as int),
            decreases self.states.len() - i,
        {
            let ghost before = r.deep_view();
            r.push(self.states[i].0.clone());
            proof {
                assert(r.deep_view() =~= before.push(s[i as int].0));
                assert(keys_of(s).take(i + 1) =~= keys_of(s).take(i as int).push(s[i as int].0));
            }
            i = i + 1;
        }
        proof {
            assert(keys_of(s).take(i as int) =~= keys_of(s));
        }
        r
    }

    /// Each known module with its state, in the order first recorded.
    pub fn get_all_states(&self) -> (r: Vec<(String, ModuleState)>)
        ensures
            entry_views(r@) == self.states(),
    {
        let ghost s = self.states();
        let mut r: Vec<(String, ModuleState)> = Vec::new();
        let mut i: usize = 0;
        while i < self.states.len()
            invariant
                i <= self.states.len(),
                s == entry_views(self.states@),
                entry_views(r@) == s.take(i as int),
            decreases self.states.len() - i,
        {
            let ghost before = entry_views(r@);
            r.push((self.states[i].0.clone(), self.states[i].1));
            proof {
                assert(entry_views(r@) =~= before.push(s[i as int]));
                assert(s.take(i + 1) =~= s.take(i as int).push(s[i as int]));
            }
            i = i + 1;
        }
        proof {
            assert(s.take(i as int) =~= s);
        }
        r
    }

    /// The last health recorded for module `module_id`.
    pub fn get_cached_health(&self, module_id: &str) -> (r: Option<&HealthStatus>)
        requires
            self.wf(),
        ensures
            match r {
                Some(h) => value_of(self.healths(), module_id@) == Some(*h),
                None => value_of(self.healths(), module_id@) is None,
            },
    {
        match find_key(&self.health_cache, module_id) {
            Some(i) => Some(&self.health_cache[i].1),
            None => None,
        }
    }

    /// Records `status` as the last health of module `module_id`.
    pub fn cache_health_status(&mut self, module_id: &str, status: HealthStatus)
        requires
            old(self).wf(),
        ensures
            final(self).wf(),
            final(self).healths() == put(old(self).healths(), module_id@, status),
            final(self).states() == old(self).states(),
    {
        put_entry(&mut self.health_cache, module_id, status);
    }

    /// Checks that module `module_id` may start (see [`check_start`]) and,
    /// when it goes ahead, marks it starting; its start hook runs next.
    pub fn begin_start(&mut self, module_id: &str) -> (r: Result<Transition, CoreError>)
        requires
            old(self).wf(),
        ensures
            final(self).wf(),
            final(self).healths() == old(self).healths(),
            match value_of(old(self).states(), module_id@) {
                None => r matches Err(e) && e@ == ErrorView::ModuleNotLoaded(module_id@),
                Some(s) => if s == ModuleState::Loaded || s == ModuleState::Stopped {
                    r == Ok::<Transition, CoreError>(Transition::Proceed)
                } else if s == ModuleState::Running {
                    r == Ok::<Transition, CoreError>(Transition::AlreadyThere)
                } else {
                    r matches Err(e) && e@ == ErrorView::ModuleLoadFailed {
                        module_id: module_id@,
                        reason: "模块状态 "@ + state_name(s) + " 不允许启动"@,
                    }
                },
            },
            r == Ok::<Transition, CoreError>(Transition::Proceed) ==> final(self).states() == put(
                old(self).states(),
                module_id@,
                ModuleState::Starting,
            ),
            r != Ok::<Transition, CoreError>(Transition::Proceed) ==> final(self).states() == old(self).states(),
    {
        let state = self.get_state(module_id);
        let r = check_start(module_id, state);
        if let Ok(Transition::Proceed) = r {
            self.set_state(module_id, ModuleState::Starting);
        }
        r
    }

    /// Records the end of a start whose hook succeeded (`hook_ok`) or
    /// failed: running, or failed.
    pub fn finish_start(&mut self, module_id: &str, hook_ok: bool)
        requires
            old(self).wf(),
        ensures
            final(self).wf(),
            final(self).states() == put(
                old(self).states(),
                module_id@,
                if hook_ok {
                    ModuleState::Running
                } else {
                    ModuleState::Error
                },
            ),
            final(self).healths() == old(self).healths(),
    {
        self.set_state(module_id, state_after_start(hook_ok));
    }

    /// Checks that module `module_id` may stop (see [`check_stop`]) and,
    /// when it goes ahead, marks it stopping; its stop hook runs next.
    pub fn begin_stop(&mut self, module_id: &str) -> (r: Result<Transition, CoreError>)
        requires
            old(self).wf(),
        ensures
            final(self).wf(),
            final(self).healths() == old(self).healths(),
            match value_of(old(self).states(), module_id@) {
                None => r matches Err(e) && e@ == ErrorView::ModuleNotLoaded(module_id@),
                Some(s) => if s == ModuleState::Running {
                    r == Ok::<Transition, CoreError>(Transition::Proceed)
                } else if s == ModuleState::Stopped {
                    r == Ok::<Transition, CoreError>(Transition::AlreadyThere)
                } else {
                    r matches Err(e) && e@ == ErrorView::ModuleUnloadFailed {
                        module_id: module_id@,
                        reason: "模块状态 "@ + state_name(s) + " 不允许停止"@,
                    }
                },
            },
            r == Ok::<Transition, CoreError>(Transition::Proceed) ==> final(self).states() == put(
                old(self).states(),
                module_id@,
                ModuleState::Stopping,
            ),
            r != Ok::<Transition, CoreError>(Transition::Proceed) ==> final(self).states() == old(self).states(),
    {
        let state = self.get_state(module_id);
        let r = check_stop(module_id, state);
        if let Ok(Transition::Proceed) = r {
            self.set_state(module_id, ModuleState::Stopping);
        }
        r
    }

    /// Records the end of a stop: stopped, whether the hook succeeded or
    /// not.
    pub fn finish_stop(&mut self, module_id: &str, hook_ok: bool)
        requires
            old(self).wf(),
        ensures
            final(self).wf(),
            final(self).states() == put(old(self).states(), module_id@, ModuleState::Stopped),
            final(self).healths() == old(self).healths(),
    {
        self.set_state(module_id, state_after_stop(hook_ok));
    }

    /// The health of module `module_id` at time `now` when it can be told
    /// without asking its runtime (see [`health_before_check`]), recorded as
    /// its last health; `None` when its runtime must be asked.
    pub fn health_precheck(&mut self, module_id: &str, now: i64) -> (r: Result<Option<HealthStatus>, CoreError>)
        requires
            old(self).wf(),
        ensures
            final(self).wf(),
            final(self).states() == old(self).states(),
            match value_of(old(self).states(), module_id@) {
                None => (r matches Err(e) && e@ == ErrorView::ModuleNotLoaded(module_id@)) && final(self).healths()
                    == old(self).healths(),
                Some(s) => if s == ModuleState::Error {
                    r matches Ok(Some(h)) && h.status@ == "unhealthy"@ && (h.reason matches Some(x) && x@
                        == "模块处于错误状态"@) && h.checked_at == now && final(self).healths() == put(
                        old(self).healths(),
                        module_id@,
                        h,
                    )
                } else if s != ModuleState::Running {
                    r matches Ok(Some(h)) && h.status@ == "degraded"@ && (h.reason matches Some(x) && x@
                        == "模块未运行，当前状态: "@ + state_name(s)) && h.checked_at == now && final(self).healths()
                        == put(old(self).healths(), module_id@, h)
                } else {
                    r matches Ok(None) && final(self).healths() == old(self).healths()
                },
            },
    {
        let state = self.get_state(module_id);
        match health_before_check(module_id, state, now) {
            Err(e) => Err(e),
            Ok(None) => Ok(None),
            Ok(Some(h)) => {
                let copy = HealthStatus { status: h.status.clone(), reason: h.reason.clone(), checked_at: h.checked_at };
                self.cache_health_status(module_id, copy);
                Ok(Some(h))
            },
        }
    }
}

} // verus!
