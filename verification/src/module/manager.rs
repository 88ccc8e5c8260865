//! Decisions of the module manager: the dependency graph of the registered
//! modules, the order modules load in, and whether a module may be loaded,
//! unloaded, or installed while the kernel runs.

use vstd::prelude::*;

use super::dependency::{cycle_text, empty_graph, DependencyGraph, GraphView};
use super::loader::{drop_dependent, state_name, state_name_of, ModuleLoader};
use super::metadata::{Dependency, HealthStatus, ModuleInfo, ModuleMetadata, ModuleState};
use super::parser::parser_problems;
use super::registry::{ids_of, index_of_id, ModuleRegistry};
use super::runtime::RustRuntimeManager;
use crate::router::event::Event;
use crate::router::route_table::{without_module, RouteEntry, RouteTable};
use crate::router::system_events;
use crate::utils::error::{CoreError, ErrorView};
use crate::utils::json::{json_object, json_object_of, json_string, json_string_of, member_views};
use crate::utils::text::{join, join_names, position_of, str_eq};

verus! {

type Name = Seq<char>;

/// Settings of the module manager.
#[derive(Debug, Clone)]
pub struct ModuleManagerConfig {
    /// Directories searched for modules.
    pub module_dirs: Vec<String>,
    /// Whether modules may be installed and removed while running.
    pub hot_reload: bool,
    /// Seconds between health checks.
    pub health_check_interval_secs: u64,
    /// Modules loaded at start.
    pub auto_load: Vec<String>,
}

impl Default for ModuleManagerConfig {
    fn default() -> (r: Self)
        ensures
            r.module_dirs@.len() == 0,
            r.hot_reload,
            r.health_check_interval_secs == 30,
            r.auto_load@.len() == 0,
    {
        ModuleManagerConfig { module_dirs: Vec::new(), hot_reload: true, health_check_interval_secs: 30, auto_load: Vec::new() }
    }
}

/// `g` with the edges of dependencies `deps[..n]` of module `m`.
pub open spec fn with_dependency_edges(g: GraphView, m: Name, deps: Seq<Dependency>, n: nat) -> GraphView
    decreases n,
{
    if n == 0 || n > deps.len() {
        g
    } else {
        with_dependency_edges(g, m, deps, (n - 1) as nat).with_edge(m, deps[n - 1].module_id@)
    }
}

/// The graph of the first `n` modules: each module, and an edge for each
/// dependency it declares, whether or not that module is registered.
pub open spec fn declared_graph(mods: Seq<ModuleInfo>, n: nat) -> GraphView
    decreases n,
{
    if n == 0 || n > mods.len() {
        empty_graph()
    } else {
        let m = mods[n - 1];
        with_dependency_edges(
            declared_graph(mods, (n - 1) as nat).with_node(m.metadata.id@),
            m.metadata.id@,
            m.metadata.dependencies@,
            m.metadata.dependencies@.len(),
        )
    }
}

/// The graph of `modules`: each module, and an edge for each dependency it
/// declares.
pub fn declared_dependency_graph(modules: &Vec<ModuleInfo>) -> (g: DependencyGraph)
    ensures
        g.wf(),
        g@ == declared_graph(modules@, modules@.len()),
{
    let mut graph = DependencyGraph::new();
    let mut i: usize = 0;
    while i < modules.len()
        invariant
            i <= modules.len(),
            graph.wf(),
            graph@ == declared_graph(modules@, i as nat),
        decreases modules.len() - i,
    {
        let m = &modules[i];
        graph.add_module(m.metadata.id.as_str());
        let ghost g1 = graph@;
        let deps = &m.metadata.dependencies;
        let mut j: usize = 0;
        while j < deps.len()
            invariant
                j <= deps.len(),
                graph.wf(),
                graph@ == with_dependency_edges(g1, m.metadata.id@, deps@, j as nat),
            decreases deps.len() - j,
        {
            graph.add_dependency(m.metadata.id.as_str(), deps[j].module_id.as_str());
            j = j + 1;
        }
        i = i + 1;
    }
    graph
}

/// The error naming a cycle of `graph`, its modules joined by ` -> `, when
/// it has one.
pub fn cycle_error(graph: &DependencyGraph) -> (r: Option<CoreError>)
    requires
        graph.wf(),
    ensures
        graph@.acyclic() ==> r is None,
        !graph@.acyclic() ==> (r matches Some(e) && graph@.is_cycle_error(e)),
{
    if graph.has_cycle() {
        match graph.find_cycle() {
            Some(c) => {
                let msg = join_names(&c, " -> ");
                proof {
                    reveal_strlit(" -> ");
                    assert(" -> "@ =~= seq![' ', '-', '>', ' ']);
                    assert(graph@.is_simple_cycle(c.deep_view()));
                }
                let e = CoreError::CircularDependency(msg);
                proof {
                    assert(msg@ == cycle_text(c.deep_view()));
                    assert(graph@.is_cycle_error(e));
                }
                return Some(e);
            },
            None => {},
        }
    }
    None
}

/// The order in which module `module_id` and what it needs load: every
/// module it reaches in `graph`, each after those it depends on when the
/// graph has no cycle, then the module itself unless it was reached.
pub fn load_order(graph: &DependencyGraph, module_id: &str) -> (r: Vec<String>)
    requires
        graph.wf(),
    ensures
        r.deep_view().no_duplicates(),
        r.deep_view().contains(module_id@),
        forall|x: Name| #[trigger] r.deep_view().contains(x) <==> (graph@.reaches(module_id@, x) || x == module_id@),
{
    let mut order = graph.get_all_dependencies(module_id);
    let ghost first = order.deep_view();
    if position_of(&order, module_id).is_none() {
        let ghost before = order.deep_view();
        order.push(module_id.to_owned());
        proof {
            assert(order.deep_view() =~= before.push(module_id@));
            assert(order.deep_view()[before.len() as int] == module_id@);
            assert forall|x: Name| #[trigger] order.deep_view().contains(x) <==> (graph@.reaches(module_id@, x) || x == module_id@) by {
                if order.deep_view().contains(x) && x != module_id@ {
                    let p = choose|p: int| 0 <= p < order.deep_view().len() && order.deep_view()[p] == x;
                    assert(before[p] == x);
                    assert(before.contains(x));
                    assert(first.contains(x));
                }
                if x == module_id@ {
                    assert(order.deep_view()[before.len() as int] == x);
                }
                if graph@.reaches(module_id@, x) {
                    assert(before.contains(x));
                    let p = choose|p: int| 0 <= p < before.len() && before[p] == x;
                    assert(order.deep_view()[p] == x);
                }
            }
        }
    }
    order
}

/// Whether module `module_id`, registered as `info` (if at all), may be
/// loaded: `ModuleNotFound` when it is not registered, `ModuleLoadFailed`
/// when its state does not allow loading.
pub fn check_load(module_id: &str, info: Option<&ModuleInfo>) -> (r: Result<(), CoreError>)
    ensures
        match info {
            None => r matches Err(e) && e@ == ErrorView::ModuleNotFound(module_id@),
            Some(m) => if m.state == ModuleState::Registered || m.state == ModuleState::Unloaded {
                r is Ok
            } else {
                r matches Err(e) && e@ == ErrorView::ModuleLoadFailed {
                    module_id: module_id@,
                    reason: "模块当前状态 "@ + state_name(m.state) + " 不允许加载"@,
                }
            },
        },
{
    match info {
        None => Err(CoreError::ModuleNotFound(module_id.to_owned())),
        Some(m) => {
            if m.state.can_load() {
                Ok(())
            } else {
                let mut reason = String::from_str("模块当前状态 ");
                let name = state_name_of(m.state);
                reason.append(name.as_str());
                reason.append(" 不允许加载");
                Err(CoreError::ModuleLoadFailed { module_id: module_id.to_owned(), reason })
            }
        },
    }
}

/// The dependents among `dependents[..n]` that are registered and loaded
/// or running, in order.
pub open spec fn active_dependents(mods: Seq<ModuleInfo>, dependents: Seq<Name>, n: nat) -> Seq<Name>
    decreases n,
{
    if n == 0 || n > dependents.len() {
        Seq::empty()
    } else {
        let r = active_dependents(mods, dependents, (n - 1) as nat);
        let d = dependents[n - 1];
        match index_of_id(mods, d) {
            Some(i) => if mods[i].state == ModuleState::Running || mods[i].state == ModuleState::Loaded {
                r.push(d)
            } else {
                r
            },
            None => r,
        }
    }
}

/// Whether module `module_id` may be unloaded, given the modules that
/// depend on it: `ModuleNotFound` when it is not registered,
/// `ModuleUnloadFailed` when its state does not allow unloading, and
/// `ModuleHasDependents` listing the dependents that are loaded or running.
pub fn check_unload(registry: &ModuleRegistry, module_id: &str, dependents: &Vec<String>) -> (r: Result<(), CoreError>)
    requires
        registry.wf(),
    ensures
        match index_of_id(registry.entries(), module_id@) {
            None => r matches Err(e) && e@ == ErrorView::ModuleNotFound(module_id@),
            Some(i) => {
                let s = registry.entries()[i].state;
                let active = active_dependents(registry.entries(), dependents.deep_view(), dependents@.len());
                if !(s == ModuleState::Loaded || s == ModuleState::Stopped || s == ModuleState::Error) {
                    r matches Err(e) && e@ == ErrorView::ModuleUnloadFailed {
                        module_id: module_id@,
                        reason: "模块当前状态 "@ + state_name(s) + " 不允许卸载"@,
                    }
                } else if active.len() > 0 {
                    r matches Err(e) && e@ == ErrorView::ModuleHasDependents { module: module_id@, dependents: active }
                } else {
                    r is Ok
                }
            },
        },
{
    let info = match registry.get_module(module_id) {
        None => {
            return Err(CoreError::ModuleNotFound(module_id.to_owned()));
        },
        Some(m) => m,
    };
    if !info.state.can_unload() {
        let mut reason = String::from_str("模块当前状态 ");
        let name = state_name_of(info.state);
        reason.append(name.as_str());
        reason.append(" 不允许卸载");
        return Err(CoreError::ModuleUnloadFailed { module_id: module_id.to_owned(), reason });
    }
    let mut active: Vec<String> = Vec::new();
    let mut k: usize = 0;
    proof {
        assert(active.deep_view() =~= Seq::<Name>::empty());
    }
    while k < dependents.len()
        invariant
            registry.wf(),
            k <= dependents.len(),
            active.deep_view() == active_dependents(registry.entries(), dependents.deep_view(), k as nat),
        decreases dependents.len() - k,
    {
        match registry.get_module(dependents[k].as_str()) {
            Some(d) => {
                if d.state == ModuleState::Running || d.state == ModuleState::Loaded {
                    let ghost before = active.deep_view();
                    active.push(dependents[k].clone());
                    proof {
                        assert(active.deep_view() =~= before.push(dependents.deep_view()[k as int]));
                    }
                }
            },
            None => {},
        }
        k = k + 1;
    }
    if active.len() > 0 {
        return Err(CoreError::ModuleHasDependents { module: module_id.to_owned(), dependents: active });
    }
    Ok(())
}

/// Whether modules may be installed or removed while running:
/// `InitFailed` when hot reload is off.
pub fn check_hot_reload(hot_reload: bool) -> (r: Result<(), CoreError>)
    ensures
        hot_reload ==> r is Ok,
        !hot_reload ==> (r matches Err(e) && e@ == ErrorView::InitFailed("热插拔未启用"@)),
{
    if hot_reload {
        Ok(())
    } else {
        Err(CoreError::InitFailed(String::from_str("热插拔未启用")))
    }
}

/// Whether `p` is the route of action `action` to module `module_id`: an
/// exact route of priority 0, enabled, without description.
pub open spec fn is_action_route(p: (String, RouteEntry), action: Seq<char>, module_id: Seq<char>) -> bool {
    &&& p.0@ == action
    &&& p.1.module_id@ == module_id
    &&& p.1.pattern@ == action
    &&& p.1.route_type == crate::router::route_table::RouteType::Exact
    &&& p.1.priority == 0
    &&& p.1.enabled
    &&& p.1.description is None
}

/// The routes a loaded module brings: for each action it provides, in
/// order, an exact route of that action to the module.
pub fn module_routes(module_id: &str, info: &ModuleInfo) -> (r: Vec<(String, RouteEntry)>)
    ensures
        r@.len() == info.metadata.interfaces.provides@.len(),
        forall|i: int| 0 <= i < r@.len() ==> #[trigger] is_action_route(r@[i], info.metadata.interfaces.provides@[i]@, module_id@),
{
    let actions = &info.metadata.interfaces.provides;
    let mut r: Vec<(String, RouteEntry)> = Vec::new();
    let mut i: usize = 0;
    while i < actions.len()
        invariant
            i <= actions.len(),
            r@.len() == i,
            forall|j: int| 0 <= j < i ==> #[trigger] is_action_route(r@[j], actions@[j]@, module_id@),
        decreases actions.len() - i,
    {
        let entry = RouteEntry::exact(module_id, actions[i].as_str());
        let a = actions[i].clone();
        let ghost before = r@;
        r.push((a, entry));
        proof {
            assert forall|j: int| 0 <= j < i + 1 implies #[trigger] is_action_route(r@[j], actions@[j]@, module_id@) by {
                if j < i {
                    assert(r@[j] == before[j]);
                }
            }
        }
        i = i + 1;
    }
    r
}

/// The state of module `k` in `mods`, if it is there.
pub open spec fn state_in(mods: Seq<ModuleInfo>, k: Name) -> Option<ModuleState> {
    match index_of_id(mods, k) {
        Some(i) => Some(mods[i].state),
        None => None,
    }
}

/// Whether a module in state `s` may be loaded.
pub open spec fn loadable(s: ModuleState) -> bool {
    s == ModuleState::Registered || s == ModuleState::Unloaded
}

/// Whether the loader holds a module in state `s`: loaded, running, or
/// being loaded.
pub open spec fn held(s: ModuleState) -> bool {
    s == ModuleState::Loaded || s == ModuleState::Running || s == ModuleState::Loading
}

/// The same modules, in the same order and with the same descriptions:
/// only their states, times and errors may differ.
pub open spec fn same_modules(a: Seq<ModuleInfo>, b: Seq<ModuleInfo>) -> bool {
    &&& a.len() == b.len()
    &&& forall|j: int| 0 <= j < a.len() ==> (#[trigger] a[j]).metadata == b[j].metadata
}

/// Every module the loader holds is registered, in a state from which it
/// cannot be loaded again.
pub open spec fn loads_agree(loads: Map<Name, ModuleState>, mods: Seq<ModuleInfo>) -> bool {
    forall|k: Name|
        #[trigger] loads.contains_key(k) && held(loads[k]) ==> (state_in(mods, k) matches Some(s) && !loadable(s))
}

/// Whether `e` is the event of `kind` the module manager publishes about
/// module `id`: sent by `module_manager`, with the data
/// `{"module_id": id}`.
pub open spec fn is_module_event(e: Event, kind: Seq<char>, id: Name) -> bool {
    &&& e.event_type@ == kind
    &&& e.sender@ == "module_manager"@
    &&& e.data == json_object_of(seq![("module_id"@, json_string_of(id))])
    &&& e.propagate
    &&& e.metadata@.len() == 0
}

/// `after` is `before` with one more event, of `kind` about module `id`.
pub open spec fn one_more_event(before: Seq<Event>, after: Seq<Event>, kind: Seq<char>, id: Name) -> bool {
    &&& after.len() == before.len() + 1
    &&& after.take(before.len() as int) == before
    &&& is_module_event(after.last(), kind, id)
}

/// Same modules give the same positions.
pub proof fn lemma_same_modules_index(a: Seq<ModuleInfo>, b: Seq<ModuleInfo>)
    requires
        same_modules(a, b),
    ensures
        ids_of(a) == ids_of(b),
        forall|k: Name| #[trigger] index_of_id(a, k) == index_of_id(b, k),
{
    assert(ids_of(a) =~= ids_of(b));
}

/// The module manager: the registered modules, the loader, the dependency
/// graph, the route table the loaded modules' routes go to, and the events
/// published and not yet taken.
///
/// Modules run in the Rust runtime, whose lifecycle hooks always succeed.
/// Publishing is left to the caller, who takes the events with
/// [`ModuleManager::take_events`].
pub struct ModuleManager {
    config: ModuleManagerConfig,
    registry: ModuleRegistry,
    loader: ModuleLoader,
    runtime: RustRuntimeManager,
    graph: DependencyGraph,
    route_table: Option<RouteTable>,
    outbox: Vec<Event>,
}

impl ModuleManager {
    /// The manager's settings.
    pub closed spec fn settings(&self) -> ModuleManagerConfig {
        self.config
    }

    /// The registered modules, in the order registered.
    pub closed spec fn modules(&self) -> Seq<ModuleInfo> {
        self.registry.entries()
    }

    /// The loader's state of each module it knows.
    pub closed spec fn loads(&self) -> Map<Name, ModuleState> {
        self.loader.state_map()
    }

    /// The modules the loader records as depending on each module.
    pub closed spec fn load_dependents(&self) -> Map<Name, Seq<Name>> {
        self.loader.dependents_map()
    }

    /// The dependency graph.
    pub closed spec fn graph(&self) -> GraphView {
        self.graph@
    }

    /// The route table, if one was given.
    pub closed spec fn table(&self) -> Option<RouteTable> {
        self.route_table
    }

    /// The events published and not yet taken, oldest first.
    pub closed spec fn events(&self) -> Seq<Event> {
        self.outbox@
    }

    /// The manager's invariant.
    pub closed spec fn wf(&self) -> bool {
        &&& self.registry.wf()
        &&& self.loader.wf()
        &&& self.graph.wf()
        &&& (self.route_table matches Some(t) ==> t.wf())
        &&& loads_agree(self.loader.state_map(), self.registry.entries())
    }

    /// A manager with `config`, no module, an empty graph and no route
    /// table.
    pub fn new(config: ModuleManagerConfig) -> (r: Self)
        ensures
            r.wf(),
            r.settings() == config,
            r.modules().len() == 0,
            r.loads() == Map::<Name, ModuleState>::empty(),
            r.graph().nodes.len() == 0,
            r.table() is None,
            r.events().len() == 0,
    {
        let registry = ModuleRegistry::new(config.module_dirs.clone());
        let r = ModuleManager {
            config,
            registry,
            loader: ModuleLoader::new(),
            runtime: RustRuntimeManager::new(),
            graph: DependencyGraph::new(),
            route_table: None,
            outbox: Vec::new(),
        };
        r
    }

    /// A manager with the default settings.
    pub fn with_defaults() -> (r: Self)
        ensures
            r.wf(),
            r.settings().module_dirs@.len() == 0,
            r.settings().hot_reload,
            r.settings().health_check_interval_secs == 30,
            r.settings().auto_load@.len() == 0,
            r.modules().len() == 0,
            r.table() is None,
            r.events().len() == 0,
    {
        Self::new(ModuleManagerConfig::default())
    }

    /// Gives the manager the route table that loaded modules' routes go
    /// to.
    pub fn set_route_table(&mut self, route_table: RouteTable)
        requires
            old(self).wf(),
            route_table.wf(),
        ensures
            final(self).wf(),
            final(self).table() == Some(route_table),
            final(self).settings() == old(self).settings(),
            final(self).modules() == old(self).modules(),
            final(self).loads() == old(self).loads(),
            final(self).graph() == old(self).graph(),
            final(self).events() == old(self).events(),
    {
        self.route_table = Some(route_table);
    }

    /// The route table, if one was given.
    pub fn route_table(&self) -> (r: Option<&RouteTable>)
        ensures
            r == match self.table() {
                Some(t) => Some(&t),
                None => None::<&RouteTable>,
            },
    {
        match &self.route_table {
            Some(t) => Some(t),
            None => None,
        }
    }

    /// The manager's settings.
    pub fn config(&self) -> (r: &ModuleManagerConfig)
        ensures
            *r == self.settings(),
    {
        &self.config
    }

    /// Module `module_id`, if registered.
    pub fn get_module(&self, module_id: &str) -> (r: Option<&ModuleInfo>)
        requires
            self.wf(),
        ensures
            match index_of_id(self.modules(), module_id@) {
                Some(i) => r == Some(&self.modules()[i]),
                None => r is None,
            },
    {
        self.registry.get_module(module_id)
    }

    /// The registered modules, in the order registered.
    pub fn list_modules(&self) -> (r: &Vec<ModuleInfo>)
        ensures
            r@ == self.modules(),
    {
        self.registry.list_modules()
    }

    /// The running modules, in the order registered.
    pub fn get_running_modules(&self) -> (r: Vec<&ModuleInfo>)
        ensures
            super::registry::referenced(r@) == super::registry::in_state(
                self.modules(),
                ModuleState::Running,
                self.modules().len() as nat,
            ),
    {
        self.registry.get_running_modules()
    }

    /// The number of registered modules.
    pub fn module_count(&self) -> (r: usize)
        ensures
            r == self.modules().len(),
    {
        self.registry.count()
    }

    /// Takes the events published so far, oldest first, leaving none.
    pub fn take_events(&mut self) -> (r: Vec<Event>)
        requires
            old(self).wf(),
        ensures
            final(self).wf(),
            r@ == old(self).events(),
            final(self).events().len() == 0,
            final(self).settings() == old(self).settings(),
            final(self).modules() == old(self).modules(),
            final(self).loads() == old(self).loads(),
            final(self).graph() == old(self).graph(),
            final(self).table() == old(self).table(),
    {
        let mut taken: Vec<Event> = Vec::new();
        std::mem::swap(&mut taken, &mut self.outbox);
        taken
    }

    /// Publishes the event of `kind` about module `module_id`.
    fn publish_event(&mut self, kind: &str, module_id: &str)
        requires
            old(self).wf(),
        ensures
            final(self).wf(),
            one_more_event(old(self).events(), final(self).events(), kind@, module_id@),
            final(self).settings() == old(self).settings(),
            final(self).modules() == old(self).modules(),
            final(self).loads() == old(self).loads(),
            final(self).load_dependents() == old(self).load_dependents(),
            final(self).graph() == old(self).graph(),
            final(self).table() == old(self).table(),
    {
        let key = String::from_str("module_id");
        let value = json_string(module_id);
        let members = vec![(key, value)];
        proof {
            reveal_strlit("module_id");
            assert(member_views(members@) =~= seq![("module_id"@, json_string_of(module_id@))]);
        }
        let e = Event::new(kind, "module_manager", json_object(members));
        proof {
            reveal_strlit("module_manager");
        }
        let ghost before = self.outbox@;
        self.outbox.push(e);
        proof {
            assert(self.outbox@.take(before.len() as int) =~= before);
        }
    }

    /// Registers a module with `metadata` found at `path` (see
    /// [`ModuleRegistry::register_with_metadata`]).
    pub fn register_module(&mut self, metadata: ModuleMetadata, path: String) -> (r: Result<String, CoreError>)
        requires
            old(self).wf(),
        ensures
            final(self).wf(),
            final(self).settings() == old(self).settings(),
            final(self).loads() == old(self).loads(),
            final(self).graph() == old(self).graph(),
            final(self).table() == old(self).table(),
            final(self).events() == old(self).events(),
            parser_problems(metadata).len() > 0 ==> (r matches Err(e) && e@ == ErrorView::InvalidMetadata(
                join(parser_problems(metadata), "; "@),
            )) && final(self).modules() == old(self).modules(),
            parser_problems(metadata).len() == 0 && ids_of(old(self).modules()).contains(metadata.id@) ==> (r matches Err(
                e,
            ) && e@ == ErrorView::ModuleAlreadyLoaded(metadata.id@)) && final(self).modules() == old(self).modules(),
            parser_problems(metadata).len() == 0 && !ids_of(old(self).modules()).contains(metadata.id@) ==> (r matches Ok(
                id,
            ) && id@ == metadata.id@) && final(self).modules() == old(self).modules().push(ModuleInfo {
                metadata,
                state: ModuleState::Registered,
                path,
                loaded_at: None,
                started_at: None,
                last_error: None,
            }),
    {
        let ghost m0 = self.registry.entries();
        let r = self.registry.register_with_metadata(metadata, path);
        proof {
            let m1 = self.registry.entries();
            if m1 != m0 {
                assert(ids_of(m1) =~= ids_of(m0).push(metadata.id@));
                assert forall|k: Name| #[trigger] self.loader.state_map().contains_key(k) && held(self.loader.state_map()[k])
                    implies (state_in(m1, k) matches Some(s) && !loadable(s)) by {
                    let i = ids_of(m0).index_of(k);
                    assert(ids_of(m0).contains(k));
                    assert(ids_of(m1)[i] == k);
                    assert(ids_of(m1).contains(k));
                    let j = ids_of(m1).index_of(k);
                    assert(ids_of(m1)[j] == k);
                    if j != i {
                        self.registry.lemma_unique_ids();
                        assert(ids_of(m1).no_duplicates());
                    }
                    assert(m1[i] == m0[i]);
                }
            }
        }
        r
    }

    /// Rebuilds the dependency graph from the registered modules: each
    /// module, and an edge for each dependency it declares. Fails with
    /// `CircularDependency` naming a cycle when the graph has one; the graph
    /// is rebuilt either way.
    pub fn build_dependency_graph(&mut self) -> (r: Result<(), CoreError>)
        requires
            old(self).wf(),
        ensures
            final(self).wf(),
            final(self).graph() == declared_graph(old(self).modules(), old(self).modules().len()),
            final(self).graph().acyclic() ==> r is Ok,
            !final(self).graph().acyclic() ==> (r matches Err(e) && final(self).graph().is_cycle_error(e)),
            final(self).settings() == old(self).settings(),
            final(self).modules() == old(self).modules(),
            final(self).loads() == old(self).loads(),
            final(self).load_dependents() == old(self).load_dependents(),
            final(self).table() == old(self).table(),
            final(self).events() == old(self).events(),
    {
        let graph = declared_dependency_graph(self.registry.list_modules());
        self.graph = graph;
        match cycle_error(&self.graph) {
            Some(e) => Err(e),
            None => Ok(()),
        }
    }
}

/// The module at the position of id `k` has that id.
pub proof fn lemma_index_of_id(mods: Seq<ModuleInfo>, k: Name)
    ensures
        index_of_id(mods, k) matches Some(i) ==> 0 <= i < mods.len() && mods[i].metadata.id@ == k,
{
    if ids_of(mods).contains(k) {
        let i = ids_of(mods).index_of(k);
        assert(ids_of(mods)[i] == k);
    }
}

/// Whether `t` has routes for every action module `m` provides.
pub open spec fn routes_provided(t: RouteTable, m: ModuleInfo) -> bool {
    forall|j: int|
        0 <= j < m.metadata.interfaces.provides@.len() ==> t.actions().contains(
            #[trigger] m.metadata.interfaces.provides@[j]@,
        )
}

/// The route table `after` keeps every action of `before`; both are there
/// or neither.
pub open spec fn table_grows(before: Option<RouteTable>, after: Option<RouteTable>) -> bool {
    match (before, after) {
        (Some(t0), Some(t)) => forall|a: Seq<char>| #[trigger] t0.actions().contains(a) ==> t.actions().contains(a),
        (None, None) => true,
        _ => false,
    }
}

/// The state of module `k` after module `id` was loaded with what it
/// needs: every module `id` reaches in `g` that was registered in a state
/// it may be loaded from is loaded, as is `id`; the rest is as it was.
pub open spec fn state_after_load(mods: Seq<ModuleInfo>, g: GraphView, id: Name, k: Name) -> Option<ModuleState> {
    if k == id {
        Some(ModuleState::Loaded)
    } else if g.reaches(id, k) && (state_in(mods, k) matches Some(s) && loadable(s)) {
        Some(ModuleState::Loaded)
    } else {
        state_in(mods, k)
    }
}

/// Whether loading module `id` with what it needs loads module `k`: `id`
/// itself, and every module it reaches in `g` that was registered in a
/// state it may be loaded from.
pub open spec fn newly_loaded(mods: Seq<ModuleInfo>, g: GraphView, id: Name, k: Name) -> bool {
    k == id || (g.reaches(id, k) && (state_in(mods, k) matches Some(s) && loadable(s)))
}

/// The loader's states after module `id` was loaded with what it needs.
pub open spec fn loads_after_load(loads: Map<Name, ModuleState>, mods: Seq<ModuleInfo>, g: GraphView, id: Name) -> Map<
    Name,
    ModuleState,
> {
    Map::new(
        |k: Name| loads.contains_key(k) || newly_loaded(mods, g, id, k),
        |k: Name|
            if newly_loaded(mods, g, id, k) {
                ModuleState::Loaded
            } else {
                loads[k]
            },
    )
}

/// The loader's states once the modules of `done` other than `id` that were
/// registered in a state they may be loaded from are loaded.
spec fn loads_done(loads: Map<Name, ModuleState>, mods: Seq<ModuleInfo>, done: Seq<Name>, id: Name) -> Map<
    Name,
    ModuleState,
> {
    Map::new(
        |k: Name| loads.contains_key(k) || (k != id && done.contains(k) && (state_in(mods, k) matches Some(s) && loadable(s))),
        |k: Name|
            if k != id && done.contains(k) && (state_in(mods, k) matches Some(s) && loadable(s)) {
                ModuleState::Loaded
            } else {
                loads[k]
            },
    )
}

impl ModuleManager {
    /// Registers the routes `routes` in the route table, if there is one.
    fn register_routes(&mut self, routes: &Vec<(String, RouteEntry)>)
        requires
            old(self).wf(),
        ensures
            final(self).wf(),
            table_grows(old(self).table(), final(self).table()),
            final(self).table() matches Some(t) ==> forall|j: int|
                0 <= j < routes@.len() ==> t.actions().contains(#[trigger] routes@[j].0@),
            final(self).settings() == old(self).settings(),
            final(self).modules() == old(self).modules(),
            final(self).loads() == old(self).loads(),
            final(self).load_dependents() == old(self).load_dependents(),
            final(self).graph() == old(self).graph(),
            final(self).events() == old(self).events(),
    {
        match self.route_table.take() {
            None => {},
            Some(table) => {
                let ghost t0 = table;
                let mut t = table;
                let mut i: usize = 0;
                while i < routes.len()
                    invariant
                        t.wf(),
                        i <= routes.len(),
                        forall|a: Seq<char>| #[trigger] t0.actions().contains(a) ==> t.actions().contains(a),
                        forall|j: int| 0 <= j < i ==> t.actions().contains(#[trigger] routes@[j].0@),
                    decreases routes.len() - i,
                {
                    let ghost before = t.actions();
                    let _ = t.register_action_route(routes[i].0.as_str(), routes[i].1.duplicate());
                    proof {
                        let a = routes@[i as int].0@;
                        assert forall|b: Seq<char>| before.contains(b) implies #[trigger] t.actions().contains(b) by {
                            if !before.contains(a) {
                                let p = choose|p: int| 0 <= p < before.len() && before[p] == b;
                                assert(t.actions()[p] == b);
                            }
                        }
                        if !before.contains(a) {
                            assert(t.actions()[before.len() as int] == a);
                        }
                        assert(t.actions().contains(a));
                    }
                    i = i + 1;
                }
                self.route_table = Some(t);
            },
        }
    }

    /// Loads module `module_id`, registered in a state it may be loaded
    /// from, without what it depends on: it is marked loading, loaded in
    /// the runtime, marked loaded, and its routes are registered.
    fn load_single(&mut self, module_id: &str) -> (r: Result<(), CoreError>)
        requires
            old(self).wf(),
            state_in(old(self).modules(), module_id@) matches Some(s) && loadable(s),
        ensures
            final(self).wf(),
            r is Ok,
            same_modules(final(self).modules(), old(self).modules()),
            state_in(final(self).modules(), module_id@) == Some(ModuleState::Loaded),
            forall|k: Name| k != module_id@ ==> #[trigger] state_in(final(self).modules(), k) == state_in(old(self).modules(), k),
            final(self).loads() == old(self).loads().insert(module_id@, ModuleState::Loaded),
            final(self).settings() == old(self).settings(),
            final(self).graph() == old(self).graph(),
            final(self).events() == old(self).events(),
            table_grows(old(self).table(), final(self).table()),
            final(self).table() matches Some(t) ==> routes_provided(
                t,
                old(self).modules()[index_of_id(old(self).modules(), module_id@)->0],
            ),
    {
        let ghost m0 = self.registry.entries();
        let ghost l0 = self.loader.state_map();
        let ghost i0 = index_of_id(m0, module_id@)->0;
        proof {
            lemma_index_of_id(m0, module_id@);
            self.registry.lemma_unique_ids();
        }
        let _ = self.registry.set_state(module_id, ModuleState::Loading);
        let ghost m1 = self.registry.entries();
        proof {
            lemma_same_modules_index(m1, m0);
            assert(m1[i0].metadata == m0[i0].metadata);
        }
        let step = match self.registry.get_module(module_id) {
            Some(info) => {
                let routes = module_routes(module_id, info);
                match self.loader.load(info, &self.runtime) {
                    Ok(()) => Ok(routes),
                    Err(e) => Err(e),
                }
            },
            None => Err(CoreError::ModuleNotFound(module_id.to_owned())),
        };
        match step {
            Err(e) => {
                let msg = e.to_string();
                let _ = self.registry.set_error(module_id, msg.as_str());
                Err(e)
            },
            Ok(routes) => {
                let ghost l1 = self.loader.state_map();
                let _ = self.registry.set_state(module_id, ModuleState::Loaded);
                let ghost m2 = self.registry.entries();
                proof {
                    lemma_same_modules_index(m2, m1);
                    assert forall|k: Name| #[trigger] l1.contains_key(k) && held(l1[k]) implies (state_in(m2, k) matches Some(
                        s,
                    ) && !loadable(s)) by {
                        if k != module_id@ {
                            assert(l0.contains_key(k) && held(l0[k]));
                        }
                    }
                    assert forall|k: Name| k != module_id@ implies #[trigger] state_in(m2, k) == state_in(m0, k) by {
                        lemma_index_of_id(m0, k);
                    }
                }
                self.register_routes(&routes);
                proof {
                    let m = m0[i0];
                    if self.route_table is Some {
                        let t = self.route_table->0;
                        assert forall|j: int| 0 <= j < m.metadata.interfaces.provides@.len() implies t.actions().contains(
                            #[trigger] m.metadata.interfaces.provides@[j]@,
                        ) by {
                            assert(is_action_route(routes@[j], m.metadata.interfaces.provides@[j]@, module_id@));
                            assert(t.actions().contains(routes@[j].0@));
                        }
                    }
                }
                Ok(())
            },
        }
    }
}

impl ModuleManager {
    /// Loads module `module_id` with what it depends on, then publishes
    /// `system.module.loaded`. Fails with `ModuleNotFound` when it is not
    /// registered, or with `ModuleLoadFailed` when its state does not allow
    /// loading; nothing changes then. Otherwise every module it reaches in
    /// the dependency graph that may be loaded is loaded first, in
    /// dependency order, then the module itself.
    pub fn load_module(&mut self, module_id: &str) -> (r: Result<(), CoreError>)
        requires
            old(self).wf(),
        ensures
            final(self).wf(),
            same_modules(final(self).modules(), old(self).modules()),
            final(self).settings() == old(self).settings(),
            final(self).graph() == old(self).graph(),
            table_grows(old(self).table(), final(self).table()),
            match state_in(old(self).modules(), module_id@) {
                None => (r matches Err(e) && e@ == ErrorView::ModuleNotFound(module_id@)) && final(self).modules() == old(self).modules() && final(self).loads() == old(self).loads() && final(self).events() == old(self).events()
                    && final(self).load_dependents() == old(self).load_dependents(),
                Some(s) => if !loadable(s) {
                    (r matches Err(e) && e@ == ErrorView::ModuleLoadFailed {
                        module_id: module_id@,
                        reason: "模块当前状态 "@ + state_name(s) + " 不允许加载"@,
                    }) && final(self).modules() == old(self).modules() && final(self).loads() == old(self).loads()
                        && final(self).events() == old(self).events()
                        && final(self).load_dependents() == old(self).load_dependents()
                } else {
                    &&& r is Ok
                    &&& forall|k: Name| #[trigger]
                        state_in(final(self).modules(), k) == state_after_load(
                            old(self).modules(),
                            old(self).graph(),
                            module_id@,
                            k,
                        )
                    &&& final(self).loads() == loads_after_load(
                        old(self).loads(),
                        old(self).modules(),
                        old(self).graph(),
                        module_id@,
                    )
                    &&& one_more_event(old(self).events(), final(self).events(), system_events::MODULE_LOADED@, module_id@)
                    &&& final(self).table() matches Some(t) ==> routes_provided(
                        t,
                        old(self).modules()[index_of_id(old(self).modules(), module_id@)->0],
                    )
                },
            },
    {
        let ghost m0 = self.registry.entries();
        let ghost t0 = self.route_table;
        proof {
            lemma_index_of_id(m0, module_id@);
        }
        match check_load(module_id, self.registry.get_module(module_id)) {
            Err(e) => {
                return Err(e);
            },
            Ok(()) => {},
        }
        let order = load_order(&self.graph, module_id);
        let mut i: usize = 0;
        while i < order.len()
            invariant
                self.wf(),
                i <= order.len(),
                same_modules(self.registry.entries(), m0),
                self.config == old(self).config,
                self.graph@ == old(self).graph@,
                self.outbox@ == old(self).outbox@,
                table_grows(t0, self.route_table),
                self.loader.state_map() == loads_done(old(self).loader.state_map(), m0, order.deep_view().take(i as int), module_id@),
                order.deep_view().no_duplicates(),
                forall|x: Name| #[trigger] order.deep_view().contains(x) <==> (self.graph@.reaches(module_id@, x) || x == module_id@),
                forall|k: Name| #[trigger]
                    state_in(self.registry.entries(), k) == (if k != module_id@ && order.deep_view().take(i as int).contains(k) && (
                    state_in(m0, k) matches Some(s) && loadable(s)) {
                        Some(ModuleState::Loaded)
                    } else {
                        state_in(m0, k)
                    }),
            decreases order.len() - i,
        {
            let ghost before = self.registry.entries();
            let ghost lb = self.loader.state_map();
            let ghost tb = self.route_table;
            let ghost dep = order.deep_view()[i as int];
            proof {
                assert(order.deep_view()[i as int] == order@[i as int]@);
                assert(!order.deep_view().take(i as int).contains(dep)) by {
                    if order.deep_view().take(i as int).contains(dep) {
                        let p = choose|p: int| 0 <= p < i && order.deep_view().take(i as int)[p] == dep;
                        assert(order.deep_view()[p] == dep);
                    }
                }
                assert(order.deep_view().take(i + 1) =~= order.deep_view().take(i as int).push(dep));
                lemma_index_of_id(before, dep);
            }
            let ghost mut called = false;
            if !str_eq(order[i].as_str(), module_id) {
                let go = match self.registry.get_module(order[i].as_str()) {
                    Some(d) => d.state.can_load(),
                    None => false,
                };
                proof {
                    assert(go == (state_in(before, dep) matches Some(s) && loadable(s)));
                }
                if go {
                    let _ = self.load_single(order[i].as_str());
                    proof {
                        called = true;
                    }
                }
            }
            proof {
                let after = self.registry.entries();
                assert(!called ==> after == before);
                assert(called ==> dep != module_id@ && (state_in(before, dep) matches Some(s) && loadable(s)));
                assert(!called && dep != module_id@ ==> !(state_in(before, dep) matches Some(s) && loadable(s)));
                assert(state_in(before, dep) == state_in(m0, dep));
                assert(!called ==> self.loader.state_map() == lb);
                assert(called ==> self.loader.state_map() == lb.insert(dep, ModuleState::Loaded));
                let t1 = order.deep_view().take(i as int);
                let t2 = order.deep_view().take(i + 1);
                assert(t2 =~= t1.push(dep));
                assert forall|k: Name| #[trigger] t2.contains(k) == (t1.contains(k) || k == dep) by {
                    if t2.contains(k) {
                        let p = choose|p: int| 0 <= p < t2.len() && t2[p] == k;
                        if p < i {
                            assert(t1[p] == k);
                        }
                    }
                    if t1.contains(k) {
                        let p = choose|p: int| 0 <= p < t1.len() && t1[p] == k;
                        assert(t2[p] == k);
                    }
                    if k == dep {
                        assert(t2[i as int] == dep);
                    }
                }
                assert(self.loader.state_map() =~= loads_done(old(self).loader.state_map(), m0, t2, module_id@));
                assert forall|k: Name| #[trigger]
                    state_in(after, k) == (if k != module_id@ && order.deep_view().take(i + 1).contains(k) && (
                    state_in(m0, k) matches Some(s) && loadable(s)) {
                        Some(ModuleState::Loaded)
                    } else {
                        state_in(m0, k)
                    }) by {
                    assert(t2.contains(k) == (t1.contains(k) || k == dep));
                    if k != dep {
                        assert(state_in(after, k) == state_in(before, k));
                    }
                }
            }
            proof {
                assert forall|a: Seq<char>| #[trigger] t0->0.actions().contains(a) && t0 is Some implies self.route_table->0.actions().contains(a) by {
                    assert(tb->0.actions().contains(a));
                }
            }
            i = i + 1;
        }
        proof {
            assert(order.deep_view().take(order.len() as int) =~= order.deep_view());
        }
        let ghost tb = self.route_table;
        let ghost mb = self.registry.entries();
        proof {
            lemma_same_modules_index(mb, m0);
            lemma_index_of_id(m0, module_id@);
        }
        let _ = self.load_single(module_id);
        proof {
            assert forall|a: Seq<char>| #[trigger] t0->0.actions().contains(a) && t0 is Some implies self.route_table->0.actions().contains(a) by {
                assert(tb->0.actions().contains(a));
            }
            let i0 = index_of_id(m0, module_id@)->0;
            assert(mb[i0].metadata == m0[i0].metadata);
            let mf = self.registry.entries();
            assert(self.loader.state_map() =~= loads_after_load(
                old(self).loader.state_map(),
                m0,
                old(self).graph@,
                module_id@,
            ));
            assert forall|k: Name| #[trigger] state_in(mf, k) == state_after_load(m0, old(self).graph@, module_id@, k) by {
                if k != module_id@ {
                    assert(state_in(mf, k) == state_in(mb, k));
                    assert(order.deep_view().contains(k) == old(self).graph@.reaches(module_id@, k));
                }
            }
        }
        self.publish_event(system_events::MODULE_LOADED, module_id);
        Ok(())
    }
}

/// Whether a module in state `s` may be unloaded.
pub open spec fn unloadable(s: ModuleState) -> bool {
    s == ModuleState::Loaded || s == ModuleState::Stopped || s == ModuleState::Error
}

/// The error with which the loader, knowing the states `loads` and the
/// dependents `deps`, refuses to unload module `id`, if it does.
pub open spec fn unload_refusal(loads: Map<Name, ModuleState>, deps: Map<Name, Seq<Name>>, id: Name) -> Option<ErrorView> {
    let d: Seq<Name> = if deps.contains_key(id) {
        deps[id]
    } else {
        Seq::empty()
    };
    if !loads.contains_key(id) {
        Some(ErrorView::ModuleNotLoaded(id))
    } else if !unloadable(loads[id]) {
        Some(ErrorView::ModuleUnloadFailed { module_id: id, reason: "模块状态 "@ + state_name(loads[id]) + " 不允许卸载"@ })
    } else if d.len() > 0 {
        Some(ErrorView::ModuleHasDependents { module: id, dependents: d })
    } else {
        None
    }
}

/// The route table `after` is `before` without the routes of module `id`.
pub open spec fn routes_dropped(before: Option<RouteTable>, after: Option<RouteTable>, id: Name) -> bool {
    match (before, after) {
        (Some(t0), Some(t)) => forall|a: Seq<char>| #[trigger] t.routes_for(a) == without_module(t0.routes_for(a), id),
        (None, None) => true,
        _ => false,
    }
}

impl ModuleManager {
    /// Removes the routes of module `module_id` from the route table, if
    /// there is one.
    fn remove_routes(&mut self, module_id: &str)
        requires
            old(self).wf(),
        ensures
            final(self).wf(),
            routes_dropped(old(self).table(), final(self).table(), module_id@),
            final(self).settings() == old(self).settings(),
            final(self).modules() == old(self).modules(),
            final(self).loads() == old(self).loads(),
            final(self).load_dependents() == old(self).load_dependents(),
            final(self).graph() == old(self).graph(),
            final(self).events() == old(self).events(),
    {
        match self.route_table.take() {
            None => {},
            Some(table) => {
                let mut t = table;
                t.remove_module_routes(module_id);
                self.route_table = Some(t);
            },
        }
    }

    /// Unloads module `module_id`, then publishes `system.module.unloaded`.
    /// Fails with `ModuleNotFound` when it is not registered, with
    /// `ModuleUnloadFailed` when its state does not allow unloading, or
    /// with `ModuleHasDependents` listing the modules that depend on it and
    /// are loaded or running; nothing changes then. When the loader refuses,
    /// the module is marked failed with the loader's error, which is
    /// returned. Otherwise its routes go and it is unloaded.
    pub fn unload_module(&mut self, module_id: &str) -> (r: Result<(), CoreError>)
        requires
            old(self).wf(),
        ensures
            final(self).wf(),
            same_modules(final(self).modules(), old(self).modules()),
            final(self).settings() == old(self).settings(),
            final(self).graph() == old(self).graph(),
            match state_in(old(self).modules(), module_id@) {
                None => (r matches Err(e) && e@ == ErrorView::ModuleNotFound(module_id@)) && final(self).modules() == old(self).modules() && final(self).loads() == old(self).loads() && final(self).events() == old(self).events()
                    && final(self).table() == old(self).table()
                    && final(self).load_dependents() == old(self).load_dependents(),
                Some(s) => {
                    let deps = old(self).graph().dependents_of(module_id@);
                    let active = active_dependents(old(self).modules(), deps, deps.len());
                    if !unloadable(s) {
                        (r matches Err(e) && e@ == ErrorView::ModuleUnloadFailed {
                            module_id: module_id@,
                            reason: "模块当前状态 "@ + state_name(s) + " 不允许卸载"@,
                        }) && final(self).modules() == old(self).modules() && final(self).loads() == old(self).loads()
                            && final(self).events() == old(self).events() && final(self).table() == old(self).table()
                            && final(self).load_dependents() == old(self).load_dependents()
                    } else if active.len() > 0 {
                        (r matches Err(e) && e@ == ErrorView::ModuleHasDependents { module: module_id@, dependents: active })
                            && final(self).modules() == old(self).modules() && final(self).loads() == old(self).loads()
                            && final(self).events() == old(self).events() && final(self).table() == old(self).table()
                            && final(self).load_dependents() == old(self).load_dependents()
                    } else {
                        &&& forall|k: Name| k != module_id@ ==> #[trigger] state_in(final(self).modules(), k) == state_in(
                            old(self).modules(),
                            k,
                        )
                        &&& match unload_refusal(old(self).loads(), old(self).load_dependents(), module_id@) {
                            Some(v) => {
                                &&& r matches Err(e) && e@ == v
                                &&& state_in(final(self).modules(), module_id@) == Some(ModuleState::Error)
                                &&& final(self).loads() == old(self).loads()
                                &&& final(self).events() == old(self).events()
                                &&& final(self).table() == old(self).table()
                                &&& final(self).load_dependents() == old(self).load_dependents()
                            },
                            None => {
                                &&& r is Ok
                                &&& state_in(final(self).modules(), module_id@) == Some(ModuleState::Unloaded)
                                &&& final(self).loads() == old(self).loads().insert(module_id@, ModuleState::Unloaded)
                                &&& one_more_event(
                                    old(self).events(),
                                    final(self).events(),
                                    system_events::MODULE_UNLOADED@,
                                    module_id@,
                                )
                                &&& routes_dropped(old(self).table(), final(self).table(), module_id@)
                                &&& final(self).load_dependents() == drop_dependent(
                                    old(self).load_dependents(),
                                    module_id@,
                                )
                            },
                        }
                    }
                },
            },
    {
        let ghost m0 = self.registry.entries();
        let ghost l0 = self.loader.state_map();
        proof {
            lemma_index_of_id(m0, module_id@);
            self.registry.lemma_unique_ids();
        }
        let dependents = self.graph.get_dependents(module_id);
        match check_unload(&self.registry, module_id, &dependents) {
            Err(e) => {
                return Err(e);
            },
            Ok(()) => {},
        }
        let _ = self.registry.set_state(module_id, ModuleState::Unloading);
        let ghost m1 = self.registry.entries();
        proof {
            lemma_same_modules_index(m1, m0);
            assert forall|k: Name| k != module_id@ implies #[trigger] state_in(m1, k) == state_in(m0, k) by {
                lemma_index_of_id(m0, k);
            }
        }
        match self.loader.unload(module_id, &self.runtime) {
            Err(e) => {
                let msg = e.to_string();
                let _ = self.registry.set_error(module_id, msg.as_str());
                proof {
                    let m2 = self.registry.entries();
                    lemma_same_modules_index(m2, m1);
                    assert forall|k: Name| k != module_id@ implies #[trigger] state_in(m2, k) == state_in(m0, k) by {
                        lemma_index_of_id(m0, k);
                    }
                }
                return Err(e);
            },
            Ok(()) => {},
        }
        self.remove_routes(module_id);
        let _ = self.registry.set_state(module_id, ModuleState::Unloaded);
        proof {
            let m2 = self.registry.entries();
            lemma_same_modules_index(m2, m1);
            assert forall|k: Name| k != module_id@ implies #[trigger] state_in(m2, k) == state_in(m0, k) by {
                lemma_index_of_id(m0, k);
            }
            let l2 = self.loader.state_map();
            assert forall|k: Name| #[trigger] l2.contains_key(k) && held(l2[k]) implies (state_in(m2, k) matches Some(s)
                && !loadable(s)) by {
                if k != module_id@ {
                    assert(l0.contains_key(k) && held(l0[k]));
                }
            }
        }
        self.publish_event(system_events::MODULE_UNLOADED, module_id);
        Ok(())
    }
}

impl ModuleManager {
    /// Sets the state of a registered module `module_id` to `state`,
    /// keeping the loader's view.
    fn mark(&mut self, module_id: &str, state: ModuleState)
        requires
            old(self).wf(),
            state_in(old(self).modules(), module_id@) is Some,
            !loadable(state),
        ensures
            final(self).wf(),
            same_modules(final(self).modules(), old(self).modules()),
            state_in(final(self).modules(), module_id@) == Some(state),
            forall|k: Name| k != module_id@ ==> #[trigger] state_in(final(self).modules(), k) == state_in(old(self).modules(), k),
            final(self).settings() == old(self).settings(),
            final(self).loads() == old(self).loads(),
            final(self).load_dependents() == old(self).load_dependents(),
            final(self).graph() == old(self).graph(),
            final(self).table() == old(self).table(),
            final(self).events() == old(self).events(),
    {
        let ghost m0 = self.registry.entries();
        proof {
            lemma_index_of_id(m0, module_id@);
            self.registry.lemma_unique_ids();
        }
        let _ = self.registry.set_state(module_id, state);
        proof {
            let m1 = self.registry.entries();
            lemma_same_modules_index(m1, m0);
            assert forall|k: Name| k != module_id@ implies #[trigger] state_in(m1, k) == state_in(m0, k) by {
                lemma_index_of_id(m0, k);
            }
            let l = self.loader.state_map();
            assert forall|k: Name| #[trigger] l.contains_key(k) && held(l[k]) implies (state_in(m1, k) matches Some(s)
                && !loadable(s)) by {
                if k != module_id@ {
                    assert(state_in(m1, k) == state_in(m0, k));
                }
            }
        }
    }

    /// Starts module `module_id`: it is marked starting, its start hook
    /// runs, it is marked running, and `system.module.started` is
    /// published. Fails with `ModuleNotFound`, changing nothing, when it is
    /// not registered.
    pub fn start_module(&mut self, module_id: &str) -> (r: Result<(), CoreError>)
        requires
            old(self).wf(),
        ensures
            final(self).wf(),
            same_modules(final(self).modules(), old(self).modules()),
            final(self).settings() == old(self).settings(),
            final(self).loads() == old(self).loads(),
            final(self).graph() == old(self).graph(),
            final(self).table() == old(self).table(),
            match state_in(old(self).modules(), module_id@) {
                None => (r matches Err(e) && e@ == ErrorView::ModuleNotFound(module_id@)) && final(self).modules() == old(self).modules() && final(self).events() == old(self).events(),
                Some(_) => {
                    &&& r is Ok
                    &&& state_in(final(self).modules(), module_id@) == Some(ModuleState::Running)
                    &&& forall|k: Name| k != module_id@ ==> #[trigger] state_in(final(self).modules(), k) == state_in(
                        old(self).modules(),
                        k,
                    )
                    &&& one_more_event(old(self).events(), final(self).events(), system_events::MODULE_STARTED@, module_id@)
                },
            },
    {
        if self.registry.get_module(module_id).is_none() {
            return Err(CoreError::ModuleNotFound(module_id.to_owned()));
        }
        self.mark(module_id, ModuleState::Starting);
        self.mark(module_id, ModuleState::Running);
        self.publish_event(system_events::MODULE_STARTED, module_id);
        Ok(())
    }

    /// Stops module `module_id`: it is marked stopping, its stop hook runs,
    /// it is marked stopped, and `system.module.stopped` is published.
    /// Fails with `ModuleNotFound`, changing nothing, when it is not
    /// registered.
    pub fn stop_module(&mut self, module_id: &str) -> (r: Result<(), CoreError>)
        requires
            old(self).wf(),
        ensures
            final(self).wf(),
            same_modules(final(self).modules(), old(self).modules()),
            final(self).settings() == old(self).settings(),
            final(self).loads() == old(self).loads(),
            final(self).load_dependents() == old(self).load_dependents(),
            final(self).graph() == old(self).graph(),
            final(self).table() == old(self).table(),
            match state_in(old(self).modules(), module_id@) {
                None => (r matches Err(e) && e@ == ErrorView::ModuleNotFound(module_id@)) && final(self).modules() == old(self).modules() && final(self).events() == old(self).events(),
                Some(_) => {
                    &&& r is Ok
                    &&& state_in(final(self).modules(), module_id@) == Some(ModuleState::Stopped)
                    &&& forall|k: Name| k != module_id@ ==> #[trigger] state_in(final(self).modules(), k) == state_in(
                        old(self).modules(),
                        k,
                    )
                    &&& one_more_event(old(self).events(), final(self).events(), system_events::MODULE_STOPPED@, module_id@)
                },
            },
    {
        if self.registry.get_module(module_id).is_none() {
            return Err(CoreError::ModuleNotFound(module_id.to_owned()));
        }
        self.mark(module_id, ModuleState::Stopping);
        self.mark(module_id, ModuleState::Stopped);
        self.publish_event(system_events::MODULE_STOPPED, module_id);
        Ok(())
    }

    /// Stops module `module_id`, then starts it again. Fails with
    /// `ModuleNotFound`, changing nothing, when it is not registered.
    pub fn restart_module(&mut self, module_id: &str) -> (r: Result<(), CoreError>)
        requires
            old(self).wf(),
        ensures
            final(self).wf(),
            same_modules(final(self).modules(), old(self).modules()),
            final(self).settings() == old(self).settings(),
            final(self).loads() == old(self).loads(),
            final(self).graph() == old(self).graph(),
            final(self).table() == old(self).table(),
            match state_in(old(self).modules(), module_id@) {
                None => (r matches Err(e) && e@ == ErrorView::ModuleNotFound(module_id@)) && final(self).modules() == old(self).modules() && final(self).events() == old(self).events(),
                Some(_) => {
                    &&& r is Ok
                    &&& state_in(final(self).modules(), module_id@) == Some(ModuleState::Running)
                    &&& forall|k: Name| k != module_id@ ==> #[trigger] state_in(final(self).modules(), k) == state_in(
                        old(self).modules(),
                        k,
                    )
                    &&& final(self).events().len() == old(self).events().len() + 2
                    &&& final(self).events().take(old(self).events().len() as int) == old(self).events()
                    &&& is_module_event(
                        final(self).events()[old(self).events().len() as int],
                        system_events::MODULE_STOPPED@,
                        module_id@,
                    )
                    &&& is_module_event(final(self).events().last(), system_events::MODULE_STARTED@, module_id@)
                },
            },
    {
        let ghost e0 = self.outbox@;
        match self.stop_module(module_id) {
            Err(e) => {
                return Err(e);
            },
            Ok(()) => {},
        }
        let ghost e1 = self.outbox@;
        let ghost m1 = self.registry.entries();
        proof {
            lemma_same_modules_index(m1, old(self).registry.entries());
        }
        let r = self.start_module(module_id);
        proof {
            let e2 = self.outbox@;
            assert(e2.take(e1.len() as int) == e1);
            assert(e2[e0.len() as int] == e1[e0.len() as int]);
            assert(e2.take(e0.len() as int) =~= e1.take(e0.len() as int));
        }
        r
    }

    /// The health of module `module_id` at time `now`. The manager's
    /// lifecycle tracks no module states, so every check fails with
    /// `ModuleNotLoaded`.
    pub fn health_check(&self, module_id: &str, now: i64) -> (r: Result<HealthStatus, CoreError>)
        ensures
            r matches Err(e) && e@ == ErrorView::ModuleNotLoaded(module_id@),
    {
        match super::lifecycle::health_before_check(module_id, None, now) {
            Err(e) => Err(e),
            Ok(_) => Err(CoreError::ModuleNotLoaded(module_id.to_owned())),
        }
    }

    /// The health of every module whose state the manager's lifecycle
    /// tracks: none.
    pub fn health_check_all(&self) -> (r: Vec<(String, HealthStatus)>)
        ensures
            r@.len() == 0,
    {
        Vec::new()
    }
}

/// Removing another module keeps the state of module `k`.
pub proof fn lemma_state_after_remove(m: Seq<ModuleInfo>, i: int, k: Name)
    requires
        ids_of(m).no_duplicates(),
        0 <= i < m.len(),
        ids_of(m)[i] != k,
    ensures
        state_in(m.remove(i), k) == state_in(m, k),
        ids_of(m.remove(i)) == ids_of(m).remove(i),
{
    let a = ids_of(m);
    let b = ids_of(m.remove(i));
    assert(b =~= a.remove(i));
    if a.contains(k) {
        let j = a.index_of(k);
        assert(a[j] == k);
        let j2 = if j < i {
            j
        } else {
            j - 1
        };
        assert(b[j2] == k);
        assert(b.contains(k));
        let p = b.index_of(k);
        assert(b[p] == k);
        let p0 = if p < i {
            p
        } else {
            p + 1
        };
        assert(a[p0] == k);
        assert(p0 == j);
        assert(m.remove(i)[p] == m[j]);
    } else {
        if b.contains(k) {
            let p = choose|p: int| 0 <= p < b.len() && b[p] == k;
            let p0 = if p < i {
                p
            } else {
                p + 1
            };
            assert(a[p0] == k);
        }
    }
}

/// The modules `mods` with module `id` marked stopped.
pub open spec fn with_stopped(mods: Seq<ModuleInfo>, id: Name) -> Seq<ModuleInfo> {
    match index_of_id(mods, id) {
        Some(i) => mods.update(i, ModuleInfo { state: ModuleState::Stopped, ..mods[i] }),
        None => mods,
    }
}

/// Which modules depend actively on others is a matter of their states
/// alone.
proof fn lemma_active_by_states(a: Seq<ModuleInfo>, b: Seq<ModuleInfo>, deps: Seq<Name>, n: nat)
    requires
        forall|k: Name| #[trigger] state_in(a, k) == state_in(b, k),
    ensures
        active_dependents(a, deps, n) == active_dependents(b, deps, n),
    decreases n,
{
    if n > 0 && n <= deps.len() {
        lemma_active_by_states(a, b, deps, (n - 1) as nat);
        assert(state_in(a, deps[n - 1]) == state_in(b, deps[n - 1]));
    }
}

/// The modules `mods` with module `metadata`, found at `path`, registered.
pub open spec fn with_registered(mods: Seq<ModuleInfo>, metadata: ModuleMetadata, path: String) -> Seq<ModuleInfo> {
    mods.push(
        ModuleInfo { metadata, state: ModuleState::Registered, path, loaded_at: None, started_at: None, last_error: None },
    )
}

impl ModuleManager {
    /// Builds the dependency graph, then loads each module of the settings'
    /// auto-load list in turn, going on past those that fail. Fails with
    /// `CircularDependency` when the graph has a cycle; nothing is loaded
    /// then. The registered modules are read by the caller beforehand.
    pub fn initialize(&mut self) -> (r: Result<(), CoreError>)
        requires
            old(self).wf(),
        ensures
            final(self).wf(),
            same_modules(final(self).modules(), old(self).modules()),
            final(self).settings() == old(self).settings(),
            final(self).graph() == declared_graph(old(self).modules(), old(self).modules().len()),
            final(self).graph().acyclic() ==> r is Ok,
            !final(self).graph().acyclic() ==> (r matches Err(e) && final(self).graph().is_cycle_error(e)) && final(self).modules() == old(self).modules() && final(self).events() == old(self).events(),
    {
        match self.build_dependency_graph() {
            Err(e) => {
                return Err(e);
            },
            Ok(()) => {},
        }
        let ghost m0 = self.registry.entries();
        let ghost g0 = self.graph@;
        let n = self.config.auto_load.len();
        let mut i: usize = 0;
        while i < n
            invariant
                self.wf(),
                i <= n,
                n == self.config.auto_load.len(),
                self.config == old(self).config,
                self.graph@ == g0,
                same_modules(self.registry.entries(), m0),
            decreases n - i,
        {
            let module_id = self.config.auto_load[i].clone();
            let ghost mb = self.registry.entries();
            let _ = self.load_module(module_id.as_str());
            proof {
                let ma = self.registry.entries();
                assert forall|j: int| 0 <= j < ma.len() implies (#[trigger] ma[j]).metadata == m0[j].metadata by {
                    assert(ma[j].metadata == mb[j].metadata);
                }
            }
            i = i + 1;
        }
        Ok(())
    }

    /// Installs the module described by `parsed`, found at `path`, while
    /// running: it is registered, the dependency graph is rebuilt, and it is
    /// loaded and started; its id is returned. Fails with `InitFailed` when
    /// hot reload is off, with the error of `parsed` when its description
    /// could not be read, or when it cannot be registered; nothing changes
    /// then. Fails with `CircularDependency` when the new graph has a cycle;
    /// the module stays registered then.
    pub fn hot_install(&mut self, parsed: Result<ModuleMetadata, CoreError>, path: String) -> (r: Result<String, CoreError>)
        requires
            old(self).wf(),
        ensures
            final(self).wf(),
            final(self).settings() == old(self).settings(),
            !old(self).settings().hot_reload ==> (r matches Err(e) && e@ == ErrorView::InitFailed("热插拔未启用"@)) && final(self).modules() == old(self).modules() && final(self).graph() == old(self).graph() && final(self).events() == old(self).events(),
            old(self).settings().hot_reload ==> match parsed {
                Err(p) => (r matches Err(e) && e@ == p@) && final(self).modules() == old(self).modules() && final(self).graph() == old(self).graph() && final(self).events() == old(self).events(),
                Ok(metadata) => if parser_problems(metadata).len() > 0 {
                    (r matches Err(e) && e@ == ErrorView::InvalidMetadata(join(parser_problems(metadata), "; "@))) && final(self).modules() == old(self).modules() && final(self).graph() == old(self).graph()
                } else if ids_of(old(self).modules()).contains(metadata.id@) {
                    (r matches Err(e) && e@ == ErrorView::ModuleAlreadyLoaded(metadata.id@)) && final(self).modules() == old(self).modules() && final(self).graph() == old(self).graph()
                } else {
                    let mods = with_registered(old(self).modules(), metadata, path);
                    let g = declared_graph(mods, mods.len());
                    &&& final(self).graph() == g
                    &&& same_modules(final(self).modules(), mods)
                    &&& if !g.acyclic() {
                        (r matches Err(e) && g.is_cycle_error(e)) && final(self).modules() == mods
                    } else {
                        (r matches Ok(id) && id@ == metadata.id@) && state_in(final(self).modules(), metadata.id@) == Some(
                            ModuleState::Running,
                        )
                    }
                },
            },
    {
        match check_hot_reload(self.config.hot_reload) {
            Err(e) => {
                return Err(e);
            },
            Ok(()) => {},
        }
        let metadata = match parsed {
            Err(e) => {
                return Err(e);
            },
            Ok(m) => m,
        };
        let ghost md = metadata;
        let ghost m0 = self.registry.entries();
        let module_id = match self.register_module(metadata, path) {
            Err(e) => {
                return Err(e);
            },
            Ok(id) => id,
        };
        let ghost m1 = self.registry.entries();
        proof {
            self.registry.lemma_unique_ids();
            let ids = ids_of(m1);
            assert(ids =~= ids_of(m0).push(md.id@));
            assert(ids[m0.len() as int] == md.id@);
            assert(ids.contains(md.id@));
            let p = ids.index_of(md.id@);
            assert(ids[p] == md.id@);
            if p != m0.len() {
                assert(ids_of(m0)[p] == md.id@);
                assert(ids_of(m0).contains(md.id@));
            }
            assert(state_in(m1, md.id@) == Some(ModuleState::Registered));
        }
        match self.build_dependency_graph() {
            Err(e) => {
                return Err(e);
            },
            Ok(()) => {},
        }
        match self.load_module(module_id.as_str()) {
            Err(e) => {
                return Err(e);
            },
            Ok(()) => {},
        }
        let ghost m2 = self.registry.entries();
        proof {
            assert(state_in(m2, md.id@) == Some(ModuleState::Loaded));
        }
        match self.start_module(module_id.as_str()) {
            Err(e) => {
                return Err(e);
            },
            Ok(()) => {},
        }
        proof {
            let m3 = self.registry.entries();
            assert forall|j: int| 0 <= j < m3.len() implies (#[trigger] m3[j]).metadata == m1[j].metadata by {
                assert(m3[j].metadata == m2[j].metadata);
            }
        }
        Ok(module_id)
    }

    /// Removes module `module_id` while running: it is stopped if it runs,
    /// unloaded, unregistered, and dropped from the dependency graph.
    /// Fails with `InitFailed` when hot reload is off, or with
    /// `ModuleNotFound` when it is not registered; nothing changes then.
    /// Fails with the error of unloading when that fails; it stays
    /// registered then.
    pub fn hot_uninstall(&mut self, module_id: &str) -> (r: Result<(), CoreError>)
        requires
            old(self).wf(),
        ensures
            final(self).wf(),
            final(self).settings() == old(self).settings(),
            !old(self).settings().hot_reload ==> (r matches Err(e) && e@ == ErrorView::InitFailed("热插拔未启用"@)) && final(self).modules() == old(self).modules() && final(self).graph() == old(self).graph() && final(self).events() == old(self).events(),
            old(self).settings().hot_reload && state_in(old(self).modules(), module_id@) is None ==> (r matches Err(e) && e@
                == ErrorView::ModuleNotFound(module_id@)) && final(self).modules() == old(self).modules() && final(self).graph() == old(self).graph() && final(self).events() == old(self).events(),
            old(self).settings().hot_reload && state_in(old(self).modules(), module_id@) is Some ==> {
                let s = state_in(old(self).modules(), module_id@)->0;
                let stopped = s == ModuleState::Running;
                let mods = if stopped {
                    with_stopped(old(self).modules(), module_id@)
                } else {
                    old(self).modules()
                };
                let s1 = if stopped {
                    ModuleState::Stopped
                } else {
                    s
                };
                let deps = old(self).graph().dependents_of(module_id@);
                let active = active_dependents(mods, deps, deps.len());
                if !unloadable(s1) {
                    r matches Err(e) && e@ == ErrorView::ModuleUnloadFailed {
                        module_id: module_id@,
                        reason: "模块当前状态 "@ + state_name(s1) + " 不允许卸载"@,
                    }
                } else if active.len() > 0 {
                    r matches Err(e) && e@ == ErrorView::ModuleHasDependents { module: module_id@, dependents: active }
                } else {
                    match unload_refusal(old(self).loads(), old(self).load_dependents(), module_id@) {
                        Some(v) => r matches Err(e) && e@ == v,
                        None => r is Ok,
                    }
                }
            },
            r is Ok ==> {
                &&& ids_of(final(self).modules()) == ids_of(old(self).modules()).remove(
                    index_of_id(old(self).modules(), module_id@)->0,
                )
                &&& state_in(final(self).modules(), module_id@) is None
                &&& forall|k: Name| k != module_id@ ==> #[trigger] state_in(final(self).modules(), k) == state_in(
                    old(self).modules(),
                    k,
                )
                &&& final(self).graph() == old(self).graph().without_node(module_id@)
                &&& final(self).loads().contains_key(module_id@) && final(self).loads()[module_id@]
                    == ModuleState::Unloaded
            },
            r is Err ==> ids_of(final(self).modules()) == ids_of(old(self).modules()) && final(self).graph() == old(self).graph(),
    {
        let ghost m0 = self.registry.entries();
        proof {
            lemma_index_of_id(m0, module_id@);
            self.registry.lemma_unique_ids();
        }
        match check_hot_reload(self.config.hot_reload) {
            Err(e) => {
                return Err(e);
            },
            Ok(()) => {},
        }
        let running = match self.registry.get_module(module_id) {
            Some(info) => info.state == ModuleState::Running,
            None => false,
        };
        if running {
            match self.stop_module(module_id) {
                Err(e) => {
                    return Err(e);
                },
                Ok(()) => {},
            }
        }
        let ghost m1 = self.registry.entries();
        proof {
            lemma_same_modules_index(m1, m0);
            if running {
                let w = with_stopped(m0, module_id@);
                let i = index_of_id(m0, module_id@)->0;
                assert(ids_of(w) =~= ids_of(m0));
                assert forall|k: Name| #[trigger] state_in(m1, k) == state_in(w, k) by {
                    lemma_index_of_id(m0, k);
                }
                lemma_active_by_states(
                    m1,
                    w,
                    self.graph@.dependents_of(module_id@),
                    self.graph@.dependents_of(module_id@).len(),
                );
            }
        }
        match self.unload_module(module_id) {
            Err(e) => {
                proof {
                    lemma_same_modules_index(self.registry.entries(), m0);
                }
                return Err(e);
            },
            Ok(()) => {},
        }
        let ghost m2 = self.registry.entries();
        let ghost l2 = self.loader.state_map();
        proof {
            lemma_same_modules_index(m2, m0);
            lemma_index_of_id(m2, module_id@);
            self.registry.lemma_unique_ids();
            assert(state_in(m2, module_id@) == Some(ModuleState::Unloaded));
        }
        match self.registry.unregister(module_id) {
            Err(e) => {
                return Err(e);
            },
            Ok(()) => {},
        }
        self.graph.remove_module(module_id);
        proof {
            let i = index_of_id(m2, module_id@)->0;
            let m3 = self.registry.entries();
            assert(m3 == m2.remove(i));
            assert forall|k: Name| k != module_id@ implies #[trigger] state_in(m3, k) == state_in(m0, k) by {
                lemma_state_after_remove(m2, i, k);
                lemma_index_of_id(m0, k);
            }
            assert(ids_of(m3) =~= ids_of(m2).remove(i));
            assert(!ids_of(m3).contains(module_id@)) by {
                if ids_of(m3).contains(module_id@) {
                    let p = choose|p: int| 0 <= p < ids_of(m3).len() && ids_of(m3)[p] == module_id@;
                    let p0 = if p < i {
                        p
                    } else {
                        p + 1
                    };
                    assert(ids_of(m2)[p0] == module_id@);
                    assert(ids_of(m2)[i] == module_id@);
                }
            }
            assert forall|k: Name| #[trigger] l2.contains_key(k) && held(l2[k]) implies (state_in(m3, k) matches Some(s)
                && !loadable(s)) by {
                if k != module_id@ {
                    lemma_state_after_remove(m2, i, k);
                }
            }
        }
        Ok(())
    }
}

/// Every module the loader holds (loaded, running, or being loaded) is
/// registered, in a state from which it cannot be loaded again: whatever
/// the manager did, a module is never loaded twice.
pub proof fn lemma_held_modules_registered(m: &ModuleManager)
    requires
        m.wf(),
    ensures
        loads_agree(m.loads(), m.modules()),
{
}

} // verus!
