//! Module metadata: what a module's description file declares, and the
//! state of a registered module.

use vstd::prelude::*;

use super::version::{
    is_valid_req, is_valid_version, parse_req, parse_version, req_matches, req_matches_version,
    req_parse_error, version_parse_error, ParsedVersion,
};

verus! {

/// The kind of a module.
#[derive(Debug, Clone, Copy, PartialEq, Eq, Structural, Hash)]
pub enum ModuleType {
    /// A single-purpose module.
    Atomic,
    /// A module made of other modules.
    Composite,
    /// A plugin.
    Plugin,
    /// An application.
    Application,
    /// A background service.
    Service,
}

impl Default for ModuleType {
    fn default() -> (r: Self)
        ensures
            r == ModuleType::Atomic,
    {
        ModuleType::Atomic
    }
}

/// The runtime that executes a module.
#[derive(Debug, Clone, Copy, PartialEq, Eq, Structural, Hash)]
pub enum Runtime {
    /// Native Rust.
    Rust,
    /// JavaScript.
    JavaScript,
    /// Python.
    Python,
    /// WebAssembly.
    WebAssembly,
}

impl Default for Runtime {
    fn default() -> (r: Self)
        ensures
            r == Runtime::Rust,
    {
        Runtime::Rust
    }
}

/// Where a module starts.
#[derive(Debug, Clone)]
pub struct EntryPoint {
    /// The runtime.
    pub runtime: Runtime,
    /// Path of the entry file, relative to the module's directory.
    pub path: String,
    /// Name of the entry function, if any.
    pub function: Option<String>,
}

impl EntryPoint {
    /// A Rust entry point at `path`.
    pub fn rust(path: &str) -> (r: Self)
        ensures
            r.runtime == Runtime::Rust,
            r.path@ == path@,
            r.function is None,
    {
        EntryPoint { runtime: Runtime::Rust, path: path.to_owned(), function: None }
    }

    /// A JavaScript entry point at `path`.
    pub fn javascript(path: &str) -> (r: Self)
        ensures
            r.runtime == Runtime::JavaScript,
            r.path@ == path@,
            r.function is None,
    {
        EntryPoint { runtime: Runtime::JavaScript, path: path.to_owned(), function: None }
    }
}

/// A dependency on another module.
#[derive(Debug, Clone)]
pub struct Dependency {
    /// The module depended on.
    pub module_id: String,
    /// The version requirement, in semver range syntax (such as `^1.0.0`).
    pub version: String,
    /// Whether the dependency must be present.
    pub required: bool,
}

/// Whether a dependency is required when the description does not say.
pub fn default_required() -> (r: bool)
    ensures
        r,
{
    true
}

impl Dependency {
    /// A required dependency on `module_id` with requirement `version`.
    pub fn new(module_id: &str, version: &str) -> (r: Self)
        ensures
            r.module_id@ == module_id@,
            r.version@ == version@,
            r.required,
    {
        Dependency { module_id: module_id.to_owned(), version: version.to_owned(), required: true }
    }

    /// The same dependency, made optional.
    pub fn optional(self) -> (r: Self)
        ensures
            r.module_id == self.module_id,
            r.version == self.version,
            !r.required,
    {
        let mut d = self;
        d.required = false;
        d
    }

    /// Whether `version` satisfies this dependency's requirement; a
    /// requirement that does not parse is satisfied by no version.
    pub fn version_matches(&self, version: &ParsedVersion) -> (r: bool)
        ensures
            r == (req_parse_error(self.version@) is None && req_matches_version(
                self.version@,
                version.source(),
            )),
    {
        match parse_req(self.version.as_str()) {
            Ok(req) => req_matches(&req, version),
            Err(_) => false,
        }
    }
}

/// The interfaces a module provides and requires.
#[derive(Debug, Clone)]
pub struct ModuleInterfaces {
    /// Actions the module provides.
    pub provides: Vec<String>,
    /// Interfaces the module needs.
    pub requires: Vec<String>,
}

impl Default for ModuleInterfaces {
    fn default() -> (r: Self)
        ensures
            r.provides@.len() == 0,
            r.requires@.len() == 0,
    {
        ModuleInterfaces { provides: Vec::new(), requires: Vec::new() }
    }
}

/// The permissions of a module.
#[derive(Debug, Clone)]
pub struct ModulePermissions {
    /// Permissions the module asks for.
    pub requested: Vec<String>,
    /// Permissions the kernel granted.
    pub granted: Vec<String>,
}

impl Default for ModulePermissions {
    fn default() -> (r: Self)
        ensures
            r.requested@.len() == 0,
            r.granted@.len() == 0,
    {
        ModulePermissions { requested: Vec::new(), granted: Vec::new() }
    }
}

/// What a module is compatible with.
#[derive(Debug, Clone)]
pub struct Compatibility {
    /// Protocol version the module speaks.
    pub protocol_version: String,
    /// Platforms the module runs on; empty means all.
    pub platforms: Vec<String>,
    /// Lowest kernel version the module accepts, as a requirement.
    pub min_core_version: Option<String>,
}

/// The protocol version a module speaks when its description does not say.
pub fn default_protocol_version() -> (r: String)
    ensures
        r@ == "1.0"@,
{
    String::from_str("1.0")
}

impl Default for Compatibility {
    fn default() -> (r: Self)
        ensures
            r.protocol_version@ == "1.0"@,
            r.platforms@.len() == 0,
            r.min_core_version is None,
    {
        Compatibility {
            protocol_version: default_protocol_version(),
            platforms: Vec::new(),
            min_core_version: None,
        }
    }
}

/// The metadata a module declares.
#[derive(Debug, Clone)]
pub struct ModuleMetadata {
    /// Unique module id.
    pub id: String,
    /// Display name.
    pub name: String,
    /// Semantic version.
    pub version: String,
    /// Kind of module.
    pub module_type: ModuleType,
    /// Description.
    pub description: String,
    /// Author.
    pub author: String,
    /// Licence.
    pub license: String,
    /// Entry point.
    pub entry: EntryPoint,
    /// Dependencies, in declaration order.
    pub dependencies: Vec<Dependency>,
    /// Interfaces.
    pub interfaces: ModuleInterfaces,
    /// Permissions.
    pub permissions: ModulePermissions,
    /// Compatibility.
    pub compatibility: Compatibility,
}

/// The messages of `ModuleMetadata::validate` for the dependencies whose
/// requirement does not parse, in order.
pub open spec fn dependency_req_problems(deps: Seq<Dependency>) -> Seq<Seq<char>>
    decreases deps.len(),
{
    if deps.len() == 0 {
        Seq::empty()
    } else {
        let d = deps.last();
        let rest = dependency_req_problems(deps.drop_last());
        if req_parse_error(d.version@) is Some {
            rest.push("依赖 "@ + d.module_id@ + " 的版本要求格式无效: "@ + d.version@)
        } else {
            rest
        }
    }
}

/// The problems `ModuleMetadata::validate` reports, in order.
pub open spec fn metadata_problems(m: ModuleMetadata) -> Seq<Seq<char>> {
    let a: Seq<Seq<char>> = if m.id@.len() == 0 { seq!["模块 ID 不能为空"@] } else { Seq::empty() };
    let b: Seq<Seq<char>> = if m.name@.len() == 0 { seq!["模块名称不能为空"@] } else { Seq::empty() };
    let c: Seq<Seq<char>> = if version_parse_error(m.version@) is Some {
        seq!["无效的版本号格式: "@ + m.version@]
    } else {
        Seq::empty()
    };
    let d: Seq<Seq<char>> = if m.entry.path@.len() == 0 { seq!["入口文件路径不能为空"@] } else { Seq::empty() };
    a + b + c + d + dependency_req_problems(m.dependencies@)
}

/// `s` followed by `t`, as a new string.
fn concat(s: &str, t: &str) -> (r: String)
    ensures
        r@ == s@ + t@,
{
    let mut r = String::from_str(s);
    r.append(t);
    r
}

impl ModuleMetadata {
    /// Metadata with the given id, name and version, and defaults elsewhere:
    /// an atomic module with an empty Rust entry path and nothing declared.
    pub fn new(id: &str, name: &str, version: &str) -> (r: Self)
        ensures
            r.id@ == id@,
            r.name@ == name@,
            r.version@ == version@,
            r.module_type == ModuleType::Atomic,
            r.description@.len() == 0,
            r.author@.len() == 0,
            r.license@.len() == 0,
            r.entry.runtime == Runtime::Rust,
            r.entry.path@.len() == 0,
            r.entry.function is None,
            r.dependencies@.len() == 0,
            r.interfaces.provides@.len() == 0,
            r.interfaces.requires@.len() == 0,
            r.permissions.requested@.len() == 0,
            r.permissions.granted@.len() == 0,
            r.compatibility.protocol_version@ == "1.0"@,
            r.compatibility.platforms@.len() == 0,
            r.compatibility.min_core_version is None,
    {
        ModuleMetadata {
            id: id.to_owned(),
            name: name.to_owned(),
            version: version.to_owned(),
            module_type: ModuleType::Atomic,
            description: String::new(),
            author: String::new(),
            license: String::new(),
            entry: EntryPoint { runtime: Runtime::Rust, path: String::new(), function: None },
            dependencies: Vec::new(),
            interfaces: ModuleInterfaces::default(),
            permissions: ModulePermissions::default(),
            compatibility: Compatibility::default(),
        }
    }

    /// The version, parsed; `None` when it does not parse.
    pub fn parsed_version(&self) -> (r: Option<ParsedVersion>)
        ensures
            r is Some <==> version_parse_error(self.version@) is None,
            r matches Some(v) ==> v.source() == self.version@,
    {
        match parse_version(self.version.as_str()) {
            Ok(v) => Some(v),
            Err(_) => None,
        }
    }

    /// The problems of this metadata, given whether its version parses and,
    /// for each dependency in order, whether its requirement parses.
    pub fn problems_given(&self, version_parses: bool, reqs_parse: &Vec<bool>) -> (r: Vec<String>)
        requires
            reqs_parse.len() == self.dependencies.len(),
        ensures
            r.deep_view() == ({
                let a: Seq<Seq<char>> = if self.id@.len() == 0 { seq!["模块 ID 不能为空"@] } else { Seq::empty() };
                let b: Seq<Seq<char>> = if self.name@.len() == 0 { seq!["模块名称不能为空"@] } else { Seq::empty() };
                let c: Seq<Seq<char>> = if !version_parses { seq!["无效的版本号格式: "@ + self.version@] } else { Seq::empty() };
                let d: Seq<Seq<char>> = if self.entry.path@.len() == 0 { seq!["入口文件路径不能为空"@] } else { Seq::empty() };
                a + b + c + d + req_problems_given(self.dependencies@, reqs_parse@)
            }),
    {
        let mut errors: Vec<String> = Vec::new();
        if self.id.as_str().is_empty() {
            errors.push(String::from_str("模块 ID 不能为空"));
        }
        if self.name.as_str().is_empty() {
            errors.push(String::from_str("模块名称不能为空"));
        }
        if !version_parses {
            errors.push(concat("无效的版本号格式: ", self.version.as_str()));
        }
        if self.entry.path.as_str().is_empty() {
            errors.push(String::from_str("入口文件路径不能为空"));
        }
        let ghost head = errors.deep_view();
        let mut i: usize = 0;
        while i < self.dependencies.len()
            invariant
                i <= self.dependencies.len(),
                reqs_parse.len() == self.dependencies.len(),
                errors.deep_view() == head + req_problems_given(
                    self.dependencies@.take(i as int),
                    reqs_parse@.take(i as int),
                ),
            decreases self.dependencies.len() - i,
        {
            let dep = &self.dependencies[i];
            proof {
                assert(self.dependencies@.take(i + 1).drop_last() =~= self.dependencies@.take(i as int));
                assert(reqs_parse@.take(i + 1).drop_last() =~= reqs_parse@.take(i as int));
            }
            if !reqs_parse[i] {
                let m1 = concat("依赖 ", dep.module_id.as_str());
                let m2 = concat(m1.as_str(), " 的版本要求格式无效: ");
                let m3 = concat(m2.as_str(), dep.version.as_str());
                let ghost prev = errors.deep_view();
                errors.push(m3);
                proof {
                    assert(self.dependencies@.take(i + 1).last() == self.dependencies@[i as int]);
                    assert(reqs_parse@.take(i + 1).last() == reqs_parse@[i as int]);
                    assert(errors.deep_view() =~= prev.push(m3@));
                    assert(errors.deep_view() =~= head + req_problems_given(
                        self.dependencies@.take(i + 1),
                        reqs_parse@.take(i + 1),
                    ));
                }
            } else {
                proof {
                    assert(reqs_parse@.take(i + 1).last() == reqs_parse@[i as int]);
                }
            }
            i = i + 1;
        }
        proof {
            assert(self.dependencies@.take(self.dependencies.len() as int) =~= self.dependencies@);
            assert(reqs_parse@.take(self.dependencies.len() as int) =~= reqs_parse@);
        }
        errors
    }

    /// Checks the metadata: a non-empty id and name, a version that parses,
    /// a non-empty entry path, and a parsing requirement on each dependency.
    /// The error lists every problem found, in that order.
    pub fn validate(&self) -> (r: Result<(), Vec<String>>)
        ensures
            match r {
                Ok(()) => metadata_problems(*self).len() == 0,
                Err(msgs) => metadata_problems(*self).len() > 0 && msgs.deep_view() == metadata_problems(*self),
            },
    {
        let version_parses = is_valid_version(self.version.as_str());
        let mut reqs_parse: Vec<bool> = Vec::new();
        let mut i: usize = 0;
        while i < self.dependencies.len()
            invariant
                i <= self.dependencies.len(),
                reqs_parse.len() == i,
                forall|j: int| 0 <= j < i ==> reqs_parse@[j] == (req_parse_error(self.dependencies@[j].version@) is None),
            decreases self.dependencies.len() - i,
        {
            reqs_parse.push(is_valid_req(self.dependencies[i].version.as_str()));
            i = i + 1;
        }
        let errors = self.problems_given(version_parses, &reqs_parse);
        proof {
            lemma_req_problems_given(self.dependencies@, reqs_parse@);
        }
        if errors.len() == 0 {
            Ok(())
        } else {
            Err(errors)
        }
    }
}

/// The dependency messages of `ModuleMetadata::problems_given`, where
/// `parses[i]` tells whether the requirement of `deps[i]` parses.
pub open spec fn req_problems_given(deps: Seq<Dependency>, parses: Seq<bool>) -> Seq<Seq<char>>
    decreases deps.len(),
{
    if deps.len() == 0 || parses.len() == 0 {
        Seq::empty()
    } else {
        let d = deps.last();
        let rest = req_problems_given(deps.drop_last(), parses.drop_last());
        if !parses.last() {
            rest.push("依赖 "@ + d.module_id@ + " 的版本要求格式无效: "@ + d.version@)
        } else {
            rest
        }
    }
}

proof fn lemma_req_problems_given(deps: Seq<Dependency>, parses: Seq<bool>)
    requires
        deps.len() == parses.len(),
        forall|j: int| 0 <= j < deps.len() ==> parses[j] == (req_parse_error(#[trigger] deps[j].version@) is None),
    ensures
        req_problems_given(deps, parses) == dependency_req_problems(deps),
    decreases deps.len(),
{
    if deps.len() > 0 {
        lemma_req_problems_given(deps.drop_last(), parses.drop_last());
        assert(parses.last() == (req_parse_error(deps[deps.len() - 1].version@) is None));
    }
}

/// The state of a registered module.
#[derive(Debug, Clone, Copy, PartialEq, Eq, Structural, Hash)]
pub enum ModuleState {
    /// Registered, not loaded.
    Registered,
    /// Being loaded.
    Loading,
    /// Loaded.
    Loaded,
    /// Starting.
    Starting,
    /// Running.
    Running,
    /// Stopping.
    Stopping,
    /// Stopped.
    Stopped,
    /// Being unloaded.
    Unloading,
    /// Unloaded.
    Unloaded,
    /// Failed.
    Error,
}

impl Default for ModuleState {
    fn default() -> (r: Self)
        ensures
            r == ModuleState::Registered,
    {
        ModuleState::Registered
    }
}

impl ModuleState {
    /// Whether a module in this state may be loaded: registered or unloaded.
    pub fn can_load(&self) -> (r: bool)
        ensures
            r == (*self == ModuleState::Registered || *self == ModuleState::Unloaded),
    {
        match self {
            ModuleState::Registered | ModuleState::Unloaded => true,
            _ => false,
        }
    }

    /// Whether a module in this state may be started: loaded or stopped.
    pub fn can_start(&self) -> (r: bool)
        ensures
            r == (*self == ModuleState::Loaded || *self == ModuleState::Stopped),
    {
        match self {
            ModuleState::Loaded | ModuleState::Stopped => true,
            _ => false,
        }
    }

    /// Whether a module in this state may be stopped: running.
    pub fn can_stop(&self) -> (r: bool)
        ensures
            r == (*self == ModuleState::Running),
    {
        match self {
            ModuleState::Running => true,
            _ => false,
        }
    }

    /// Whether a module in this state may be unloaded: loaded, stopped or
    /// failed.
    pub fn can_unload(&self) -> (r: bool)
        ensures
            r == (*self == ModuleState::Loaded || *self == ModuleState::Stopped || *self
                == ModuleState::Error),
    {
        match self {
            ModuleState::Loaded | ModuleState::Stopped | ModuleState::Error => true,
            _ => false,
        }
    }
}

/// A registered module: its metadata and its state.
///
/// Times are milliseconds since the Unix epoch.
#[derive(Debug, Clone)]
pub struct ModuleInfo {
    /// The metadata.
    pub metadata: ModuleMetadata,
    /// The state.
    pub state: ModuleState,
    /// The module's directory.
    pub path: String,
    /// When the module was loaded.
    pub loaded_at: Option<i64>,
    /// When the module was started.
    pub started_at: Option<i64>,
    /// The last error.
    pub last_error: Option<String>,
}

impl ModuleInfo {
    /// A registered module with `metadata` found at `path`.
    pub fn new(metadata: ModuleMetadata, path: String) -> (r: Self)
        ensures
            r.metadata == metadata,
            r.state == ModuleState::Registered,
            r.path == path,
            r.loaded_at is None,
            r.started_at is None,
            r.last_error is None,
    {
        ModuleInfo { metadata, state: ModuleState::Registered, path, loaded_at: None, started_at: None, last_error: None }
    }

    /// The module id.
    pub fn id(&self) -> (r: &str)
        ensures
            r@ == self.metadata.id@,
    {
        self.metadata.id.as_str()
    }

    /// The module version.
    pub fn version(&self) -> (r: &str)
        ensures
            r@ == self.metadata.version@,
    {
        self.metadata.version.as_str()
    }

    /// Whether the module is running.
    pub fn is_running(&self) -> (r: bool)
        ensures
            r == (self.state == ModuleState::Running),
    {
        self.state == ModuleState::Running
    }
}

/// The health of a module: a status word, an optional reason, and when it
/// was checked (milliseconds since the Unix epoch).
#[derive(Debug, Clone)]
pub struct HealthStatus {
    /// `healthy`, `degraded` or `unhealthy`.
    pub status: String,
    /// Why the module is not healthy.
    pub reason: Option<String>,
    /// When the health was checked.
    pub checked_at: i64,
}

impl HealthStatus {
    /// A healthy status checked at `checked_at`.
    pub fn healthy_at(checked_at: i64) -> (r: Self)
        ensures
            r.status@ == "healthy"@,
            r.reason is None,
            r.checked_at == checked_at,
    {
        HealthStatus { status: String::from_str("healthy"), reason: None, checked_at }
    }

    /// A degraded status with `reason`, checked at `checked_at`.
    pub fn degraded_at(reason: &str, checked_at: i64) -> (r: Self)
        ensures
            r.status@ == "degraded"@,
            r.reason matches Some(x) && x@ == reason@,
            r.checked_at == checked_at,
    {
        HealthStatus { status: String::from_str("degraded"), reason: Some(reason.to_owned()), checked_at }
    }

    /// An unhealthy status with `reason`, checked at `checked_at`.
    pub fn unhealthy_at(reason: &str, checked_at: i64) -> (r: Self)
        ensures
            r.status@ == "unhealthy"@,
            r.reason matches Some(x) && x@ == reason@,
            r.checked_at == checked_at,
    {
        HealthStatus { status: String::from_str("unhealthy"), reason: Some(reason.to_owned()), checked_at }
    }

    /// A healthy status checked now.
    pub fn healthy() -> (r: Self)
        ensures
            r.status@ == "healthy"@,
            r.reason is None,
    {
        Self::healthy_at(crate::utils::clock::now_millis())
    }

    /// A degraded status with `reason`, checked now.
    pub fn degraded(reason: &str) -> (r: Self)
        ensures
            r.status@ == "degraded"@,
            r.reason matches Some(x) && x@ == reason@,
    {
        Self::degraded_at(reason, crate::utils::clock::now_millis())
    }

    /// An unhealthy status with `reason`, checked now.
    pub fn unhealthy(reason: &str) -> (r: Self)
        ensures
            r.status@ == "unhealthy"@,
            r.reason matches Some(x) && x@ == reason@,
    {
        Self::unhealthy_at(reason, crate::utils::clock::now_millis())
    }

    /// Whether the status is `healthy`.
    pub fn is_healthy(&self) -> (r: bool)
        ensures
            r == (self.status@ == "healthy"@),
    {
        crate::utils::text::str_eq(self.status.as_str(), "healthy")
    }
}

} // verus!
