//! The kernel's configuration: router, logging and module settings, their
//! defaults, a builder, and how two configurations merge.
//!
//! Paths are held as text.
//!
//! The library does not query the machine: the default worker count is
//! twice the parallelism the caller passes to
//! [`CoreConfig::for_parallelism`] (or [`CoreConfig::merge_for`]). Where no
//! parallelism is given (`Default`, the builder, [`CoreConfig::merge`]), it
//! is twice [`FALLBACK_PARALLELISM`], that is 8 workers on any machine; a
//! program that wants its machine's value reads the parallelism itself and
//! passes it in.

use vstd::prelude::*;

verus! {

/// Router settings.
#[derive(Debug, Clone)]
pub struct RouterConfig {
    /// Number of worker tasks.
    pub worker_count: usize,
    /// Most requests handled at once.
    pub max_concurrent: usize,
    /// Size of the request queue.
    pub queue_size: usize,
    /// Timeout of a request, in milliseconds.
    pub default_timeout_ms: u64,
}

/// The parallelism assumed when the caller gives none: the library does
/// not read the machine's own.
pub const FALLBACK_PARALLELISM: usize = 4;

/// Default number of workers: twice the machine's parallelism, or twice
/// [`FALLBACK_PARALLELISM`] when it is unknown.
pub fn default_worker_count(available_parallelism: Option<usize>) -> (r: usize)
    requires
        available_parallelism matches Some(n) ==> n <= usize::MAX / 2,
    ensures
        r == match available_parallelism {
            Some(n) => 2 * n,
            None => 2 * FALLBACK_PARALLELISM,
        },
{
    match available_parallelism {
        Some(n) => n * 2,
        None => FALLBACK_PARALLELISM * 2,
    }
}

/// Default number of requests handled at once.
pub fn default_max_concurrent() -> (r: usize)
    ensures
        r == 1000,
{
    1000
}

/// Default size of the request queue.
pub fn default_queue_size() -> (r: usize)
    ensures
        r == 10000,
{
    10000
}

/// Default request timeout, in milliseconds.
pub fn default_timeout_ms() -> (r: u64)
    ensures
        r == 30000,
{
    30000
}

impl RouterConfig {
    /// The default router settings on a machine of parallelism
    /// `available_parallelism` (unknown when `None`).
    pub fn for_parallelism(available_parallelism: Option<usize>) -> (r: Self)
        requires
            available_parallelism matches Some(n) ==> n <= usize::MAX / 2,
        ensures
            r.worker_count == match available_parallelism {
                Some(n) => 2 * n,
                None => 2 * FALLBACK_PARALLELISM,
            },
            r.max_concurrent == 1000,
            r.queue_size == 10000,
            r.default_timeout_ms == 30000,
    {
        RouterConfig {
            worker_count: default_worker_count(available_parallelism),
            max_concurrent: default_max_concurrent(),
            queue_size: default_queue_size(),
            default_timeout_ms: default_timeout_ms(),
        }
    }
}

impl Default for RouterConfig {
    /// The default router settings with no parallelism given: 8 workers on
    /// any machine. For twice a machine's parallelism, use
    /// [`RouterConfig::for_parallelism`].
    fn default() -> (r: Self)
        ensures
            r.worker_count == 2 * FALLBACK_PARALLELISM,
            r.max_concurrent == 1000,
            r.queue_size == 10000,
            r.default_timeout_ms == 30000,
    {
        RouterConfig::for_parallelism(None)
    }
}

/// Logging settings.
#[derive(Debug, Clone)]
pub struct LogConfig {
    /// Log level.
    pub level: String,
    /// Whether logs go to files.
    pub file_output: bool,
    /// Directory of the log files.
    pub log_dir: Option<String>,
    /// Whether logs are JSON.
    pub json_format: bool,
    /// How log files rotate.
    pub rotation: String,
    /// Most log files kept.
    pub max_files: usize,
}

/// Default log level.
pub fn default_log_level() -> (r: String)
    ensures
        r@ == "info"@,
{
    String::from_str("info")
}

/// Default rotation of log files.
pub fn default_rotation() -> (r: String)
    ensures
        r@ == "daily"@,
{
    String::from_str("daily")
}

/// Default number of log files kept.
pub fn default_max_files() -> (r: usize)
    ensures
        r == 7,
{
    7
}

impl Default for LogConfig {
    fn default() -> (r: Self)
        ensures
            r.level@ == "info"@,
            !r.file_output,
            r.log_dir is None,
            !r.json_format,
            r.rotation@ == "daily"@,
            r.max_files == 7,
    {
        LogConfig {
            level: default_log_level(),
            file_output: false,
            log_dir: None,
            json_format: false,
            rotation: default_rotation(),
            max_files: default_max_files(),
        }
    }
}

/// Module settings.
#[derive(Debug, Clone)]
pub struct ModuleConfig {
    /// Directories searched for modules.
    pub module_dirs: Vec<String>,
    /// Whether modules are reloaded when they change.
    pub hot_reload: bool,
    /// Seconds between health checks.
    pub health_check_interval_secs: u64,
    /// Modules loaded at start.
    pub auto_load: Vec<String>,
}

/// `true`, the default of switches that are on unless said otherwise.
pub fn default_true() -> (r: bool)
    ensures
        r,
{
    true
}

/// Default seconds between health checks.
pub fn default_health_check_interval() -> (r: u64)
    ensures
        r == 30,
{
    30
}

impl Default for ModuleConfig {
    fn default() -> (r: Self)
        ensures
            r.module_dirs@.len() == 0,
            r.hot_reload,
            r.health_check_interval_secs == 30,
            r.auto_load@.len() == 0,
    {
        ModuleConfig {
            module_dirs: Vec::new(),
            hot_reload: default_true(),
            health_check_interval_secs: default_health_check_interval(),
            auto_load: Vec::new(),
        }
    }
}

/// The kernel's configuration.
#[derive(Debug, Clone)]
pub struct CoreConfig {
    /// File the configuration was read from.
    pub config_path: Option<String>,
    /// Router settings.
    pub router: RouterConfig,
    /// Logging settings.
    pub logging: LogConfig,
    /// Module settings.
    pub modules: ModuleConfig,
    /// Development mode.
    pub dev_mode: bool,
    /// Data directory.
    pub data_dir: Option<String>,
}

/// The names held by a list of strings.
pub open spec fn texts(v: Seq<String>) -> Seq<Seq<char>> {
    v.map_values(|s: String| s@)
}

/// Whether `c` holds the default settings: on a machine whose default
/// worker count is `workers`, with no file read.
pub open spec fn is_default_config(c: CoreConfig, workers: usize) -> bool {
    &&& c.config_path is None
    &&& c.router.worker_count == workers
    &&& c.router.max_concurrent == 1000
    &&& c.router.queue_size == 10000
    &&& c.router.default_timeout_ms == 30000
    &&& c.logging.level@ == "info"@
    &&& !c.logging.file_output
    &&& c.logging.log_dir is None
    &&& !c.logging.json_format
    &&& c.logging.rotation@ == "daily"@
    &&& c.logging.max_files == 7
    &&& c.modules.module_dirs@.len() == 0
    &&& c.modules.hot_reload
    &&& c.modules.health_check_interval_secs == 30
    &&& c.modules.auto_load@.len() == 0
    &&& !c.dev_mode
    &&& c.data_dir is None
}

/// Router settings `a` merged with `b`, a worker count of `workers` being
/// the default: each setting of `b` that differs from its default wins.
pub open spec fn merged_router(a: RouterConfig, b: RouterConfig, workers: usize) -> RouterConfig {
    RouterConfig {
        worker_count: if b.worker_count != workers { b.worker_count } else { a.worker_count },
        max_concurrent: if b.max_concurrent != 1000 { b.max_concurrent } else { a.max_concurrent },
        queue_size: if b.queue_size != 10000 { b.queue_size } else { a.queue_size },
        default_timeout_ms: if b.default_timeout_ms != 30000 { b.default_timeout_ms } else { a.default_timeout_ms },
    }
}

/// Logging settings `a` merged with `b`: a level, rotation or number of
/// files of `b` that differs from its default wins; file logging (with its
/// directory) and JSON logging of `b` are taken when set.
pub open spec fn merged_logging(a: LogConfig, b: LogConfig) -> LogConfig {
    LogConfig {
        level: if b.level@ != "info"@ { b.level } else { a.level },
        file_output: a.file_output || b.file_output,
        log_dir: if b.file_output { b.log_dir } else { a.log_dir },
        json_format: a.json_format || b.json_format,
        rotation: if b.rotation@ != "daily"@ { b.rotation } else { a.rotation },
        max_files: if b.max_files != 7 { b.max_files } else { a.max_files },
    }
}

/// `a` merged with `b`, given the default worker count `workers`: each
/// setting of `b` that differs from its default overrides that of `a`;
/// module directories of `b` are added after those of `a`.
pub open spec fn merged(a: CoreConfig, b: CoreConfig, workers: usize) -> CoreConfig {
    CoreConfig {
        router: merged_router(a.router, b.router, workers),
        logging: merged_logging(a.logging, b.logging),
        dev_mode: a.dev_mode || b.dev_mode,
        data_dir: if b.data_dir is Some { b.data_dir } else { a.data_dir },
        ..a
    }
}

impl RouterConfig {
    /// Takes each setting of `other` that differs from its default, a
    /// worker count of `workers` being the default.
    fn merge_from(&mut self, other: &RouterConfig, workers: usize)
        ensures
            *final(self) == merged_router(*old(self), *other, workers),
    {
        if other.worker_count != workers {
            self.worker_count = other.worker_count;
        }
        if other.max_concurrent != default_max_concurrent() {
            self.max_concurrent = other.max_concurrent;
        }
        if other.queue_size != default_queue_size() {
            self.queue_size = other.queue_size;
        }
        if other.default_timeout_ms != default_timeout_ms() {
            self.default_timeout_ms = other.default_timeout_ms;
        }
    }
}

impl LogConfig {
    /// Takes each setting of `other` that differs from its default, and
    /// file or JSON logging when `other` asks for it.
    fn merge_from(&mut self, other: LogConfig)
        ensures
            *final(self) == merged_logging(*old(self), other),
    {
        let default_level = default_log_level();
        let default_rot = default_rotation();
        let LogConfig { level, file_output, log_dir, json_format, rotation, max_files } = other;
        if !(level == default_level) {
            self.level = level;
        }
        if file_output {
            self.file_output = true;
            self.log_dir = log_dir;
        }
        if json_format {
            self.json_format = true;
        }
        if !(rotation == default_rot) {
            self.rotation = rotation;
        }
        if max_files != default_max_files() {
            self.max_files = max_files;
        }
    }
}

impl CoreConfig {
    /// The default configuration on a machine of parallelism
    /// `available_parallelism` (unknown when `None`).
    pub fn for_parallelism(available_parallelism: Option<usize>) -> (r: Self)
        requires
            available_parallelism matches Some(n) ==> n <= usize::MAX / 2,
        ensures
            is_default_config(r, match available_parallelism {
                Some(n) => (2 * n) as usize,
                None => (2 * FALLBACK_PARALLELISM) as usize,
            }),
    {
        CoreConfig {
            config_path: None,
            router: RouterConfig::for_parallelism(available_parallelism),
            logging: LogConfig::default(),
            modules: ModuleConfig::default(),
            dev_mode: false,
            data_dir: None,
        }
    }

    /// A builder starting from the default configuration (no parallelism
    /// given, so 8 workers; set another with `worker_count`).
    pub fn builder() -> (r: CoreConfigBuilder)
        ensures
            is_default_config(r.config, (2 * FALLBACK_PARALLELISM) as usize),
    {
        CoreConfigBuilder::new()
    }

    /// Merges `other` into this configuration, where a worker count of
    /// `workers` is the default: each router and logging setting of
    /// `other` that differs from its default (worker count, requests at
    /// once, queue size, timeout, log level, rotation, files kept)
    /// overrides this one's; file logging (with its directory), JSON
    /// logging, development mode and a data directory of `other` are
    /// taken when set; its module directories are added after these.
    pub fn merge_for(&mut self, other: CoreConfig, workers: usize)
        ensures
            final(self).router == merged(*old(self), other, workers).router,
            final(self).logging == merged(*old(self), other, workers).logging,
            final(self).dev_mode == merged(*old(self), other, workers).dev_mode,
            final(self).data_dir == merged(*old(self), other, workers).data_dir,
            final(self).config_path == old(self).config_path,
            final(self).modules.hot_reload == old(self).modules.hot_reload,
            final(self).modules.health_check_interval_secs == old(self).modules.health_check_interval_secs,
            final(self).modules.auto_load == old(self).modules.auto_load,
            texts(final(self).modules.module_dirs@) == texts(old(self).modules.module_dirs@) + texts(
                other.modules.module_dirs@,
            ),
    {
        self.router.merge_from(&other.router, workers);
        let CoreConfig { config_path: _, router: _, logging, modules, dev_mode, data_dir } = other;
        self.logging.merge_from(logging);
        let ghost dirs0 = texts(self.modules.module_dirs@);
        let extra = modules.module_dirs;
        let mut i: usize = 0;
        proof {
            assert(extra@.take(0) =~= Seq::<String>::empty());
            assert(texts(self.modules.module_dirs@) =~= dirs0 + texts(extra@.take(0)));
        }
        while i < extra.len()
            invariant
                i <= extra.len(),
                texts(self.modules.module_dirs@) == dirs0 + texts(extra@.take(i as int)),
                self.modules.hot_reload == old(self).modules.hot_reload,
                self.modules.health_check_interval_secs == old(self).modules.health_check_interval_secs,
                self.modules.auto_load == old(self).modules.auto_load,
                self.router == merged(*old(self), other, workers).router,
                self.logging == merged(*old(self), other, workers).logging,
                self.config_path == old(self).config_path,
                self.dev_mode == old(self).dev_mode,
                self.data_dir == old(self).data_dir,
            decreases extra.len() - i,
        {
            let ghost before = self.modules.module_dirs@;
            self.modules.module_dirs.push(extra[i].clone());
            proof {
                assert(texts(self.modules.module_dirs@) =~= texts(before).push(extra@[i as int]@));
                assert(texts(extra@.take(i + 1)) =~= texts(extra@.take(i as int)).push(extra@[i as int]@));
            }
            i = i + 1;
        }
        proof {
            assert(extra@.take(extra.len() as int) =~= extra@);
        }
        if dev_mode {
            self.dev_mode = true;
        }
        if data_dir.is_some() {
            self.data_dir = data_dir;
        }
    }

    /// Merges `other` into this configuration (see
    /// [`CoreConfig::merge_for`]), the default worker count being 8 (no
    /// parallelism given); use [`CoreConfig::merge_for`] with twice the
    /// machine's parallelism to compare against that machine's default.
    pub fn merge(&mut self, other: CoreConfig)
        ensures
            final(self).router == merged(*old(self), other, (2 * FALLBACK_PARALLELISM) as usize).router,
            final(self).logging == merged(*old(self), other, (2 * FALLBACK_PARALLELISM) as usize).logging,
            final(self).dev_mode == merged(*old(self), other, (2 * FALLBACK_PARALLELISM) as usize).dev_mode,
            final(self).data_dir == merged(*old(self), other, (2 * FALLBACK_PARALLELISM) as usize).data_dir,
            final(self).config_path == old(self).config_path,
            texts(final(self).modules.module_dirs@) == texts(old(self).modules.module_dirs@) + texts(
                other.modules.module_dirs@,
            ),
    {
        self.merge_for(other, default_worker_count(None))
    }
}

impl Default for CoreConfig {
    /// The default configuration with no parallelism given: 8 workers on
    /// any machine. For twice a machine's parallelism, use
    /// [`CoreConfig::for_parallelism`].
    fn default() -> (r: Self)
        ensures
            is_default_config(r, (2 * FALLBACK_PARALLELISM) as usize),
    {
        CoreConfig::for_parallelism(None)
    }
}

/// Builds a configuration step by step.
#[derive(Debug)]
pub struct CoreConfigBuilder {
    /// The configuration built so far.
    pub config: CoreConfig,
}

impl CoreConfigBuilder {
    /// A builder starting from the default configuration (no parallelism
    /// given, so 8 workers; set another with `worker_count`).
    pub fn new() -> (r: Self)
        ensures
            is_default_config(r.config, (2 * FALLBACK_PARALLELISM) as usize),
    {
        CoreConfigBuilder { config: CoreConfig::default() }
    }

    /// Sets the configuration file.
    pub fn config_path(self, path: &str) -> (r: Self)
        ensures
            r.config == (CoreConfig { config_path: r.config.config_path, ..self.config }),
            r.config.config_path matches Some(p) && p@ == path@,
    {
        let mut s = self;
        s.config.config_path = Some(path.to_owned());
        s
    }

    /// Sets the number of workers.
    pub fn worker_count(self, count: usize) -> (r: Self)
        ensures
            r.config == (CoreConfig { router: RouterConfig { worker_count: count, ..self.config.router }, ..self.config }),
    {
        let mut s = self;
        s.config.router.worker_count = count;
        s
    }

    /// Sets the number of requests handled at once.
    pub fn max_concurrent(self, count: usize) -> (r: Self)
        ensures
            r.config == (CoreConfig { router: RouterConfig { max_concurrent: count, ..self.config.router }, ..self.config }),
    {
        let mut s = self;
        s.config.router.max_concurrent = count;
        s
    }

    /// Sets the log level.
    pub fn log_level(self, level: &str) -> (r: Self)
        ensures
            r.config == (CoreConfig { logging: LogConfig { level: r.config.logging.level, ..self.config.logging }, ..self.config }),
            r.config.logging.level@ == level@,
    {
        let mut s = self;
        s.config.logging.level = level.to_owned();
        s
    }

    /// Turns file logging on, into `log_dir`.
    pub fn file_logging(self, log_dir: &str) -> (r: Self)
        ensures
            r.config == (CoreConfig {
                logging: LogConfig { file_output: true, log_dir: r.config.logging.log_dir, ..self.config.logging },
                ..self.config
            }),
            r.config.logging.log_dir matches Some(d) && d@ == log_dir@,
    {
        let mut s = self;
        s.config.logging.file_output = true;
        s.config.logging.log_dir = Some(log_dir.to_owned());
        s
    }

    /// Turns JSON logging on.
    pub fn json_logging(self) -> (r: Self)
        ensures
            r.config == (CoreConfig { logging: LogConfig { json_format: true, ..self.config.logging }, ..self.config }),
    {
        let mut s = self;
        s.config.logging.json_format = true;
        s
    }

    /// Adds module directory `dir`.
    pub fn module_dir(self, dir: &str) -> (r: Self)
        ensures
            r.config == (CoreConfig {
                modules: ModuleConfig { module_dirs: r.config.modules.module_dirs, ..self.config.modules },
                ..self.config
            }),
            texts(r.config.modules.module_dirs@) == texts(self.config.modules.module_dirs@).push(dir@),
    {
        let mut s = self;
        let ghost before = s.config.modules.module_dirs@;
        s.config.modules.module_dirs.push(dir.to_owned());
        proof {
            assert(texts(s.config.modules.module_dirs@) =~= texts(before).push(dir@));
        }
        s
    }

    /// Turns development mode on.
    pub fn dev_mode(self) -> (r: Self)
        ensures
            r.config == (CoreConfig { dev_mode: true, ..self.config }),
    {
        let mut s = self;
        s.config.dev_mode = true;
        s
    }

    /// Sets the data directory.
    pub fn data_dir(self, dir: &str) -> (r: Self)
        ensures
            r.config == (CoreConfig { data_dir: r.config.data_dir, ..self.config }),
            r.config.data_dir matches Some(d) && d@ == dir@,
    {
        let mut s = self;
        s.config.data_dir = Some(dir.to_owned());
        s
    }

    /// The configuration.
    pub fn build(self) -> (r: CoreConfig)
        ensures
            r == self.config,
    {
        self.config
    }
}

/// Where a configuration layer comes from; later sources override earlier
/// ones.
#[derive(Debug, Clone, Copy, PartialEq, Eq, Structural, PartialOrd, Ord)]
pub enum ConfigSource {
    /// Built-in defaults.
    Default,
    /// The system configuration.
    System,
    /// The user configuration.
    User,
    /// Environment variables.
    Environment,
}

/// The name of a configuration source.
pub open spec fn source_name(s: ConfigSource) -> Seq<char> {
    match s {
        ConfigSource::Default => "default"@,
        ConfigSource::System => "system"@,
        ConfigSource::User => "user"@,
        ConfigSource::Environment => "environment"@,
    }
}

impl ConfigSource {
    /// The name of this source: `default`, `system`, `user` or
    /// `environment`.
    pub fn to_string(&self) -> (r: String)
        ensures
            r@ == source_name(*self),
    {
        match self {
            ConfigSource::Default => String::from_str("default"),
            ConfigSource::System => String::from_str("system"),
            ConfigSource::User => String::from_str("user"),
            ConfigSource::Environment => String::from_str("environment"),
        }
    }

    /// The rank of this source: 0 for the defaults up to 3 for the
    /// environment.
    pub fn rank(&self) -> (r: u8)
        ensures
            r == match *self {
                ConfigSource::Default => 0u8,
                ConfigSource::System => 1u8,
                ConfigSource::User => 2u8,
                ConfigSource::Environment => 3u8,
            },
    {
        match self {
            ConfigSource::Default => 0,
            ConfigSource::System => 1,
            ConfigSource::User => 2,
            ConfigSource::Environment => 3,
        }
    }
}

} // verus!
