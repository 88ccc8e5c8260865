//! Logging settings: levels, file rotation, and what log records show.

pub mod fields;

use vstd::prelude::*;

use super::text::{lowercase, str_eq, to_lowercase};
use crate::config::LogConfig;

verus! {

/// How often log files rotate.
#[derive(Debug, Clone, Copy, PartialEq, Eq, Structural)]
pub enum RotationStrategy {
    /// Never.
    Never,
    /// Every minute.
    Minutely,
    /// Every hour.
    Hourly,
    /// Every day.
    Daily,
}

impl Default for RotationStrategy {
    fn default() -> (r: Self)
        ensures
            r == RotationStrategy::Daily,
    {
        RotationStrategy::Daily
    }
}

/// The rotation a name stands for, in any case: `never` or `none`,
/// `minutely` or `minute`, `hourly` or `hour`; anything else is daily.
pub open spec fn rotation_named(name: Seq<char>) -> RotationStrategy {
    let l = lowercase(name);
    if l == "never"@ || l == "none"@ {
        RotationStrategy::Never
    } else if l == "minutely"@ || l == "minute"@ {
        RotationStrategy::Minutely
    } else if l == "hourly"@ || l == "hour"@ {
        RotationStrategy::Hourly
    } else {
        RotationStrategy::Daily
    }
}

/// The name of a rotation.
pub open spec fn rotation_name(r: RotationStrategy) -> Seq<char> {
    match r {
        RotationStrategy::Never => "never"@,
        RotationStrategy::Minutely => "minutely"@,
        RotationStrategy::Hourly => "hourly"@,
        RotationStrategy::Daily => "daily"@,
    }
}

impl RotationStrategy {
    /// The rotation named `s` (see [`rotation_named`]).
    pub fn from_str(s: &str) -> (r: Self)
        ensures
            r == rotation_named(s@),
    {
        let l = to_lowercase(s);
        let l = l.as_str();
        if str_eq(l, "never") || str_eq(l, "none") {
            RotationStrategy::Never
        } else if str_eq(l, "minutely") || str_eq(l, "minute") {
            RotationStrategy::Minutely
        } else if str_eq(l, "hourly") || str_eq(l, "hour") {
            RotationStrategy::Hourly
        } else {
            RotationStrategy::Daily
        }
    }

    /// The name of this rotation: `never`, `minutely`, `hourly` or `daily`.
    pub fn to_string(&self) -> (r: String)
        ensures
            r@ == rotation_name(*self),
    {
        match self {
            RotationStrategy::Never => String::from_str("never"),
            RotationStrategy::Minutely => String::from_str("minutely"),
            RotationStrategy::Hourly => String::from_str("hourly"),
            RotationStrategy::Daily => String::from_str("daily"),
        }
    }
}

/// Which span events are logged.
#[derive(Debug, Clone, Copy, PartialEq, Eq, Structural)]
pub struct SpanEvents {
    /// Entering a span.
    pub enter: bool,
    /// Leaving a span.
    pub exit: bool,
    /// Closing a span.
    pub close: bool,
}

impl Default for SpanEvents {
    fn default() -> (r: Self)
        ensures
            !r.enter && !r.exit && !r.close,
    {
        SpanEvents { enter: false, exit: false, close: false }
    }
}

/// A level of log records.
#[derive(Debug, Clone, Copy, PartialEq, Eq, Structural)]
pub enum LogLevel {
    /// Trace.
    Trace,
    /// Debug.
    Debug,
    /// Info.
    Info,
    /// Warn.
    Warn,
    /// Error.
    Error,
}

/// The level a name stands for, in any case: `trace`, `debug`, `info`,
/// `warn` or `warning`, `error`; anything else is info.
pub open spec fn level_named(name: Seq<char>) -> LogLevel {
    let l = lowercase(name);
    if l == "trace"@ {
        LogLevel::Trace
    } else if l == "debug"@ {
        LogLevel::Debug
    } else if l == "info"@ {
        LogLevel::Info
    } else if l == "warn"@ || l == "warning"@ {
        LogLevel::Warn
    } else if l == "error"@ {
        LogLevel::Error
    } else {
        LogLevel::Info
    }
}

/// Logging settings.
#[derive(Debug, Clone)]
pub struct LoggerConfig {
    /// Level, as a name.
    pub level: String,
    /// Whether records are JSON.
    pub json_format: bool,
    /// Whether records go to the console.
    pub console_output: bool,
    /// Directory of log files, if records go to files.
    pub file_output: Option<String>,
    /// Prefix of log file names.
    pub file_prefix: String,
    /// How log files rotate.
    pub rotation: RotationStrategy,
    /// Most log files kept.
    pub max_files: usize,
    /// Whether records show their target.
    pub show_target: bool,
    /// Whether records show thread ids.
    pub show_thread_ids: bool,
    /// Whether records show file and line.
    pub show_file_line: bool,
    /// Whether records show the time.
    pub show_timestamp: bool,
    /// Whether records show the level.
    pub show_level: bool,
    /// Filter directives, comma separated.
    pub filter_directives: Option<String>,
    /// Whether the console output is coloured.
    pub ansi_colors: bool,
    /// Which span events are logged.
    pub span_events: SpanEvents,
}

/// Whether `c` holds the default logging settings, but for its level,
/// JSON format, file output, rotation and number of files.
pub open spec fn logger_defaults_elsewhere(c: LoggerConfig) -> bool {
    &&& c.console_output
    &&& c.file_prefix@ == "chips-core"@
    &&& c.show_target
    &&& !c.show_thread_ids
    &&& c.show_file_line
    &&& c.show_timestamp
    &&& c.show_level
    &&& c.filter_directives is None
    &&& c.ansi_colors
    &&& c.span_events == SpanEvents { enter: false, exit: false, close: false }
}

/// Whether `c` holds the default logging settings.
pub open spec fn is_default_logger(c: LoggerConfig) -> bool {
    &&& c.level@ == "info"@
    &&& !c.json_format
    &&& c.file_output is None
    &&& c.rotation == RotationStrategy::Daily
    &&& c.max_files == 7
    &&& logger_defaults_elsewhere(c)
}

impl Default for LoggerConfig {
    fn default() -> (r: Self)
        ensures
            is_default_logger(r),
    {
        LoggerConfig {
            level: String::from_str("info"),
            json_format: false,
            console_output: true,
            file_output: None,
            file_prefix: String::from_str("chips-core"),
            rotation: RotationStrategy::Daily,
            max_files: 7,
            show_target: true,
            show_thread_ids: false,
            show_file_line: true,
            show_timestamp: true,
            show_level: true,
            filter_directives: None,
            ansi_colors: true,
            span_events: SpanEvents::default(),
        }
    }
}

impl LoggerConfig {
    /// A builder starting from the default settings.
    pub fn builder() -> (r: LoggerConfigBuilder)
        ensures
            is_default_logger(r.config),
    {
        LoggerConfigBuilder::new()
    }

    /// The logging settings of the kernel's log configuration: its level,
    /// JSON format, rotation and number of files; its directory when file
    /// output is on; the defaults elsewhere.
    pub fn from_log_config(log_config: &LogConfig) -> (r: Self)
        ensures
            r.level == log_config.level,
            r.json_format == log_config.json_format,
            r.file_output == if log_config.file_output { log_config.log_dir } else { None },
            r.rotation == rotation_named(log_config.rotation@),
            r.max_files == log_config.max_files,
            logger_defaults_elsewhere(r),
    {
        let d = LoggerConfig::default();
        let file_output = if log_config.file_output {
            match &log_config.log_dir {
                Some(p) => Some(p.clone()),
                None => None,
            }
        } else {
            None
        };
        LoggerConfig {
            level: log_config.level.clone(),
            json_format: log_config.json_format,
            console_output: true,
            file_output,
            file_prefix: String::from_str("chips-core"),
            rotation: RotationStrategy::from_str(log_config.rotation.as_str()),
            max_files: log_config.max_files,
            ..d
        }
    }

    /// The level named by this configuration (see [`level_named`]).
    pub fn parse_level(&self) -> (r: LogLevel)
        ensures
            r == level_named(self.level@),
    {
        let l = to_lowercase(self.level.as_str());
        let l = l.as_str();
        if str_eq(l, "trace") {
            LogLevel::Trace
        } else if str_eq(l, "debug") {
            LogLevel::Debug
        } else if str_eq(l, "info") {
            LogLevel::Info
        } else if str_eq(l, "warn") || str_eq(l, "warning") {
            LogLevel::Warn
        } else if str_eq(l, "error") {
            LogLevel::Error
        } else {
            LogLevel::Info
        }
    }
}

/// Builds logging settings step by step.
#[derive(Debug)]
pub struct LoggerConfigBuilder {
    /// The settings built so far.
    pub config: LoggerConfig,
}

impl LoggerConfigBuilder {
    /// A builder starting from the default settings.
    pub fn new() -> (r: Self)
        ensures
            is_default_logger(r.config),
    {
        LoggerConfigBuilder { config: LoggerConfig::default() }
    }

    /// Sets the level.
    pub fn level(self, level: &str) -> (r: Self)
        ensures
            r.config == (LoggerConfig { level: r.config.level, ..self.config }),
            r.config.level@ == level@,
    {
        let mut s = self;
        s.config.level = level.to_owned();
        s
    }

    /// Sets JSON format.
    pub fn json_format(self, enable: bool) -> (r: Self)
        ensures
            r.config == (LoggerConfig { json_format: enable, ..self.config }),
    {
        let mut s = self;
        s.config.json_format = enable;
        s
    }

    /// Sets console output.
    pub fn console_output(self, enable: bool) -> (r: Self)
        ensures
            r.config == (LoggerConfig { console_output: enable, ..self.config }),
    {
        let mut s = self;
        s.config.console_output = enable;
        s
    }

    /// Sends records to files in `dir`.
    pub fn file_output(self, dir: &str) -> (r: Self)
        ensures
            r.config == (LoggerConfig { file_output: r.config.file_output, ..self.config }),
            r.config.file_output matches Some(d) && d@ == dir@,
    {
        let mut s = self;
        s.config.file_output = Some(dir.to_owned());
        s
    }

    /// Sets the prefix of log file names.
    pub fn file_prefix(self, prefix: &str) -> (r: Self)
        ensures
            r.config == (LoggerConfig { file_prefix: r.config.file_prefix, ..self.config }),
            r.config.file_prefix@ == prefix@,
    {
        let mut s = self;
        s.config.file_prefix = prefix.to_owned();
        s
    }

    /// Sets the rotation.
    pub fn rotation(self, strategy: RotationStrategy) -> (r: Self)
        ensures
            r.config == (LoggerConfig { rotation: strategy, ..self.config }),
    {
        let mut s = self;
        s.config.rotation = strategy;
        s
    }

    /// Sets the number of files kept.
    pub fn max_files(self, count: usize) -> (r: Self)
        ensures
            r.config == (LoggerConfig { max_files: count, ..self.config }),
    {
        let mut s = self;
        s.config.max_files = count;
        s
    }

    /// Sets whether records show their target.
    pub fn show_target(self, enable: bool) -> (r: Self)
        ensures
            r.config == (LoggerConfig { show_target: enable, ..self.config }),
    {
        let mut s = self;
        s.config.show_target = enable;
        s
    }

    /// Sets whether records show thread ids.
    pub fn show_thread_ids(self, enable: bool) -> (r: Self)
        ensures
            r.config == (LoggerConfig { show_thread_ids: enable, ..self.config }),
    {
        let mut s = self;
        s.config.show_thread_ids = enable;
        s
    }

    /// Sets whether records show file and line.
    pub fn show_file_line(self, enable: bool) -> (r: Self)
        ensures
            r.config == (LoggerConfig { show_file_line: enable, ..self.config }),
    {
        let mut s = self;
        s.config.show_file_line = enable;
        s
    }

    /// Sets whether records show the time.
    pub fn show_timestamp(self, enable: bool) -> (r: Self)
        ensures
            r.config == (LoggerConfig { show_timestamp: enable, ..self.config }),
    {
        let mut s = self;
        s.config.show_timestamp = enable;
        s
    }

    /// Sets whether records show the level.
    pub fn show_level(self, enable: bool) -> (r: Self)
        ensures
            r.config == (LoggerConfig { show_level: enable, ..self.config }),
    {
        let mut s = self;
        s.config.show_level = enable;
        s
    }

    /// Sets the filter directives.
    pub fn filter_directives(self, directives: &str) -> (r: Self)
        ensures
            r.config == (LoggerConfig { filter_directives: r.config.filter_directives, ..self.config }),
            r.config.filter_directives matches Some(d) && d@ == directives@,
    {
        let mut s = self;
        s.config.filter_directives = Some(directives.to_owned());
        s
    }

    /// Sets whether the console output is coloured.
    pub fn ansi_colors(self, enable: bool) -> (r: Self)
        ensures
            r.config == (LoggerConfig { ansi_colors: enable, ..self.config }),
    {
        let mut s = self;
        s.config.ansi_colors = enable;
        s
    }

    /// Sets which span events are logged.
    pub fn span_events(self, events: SpanEvents) -> (r: Self)
        ensures
            r.config == (LoggerConfig { span_events: events, ..self.config }),
    {
        let mut s = self;
        s.config.span_events = events;
        s
    }

    /// The settings.
    pub fn build(self) -> (r: LoggerConfig)
        ensures
            r == self.config,
    {
        self.config
    }
}

} // verus!
