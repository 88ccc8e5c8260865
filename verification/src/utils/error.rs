//! The kernel's error type, its status codes and its error codes.

use vstd::prelude::*;

use super::{error_code, status_code};
use super::text::{push_str, string_of_chars};

verus! {

/// Errors of the kernel.
///
/// Errors that come from parsing and I/O carry the underlying message.
#[derive(Debug, Clone, PartialEq, Eq)]
pub enum CoreError {
    /// No route for an action.
    RouteNotFound(String),
    /// Target module not found.
    ModuleNotFound(String),
    /// Malformed request.
    InvalidRequest(String),
    /// Request timed out.
    Timeout(String),
    /// Permission denied.
    PermissionDenied(String),
    /// A route already exists.
    RouteAlreadyExists(String),
    /// The request queue is full.
    QueueFull { max_size: usize, message: String },
    /// Module already loaded.
    ModuleAlreadyLoaded(String),
    /// Module not loaded.
    ModuleNotLoaded(String),
    /// Module load failed.
    ModuleLoadFailed { module_id: String, reason: String },
    /// Module unload failed.
    ModuleUnloadFailed { module_id: String, reason: String },
    /// Other modules depend on the module.
    ModuleHasDependents { module: String, dependents: Vec<String> },
    /// A dependency cycle.
    CircularDependency(String),
    /// A dependency was not found.
    DependencyNotFound(String),
    /// A dependency's version does not satisfy the requirement.
    VersionMismatch { module: String, required: String, found: String },
    /// Requirements on one module are incompatible.
    DependencyConflict { module: String, requirements: Vec<String> },
    /// Invalid module metadata.
    InvalidMetadata(String),
    /// Unsupported runtime.
    UnsupportedRuntime(String),
    /// Configuration could not be loaded.
    ConfigLoadFailed(String),
    /// Configuration key not found.
    ConfigNotFound(String),
    /// Invalid configuration value.
    InvalidConfigValue { key: String, reason: String },
    /// Event publication failed.
    EventPublishFailed(String),
    /// Subscription not found.
    SubscriptionNotFound(String),
    /// I/O failure.
    Io(String),
    /// JSON failure.
    Json(String),
    /// YAML failure.
    Yaml(String),
    /// Version parse failure.
    VersionParse(String),
    /// Internal error.
    Internal(String),
    /// Initialisation failed.
    InitFailed(String),
    /// Operation cancelled.
    Cancelled,
    /// Any other failure.
    Other(String),
}

/// Result type of the kernel.
pub type Result<T> = std::result::Result<T, CoreError>;

/// An error with its texts as character sequences.
pub ghost enum ErrorView {
    RouteNotFound(Seq<char>),
    ModuleNotFound(Seq<char>),
    InvalidRequest(Seq<char>),
    Timeout(Seq<char>),
    PermissionDenied(Seq<char>),
    RouteAlreadyExists(Seq<char>),
    QueueFull { max_size: usize, message: Seq<char> },
    ModuleAlreadyLoaded(Seq<char>),
    ModuleNotLoaded(Seq<char>),
    ModuleLoadFailed { module_id: Seq<char>, reason: Seq<char> },
    ModuleUnloadFailed { module_id: Seq<char>, reason: Seq<char> },
    ModuleHasDependents { module: Seq<char>, dependents: Seq<Seq<char>> },
    CircularDependency(Seq<char>),
    DependencyNotFound(Seq<char>),
    VersionMismatch { module: Seq<char>, required: Seq<char>, found: Seq<char> },
    DependencyConflict { module: Seq<char>, requirements: Seq<Seq<char>> },
    InvalidMetadata(Seq<char>),
    UnsupportedRuntime(Seq<char>),
    ConfigLoadFailed(Seq<char>),
    ConfigNotFound(Seq<char>),
    InvalidConfigValue { key: Seq<char>, reason: Seq<char> },
    EventPublishFailed(Seq<char>),
    SubscriptionNotFound(Seq<char>),
    Io(Seq<char>),
    Json(Seq<char>),
    Yaml(Seq<char>),
    VersionParse(Seq<char>),
    Internal(Seq<char>),
    InitFailed(Seq<char>),
    Cancelled,
    Other(Seq<char>),
}

impl View for CoreError {
    type V = ErrorView;

    open spec fn view(&self) -> ErrorView {
        match self {
            CoreError::RouteNotFound(m) => ErrorView::RouteNotFound(m@),
            CoreError::ModuleNotFound(m) => ErrorView::ModuleNotFound(m@),
            CoreError::InvalidRequest(m) => ErrorView::InvalidRequest(m@),
            CoreError::Timeout(m) => ErrorView::Timeout(m@),
            CoreError::PermissionDenied(m) => ErrorView::PermissionDenied(m@),
            CoreError::RouteAlreadyExists(m) => ErrorView::RouteAlreadyExists(m@),
            CoreError::QueueFull { max_size, message } => ErrorView::QueueFull { max_size: *max_size, message: message@ },
            CoreError::ModuleAlreadyLoaded(m) => ErrorView::ModuleAlreadyLoaded(m@),
            CoreError::ModuleNotLoaded(m) => ErrorView::ModuleNotLoaded(m@),
            CoreError::ModuleLoadFailed { module_id, reason } => ErrorView::ModuleLoadFailed { module_id: module_id@, reason: reason@ },
            CoreError::ModuleUnloadFailed { module_id, reason } => ErrorView::ModuleUnloadFailed { module_id: module_id@, reason: reason@ },
            CoreError::ModuleHasDependents { module, dependents } => ErrorView::ModuleHasDependents { module: module@, dependents: dependents.deep_view() },
            CoreError::CircularDependency(m) => ErrorView::CircularDependency(m@),
            CoreError::DependencyNotFound(m) => ErrorView::DependencyNotFound(m@),
            CoreError::VersionMismatch { module, required, found } => ErrorView::VersionMismatch { module: module@, required: required@, found: found@ },
            CoreError::DependencyConflict { module, requirements } => ErrorView::DependencyConflict { module: module@, requirements: requirements.deep_view() },
            CoreError::InvalidMetadata(m) => ErrorView::InvalidMetadata(m@),
            CoreError::UnsupportedRuntime(m) => ErrorView::UnsupportedRuntime(m@),
            CoreError::ConfigLoadFailed(m) => ErrorView::ConfigLoadFailed(m@),
            CoreError::ConfigNotFound(m) => ErrorView::ConfigNotFound(m@),
            CoreError::InvalidConfigValue { key, reason } => ErrorView::InvalidConfigValue { key: key@, reason: reason@ },
            CoreError::EventPublishFailed(m) => ErrorView::EventPublishFailed(m@),
            CoreError::SubscriptionNotFound(m) => ErrorView::SubscriptionNotFound(m@),
            CoreError::Io(m) => ErrorView::Io(m@),
            CoreError::Json(m) => ErrorView::Json(m@),
            CoreError::Yaml(m) => ErrorView::Yaml(m@),
            CoreError::VersionParse(m) => ErrorView::VersionParse(m@),
            CoreError::Internal(m) => ErrorView::Internal(m@),
            CoreError::InitFailed(m) => ErrorView::InitFailed(m@),
            CoreError::Cancelled => ErrorView::Cancelled,
            CoreError::Other(m) => ErrorView::Other(m@),
        }
    }
}

/// The error code of an error.
pub open spec fn spec_error_code(e: CoreError) -> &'static str {
    match e {
        CoreError::RouteNotFound(_) => error_code::CORE_SERVICE_NOT_FOUND,
        CoreError::ModuleNotFound(_) => error_code::MODULE_NOT_LOADED,
        CoreError::InvalidRequest(_) => error_code::PROTOCOL_MESSAGE_FORMAT_ERROR,
        CoreError::Timeout(_) => error_code::TIMEOUT_REQUEST,
        CoreError::PermissionDenied(_) => error_code::PERMISSION_DENIED,
        CoreError::ModuleLoadFailed { .. } => error_code::MODULE_LOAD_FAILED,
        CoreError::ModuleUnloadFailed { .. } => error_code::MODULE_UNLOAD_FAILED,
        CoreError::CircularDependency(_) => error_code::MODULE_CIRCULAR_DEPENDENCY,
        CoreError::ConfigNotFound(_) => error_code::CONFIG_NOT_FOUND,
        CoreError::InvalidConfigValue { .. } => error_code::CONFIG_INVALID_VALUE,
        CoreError::QueueFull { .. } => error_code::QUEUE_FULL,
        _ => "UNKNOWN",
    }
}

/// The status code of an error.
pub open spec fn spec_status_code(e: CoreError) -> u16 {
    match e {
        CoreError::RouteNotFound(_) => status_code::NOT_FOUND,
        CoreError::ModuleNotFound(_) => status_code::NOT_FOUND,
        CoreError::InvalidRequest(_) => status_code::BAD_REQUEST,
        CoreError::Timeout(_) => status_code::TIMEOUT,
        CoreError::PermissionDenied(_) => status_code::FORBIDDEN,
        CoreError::ModuleAlreadyLoaded(_) => status_code::CONFLICT,
        CoreError::RouteAlreadyExists(_) => status_code::CONFLICT,
        CoreError::ConfigNotFound(_) => status_code::NOT_FOUND,
        CoreError::QueueFull { .. } => status_code::SERVICE_UNAVAILABLE,
        _ => status_code::INTERNAL_ERROR,
    }
}

impl CoreError {
    /// The protocol error code of this error.
    pub fn error_code(&self) -> (r: &'static str)
        ensures
            r == spec_error_code(*self),
    {
        match self {
            CoreError::RouteNotFound(_) => error_code::CORE_SERVICE_NOT_FOUND,
            CoreError::ModuleNotFound(_) => error_code::MODULE_NOT_LOADED,
            CoreError::InvalidRequest(_) => error_code::PROTOCOL_MESSAGE_FORMAT_ERROR,
            CoreError::Timeout(_) => error_code::TIMEOUT_REQUEST,
            CoreError::PermissionDenied(_) => error_code::PERMISSION_DENIED,
            CoreError::ModuleLoadFailed { .. } => error_code::MODULE_LOAD_FAILED,
            CoreError::ModuleUnloadFailed { .. } => error_code::MODULE_UNLOAD_FAILED,
            CoreError::CircularDependency(_) => error_code::MODULE_CIRCULAR_DEPENDENCY,
            CoreError::ConfigNotFound(_) => error_code::CONFIG_NOT_FOUND,
            CoreError::InvalidConfigValue { .. } => error_code::CONFIG_INVALID_VALUE,
            CoreError::QueueFull { .. } => error_code::QUEUE_FULL,
            _ => "UNKNOWN",
        }
    }

    /// The HTTP-style status code of this error.
    pub fn status_code(&self) -> (r: u16)
        ensures
            r == spec_status_code(*self),
    {
        match self {
            CoreError::RouteNotFound(_) => status_code::NOT_FOUND,
            CoreError::ModuleNotFound(_) => status_code::NOT_FOUND,
            CoreError::InvalidRequest(_) => status_code::BAD_REQUEST,
            CoreError::Timeout(_) => status_code::TIMEOUT,
            CoreError::PermissionDenied(_) => status_code::FORBIDDEN,
            CoreError::ModuleAlreadyLoaded(_) => status_code::CONFLICT,
            CoreError::RouteAlreadyExists(_) => status_code::CONFLICT,
            CoreError::ConfigNotFound(_) => status_code::NOT_FOUND,
            CoreError::QueueFull { .. } => status_code::SERVICE_UNAVAILABLE,
            _ => status_code::INTERNAL_ERROR,
        }
    }
}

/// What `format!("{:?}", s)` gives for a string `s`: the text quoted, with
/// the characters that `Debug` escapes escaped.
pub uninterp spec fn debug_str_text(s: Seq<char>) -> Seq<char>;

/// What `format!("{:?}", v)` gives for a list of strings.
pub uninterp spec fn debug_list_text(items: Seq<Seq<char>>) -> Seq<char>;

/// `Debug` text of a string.
///
/// Trusted: the result is std's `Debug` rendering of `s`, which depends on
/// `s` alone.
#[verifier::external_body]
fn debug_str(s: &str) -> (r: String)
    ensures
        r@ == debug_str_text(s@),
{
    format!("{:?}", s)
}

/// `Debug` text of a list of strings.
///
/// Trusted: the result is std's `Debug` rendering of `v`, which depends on
/// the strings of `v` alone.
#[verifier::external_body]
fn debug_names(v: &Vec<String>) -> (r: String)
    ensures
        r@ == debug_list_text(v.deep_view()),
{
    format!("{:?}", v)
}

/// The message of an error, as it is shown to a user.
pub open spec fn error_text(e: ErrorView) -> Seq<char> {
    match e {
        ErrorView::RouteNotFound(a) => "路由未找到: action '"@ + a + "'"@,
        ErrorView::ModuleNotFound(a) => "目标模块未找到: '"@ + a + "'"@,
        ErrorView::InvalidRequest(a) => "请求格式无效: "@ + a,
        ErrorView::Timeout(a) => "请求超时: request_id '"@ + a + "'"@,
        ErrorView::PermissionDenied(a) => "权限被拒绝: "@ + a,
        ErrorView::RouteAlreadyExists(a) => "路由已存在: action '"@ + a + "'"@,
        ErrorView::QueueFull { message, .. } => "队列已满: "@ + message,
        ErrorView::ModuleAlreadyLoaded(a) => "模块已加载: '"@ + a + "'"@,
        ErrorView::ModuleNotLoaded(a) => "模块未加载: '"@ + a + "'"@,
        ErrorView::ModuleLoadFailed { module_id, reason } => "模块加载失败: '"@ + module_id + "' - "@ + reason,
        ErrorView::ModuleUnloadFailed { module_id, reason } => "模块卸载失败: '"@ + module_id + "' - "@ + reason,
        ErrorView::ModuleHasDependents { module, dependents } => "模块 '"@ + module + "' 被以下模块依赖，无法卸载: "@ + debug_list_text(dependents),
        ErrorView::CircularDependency(a) => "检测到循环依赖: "@ + a,
        ErrorView::DependencyNotFound(a) => "依赖模块未找到: '"@ + a + "'"@,
        ErrorView::VersionMismatch { module, required, found } => "版本不匹配: 模块 '"@ + module + "' 需要版本 "@ + required + ", 但找到版本 "@ + found,
        ErrorView::DependencyConflict { module, requirements } => "依赖冲突: 模块 '"@ + module + "' 的版本要求冲突: "@ + debug_list_text(requirements),
        ErrorView::InvalidMetadata(a) => "无效的模块元数据: "@ + a,
        ErrorView::UnsupportedRuntime(a) => "不支持的运行时: "@ + debug_str_text(a),
        ErrorView::ConfigLoadFailed(a) => "配置加载失败: "@ + a,
        ErrorView::ConfigNotFound(a) => "配置项未找到: '"@ + a + "'"@,
        ErrorView::InvalidConfigValue { key, reason } => "配置值无效: '"@ + key + "' - "@ + reason,
        ErrorView::EventPublishFailed(a) => "事件发布失败: "@ + a,
        ErrorView::SubscriptionNotFound(a) => "订阅未找到: '"@ + a + "'"@,
        ErrorView::Io(a) => "IO 错误: "@ + a,
        ErrorView::Json(a) => "JSON 错误: "@ + a,
        ErrorView::Yaml(a) => "YAML 错误: "@ + a,
        ErrorView::VersionParse(a) => "版本解析错误: "@ + a,
        ErrorView::Internal(a) => "内部错误: "@ + a,
        ErrorView::InitFailed(a) => "初始化失败: "@ + a,
        ErrorView::Cancelled => "操作被取消"@,
        ErrorView::Other(a) => a,
    }
}

impl CoreError {
    /// The message of this error, as it is shown to a user.
    pub fn to_string(&self) -> (r: String)
        ensures
            r@ == error_text(self@),
    {
        let mut v: Vec<char> = Vec::new();
        match self {
            CoreError::RouteNotFound(a) => {
                push_str(&mut v, "路由未找到: action '");
                push_str(&mut v, a.as_str());
                push_str(&mut v, "'");
            }
            CoreError::ModuleNotFound(a) => {
                push_str(&mut v, "目标模块未找到: '");
                push_str(&mut v, a.as_str());
                push_str(&mut v, "'");
            }
            CoreError::InvalidRequest(a) => {
                push_str(&mut v, "请求格式无效: ");
                push_str(&mut v, a.as_str());
            }
            CoreError::Timeout(a) => {
                push_str(&mut v, "请求超时: request_id '");
                push_str(&mut v, a.as_str());
                push_str(&mut v, "'");
            }
            CoreError::PermissionDenied(a) => {
                push_str(&mut v, "权限被拒绝: ");
                push_str(&mut v, a.as_str());
            }
            CoreError::RouteAlreadyExists(a) => {
                push_str(&mut v, "路由已存在: action '");
                push_str(&mut v, a.as_str());
                push_str(&mut v, "'");
            }
            CoreError::QueueFull { message, .. } => {
                push_str(&mut v, "队列已满: ");
                push_str(&mut v, message.as_str());
            }
            CoreError::ModuleAlreadyLoaded(a) => {
                push_str(&mut v, "模块已加载: '");
                push_str(&mut v, a.as_str());
                push_str(&mut v, "'");
            }
            CoreError::ModuleNotLoaded(a) => {
                push_str(&mut v, "模块未加载: '");
                push_str(&mut v, a.as_str());
                push_str(&mut v, "'");
            }
            CoreError::ModuleLoadFailed { module_id, reason } => {
                push_str(&mut v, "模块加载失败: '");
                push_str(&mut v, module_id.as_str());
                push_str(&mut v, "' - ");
                push_str(&mut v, reason.as_str());
            }
            CoreError::ModuleUnloadFailed { module_id, reason } => {
                push_str(&mut v, "模块卸载失败: '");
                push_str(&mut v, module_id.as_str());
                push_str(&mut v, "' - ");
                push_str(&mut v, reason.as_str());
            }
            CoreError::ModuleHasDependents { module, dependents } => {
                push_str(&mut v, "模块 '");
                push_str(&mut v, module.as_str());
                push_str(&mut v, "' 被以下模块依赖，无法卸载: ");
                let d = debug_names(dependents);
                push_str(&mut v, d.as_str());
            }
            CoreError::CircularDependency(a) => {
                push_str(&mut v, "检测到循环依赖: ");
                push_str(&mut v, a.as_str());
            }
            CoreError::DependencyNotFound(a) => {
                push_str(&mut v, "依赖模块未找到: '");
                push_str(&mut v, a.as_str());
                push_str(&mut v, "'");
            }
            CoreError::VersionMismatch { module, required, found } => {
                push_str(&mut v, "版本不匹配: 模块 '");
                push_str(&mut v, module.as_str());
                push_str(&mut v, "' 需要版本 ");
                push_str(&mut v, required.as_str());
                push_str(&mut v, ", 但找到版本 ");
                push_str(&mut v, found.as_str());
            }
            CoreError::DependencyConflict { module, requirements } => {
                push_str(&mut v, "依赖冲突: 模块 '");
                push_str(&mut v, module.as_str());
                push_str(&mut v, "' 的版本要求冲突: ");
                let d = debug_names(requirements);
                push_str(&mut v, d.as_str());
            }
            CoreError::InvalidMetadata(a) => {
                push_str(&mut v, "无效的模块元数据: ");
                push_str(&mut v, a.as_str());
            }
            CoreError::UnsupportedRuntime(a) => {
                push_str(&mut v, "不支持的运行时: ");
                let d = debug_str(a.as_str());
                push_str(&mut v, d.as_str());
            }
            CoreError::ConfigLoadFailed(a) => {
                push_str(&mut v, "配置加载失败: ");
                push_str(&mut v, a.as_str());
            }
            CoreError::ConfigNotFound(a) => {
                push_str(&mut v, "配置项未找到: '");
                push_str(&mut v, a.as_str());
                push_str(&mut v, "'");
            }
            CoreError::InvalidConfigValue { key, reason } => {
                push_str(&mut v, "配置值无效: '");
                push_str(&mut v, key.as_str());
                push_str(&mut v, "' - ");
                push_str(&mut v, reason.as_str());
            }
            CoreError::EventPublishFailed(a) => {
                push_str(&mut v, "事件发布失败: ");
                push_str(&mut v, a.as_str());
            }
            CoreError::SubscriptionNotFound(a) => {
                push_str(&mut v, "订阅未找到: '");
                push_str(&mut v, a.as_str());
                push_str(&mut v, "'");
            }
            CoreError::Io(a) => {
                push_str(&mut v, "IO 错误: ");
                push_str(&mut v, a.as_str());
            }
            CoreError::Json(a) => {
                push_str(&mut v, "JSON 错误: ");
                push_str(&mut v, a.as_str());
            }
            CoreError::Yaml(a) => {
                push_str(&mut v, "YAML 错误: ");
                push_str(&mut v, a.as_str());
            }
            CoreError::VersionParse(a) => {
                push_str(&mut v, "版本解析错误: ");
                push_str(&mut v, a.as_str());
            }
            CoreError::Internal(a) => {
                push_str(&mut v, "内部错误: ");
                push_str(&mut v, a.as_str());
            }
            CoreError::InitFailed(a) => {
                push_str(&mut v, "初始化失败: ");
                push_str(&mut v, a.as_str());
            }
            CoreError::Cancelled => {
                push_str(&mut v, "操作被取消");
            }
            CoreError::Other(a) => {
                push_str(&mut v, a.as_str());
            }
        }
        string_of_chars(&v)
    }
}

} // verus!
