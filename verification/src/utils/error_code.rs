//! Protocol-level error codes.

use vstd::prelude::*;

verus! {

/// Protocol version mismatch.
pub const PROTOCOL_VERSION_MISMATCH: &'static str = "PROTOCOL-001";
/// Malformed message.
pub const PROTOCOL_MESSAGE_FORMAT_ERROR: &'static str = "PROTOCOL-002";
/// Service not found.
pub const CORE_SERVICE_NOT_FOUND: &'static str = "CORE-001";
/// Routing failed.
pub const CORE_ROUTE_FAILED: &'static str = "CORE-002";
/// Kernel initialisation failed.
pub const CORE_INIT_FAILED: &'static str = "CORE-003";
/// Permission denied.
pub const PERMISSION_DENIED: &'static str = "PERMISSION-001";
/// Permission not declared.
pub const PERMISSION_NOT_DECLARED: &'static str = "PERMISSION-002";
/// Module not loaded.
pub const MODULE_NOT_LOADED: &'static str = "MODULE-001";
/// Module execution error.
pub const MODULE_EXECUTION_ERROR: &'static str = "MODULE-002";
/// Module load failed.
pub const MODULE_LOAD_FAILED: &'static str = "MODULE-003";
/// Module unload failed.
pub const MODULE_UNLOAD_FAILED: &'static str = "MODULE-004";
/// Circular module dependency.
pub const MODULE_CIRCULAR_DEPENDENCY: &'static str = "MODULE-005";
/// Resource not found.
pub const RESOURCE_NOT_FOUND: &'static str = "RESOURCE-001";
/// Resource access failed.
pub const RESOURCE_ACCESS_FAILED: &'static str = "RESOURCE-002";
/// Configuration key not found.
pub const CONFIG_NOT_FOUND: &'static str = "CONFIG-001";
/// Invalid configuration value.
pub const CONFIG_INVALID_VALUE: &'static str = "CONFIG-002";
/// Request timed out.
pub const TIMEOUT_REQUEST: &'static str = "TIMEOUT-001";
/// Module load timed out.
pub const TIMEOUT_MODULE_LOAD: &'static str = "TIMEOUT-002";
/// Queue full.
pub const QUEUE_FULL: &'static str = "QUEUE-001";

} // verus!
