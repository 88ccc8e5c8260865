//! Event types the kernel publishes.

use vstd::prelude::*;

verus! {

/// A module was loaded.
pub const MODULE_LOADED: &'static str = "system.module.loaded";
/// A module was unloaded.
pub const MODULE_UNLOADED: &'static str = "system.module.unloaded";
/// A module started.
pub const MODULE_STARTED: &'static str = "system.module.started";
/// A module stopped.
pub const MODULE_STOPPED: &'static str = "system.module.stopped";
/// The configuration changed.
pub const CONFIG_CHANGED: &'static str = "system.config.changed";
/// The kernel started.
pub const CORE_STARTED: &'static str = "system.core.started";
/// The kernel is shutting down.
pub const CORE_SHUTDOWN: &'static str = "system.core.shutdown";
/// A health check ran.
pub const HEALTH_CHECK: &'static str = "system.health.check";

} // verus!
