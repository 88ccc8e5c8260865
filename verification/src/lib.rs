//! Chips Core: the micro-kernel of the Chips ecosystem.
//!
//! The library holds the kernel's logic with its contracts: module metadata
//! and its validation, the dependency graph and the dependency resolver,
//! the request validator, the route table, the priority request queue,
//! the event subscription registry, configuration handling and the
//! kernel's lifecycle.

pub mod api;
pub mod config;
pub mod config_store;
pub mod module;
pub mod router;
pub mod utils;

use vstd::prelude::*;

verus! {

/// Version of the kernel, that of this package.
pub const VERSION: &'static str = "0.1.0";

/// Protocol version spoken by this kernel.
pub const PROTOCOL_VERSION: &'static str = "1.0";

/// Lowest protocol version this kernel accepts.
pub const MIN_PROTOCOL_VERSION: &'static str = "1.0";

} // verus!
