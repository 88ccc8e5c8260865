//! Module management: module metadata, its validation, and the
//! dependency graph between modules.

pub mod dependency;
pub mod metadata;
pub mod parser;
pub mod registry;
pub mod resolver;
pub mod runtime;
pub mod version;
pub mod graph_index;
pub mod lifecycle;
pub mod loader;
pub mod manager;
