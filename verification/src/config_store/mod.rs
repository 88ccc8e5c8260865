//! The configuration store: a tree of values, its paths, and the
//! layered loading, watching and checking around it.

pub mod laws;
pub mod store;
pub mod tree;
