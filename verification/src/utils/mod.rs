//! Shared utilities: error type, identifiers, text helpers.

pub mod clock;
pub mod error;
pub mod error_code;
pub mod id;
pub mod json;
pub mod logger;
pub mod metrics;
pub mod proc_stats;
pub mod status_code;
pub mod text;

pub use error::{CoreError, Result};
