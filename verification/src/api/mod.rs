//! The kernel's outward interface: inter-process communication and the
//! kernel as a whole.

pub mod ipc;
pub mod ipc_commands;
pub mod sdk;
