//! Routing: requests and responses, their validation, the route table, the
//! request queue and events.

pub mod request;
pub mod validator;
pub mod pattern;
pub mod route_table;
pub mod queue;
pub mod event;
pub mod event_bus;
pub mod bus_laws;
pub mod concurrency;
pub mod stats;
pub mod system_events;
pub mod dispatch;
