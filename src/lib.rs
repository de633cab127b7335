//! A self-reconfiguring HTTP server core: entity definitions and the
//! statements that create them, route tables derived from the discovered
//! entities, and the supervisor that restarts the listener on demand.
pub mod definition;
pub mod model;
pub mod reply;
pub mod routes;
pub mod supervisor;
