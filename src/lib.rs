//! A single-resource user service: request framing, routing, the mapping of
//! each operation onto a SQL statement, and the responses that follow.
pub mod framing;
pub mod router;
pub mod user;
pub mod response;
pub mod service;
pub mod store;
