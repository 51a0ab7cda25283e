//! What the service answers over HTTP, without the server.

pub mod error;
pub mod routes;
