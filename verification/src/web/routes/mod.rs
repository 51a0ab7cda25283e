//! The answers of the routes.

pub mod stats;
pub mod tracks;
