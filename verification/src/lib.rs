//! A minimal HTTP request dispatcher: request-line parsing, route
//! resolution, response serialization and the per-connection decisions.

pub mod handlers;
pub mod request;
pub mod response;
pub mod router;
pub mod server;
pub mod utils;
