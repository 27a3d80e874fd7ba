//! Routing of requests to services, and the checks around it.

pub mod middleware;
pub mod request_laws;
pub mod service;
