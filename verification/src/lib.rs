//! The verified core of an API gateway: how its configuration text is filled
//! in, how the routes are laid out, and how a request, its header fields and
//! its WebSocket messages are rewritten on the way to a backend.

pub mod backend;
pub mod config;
pub mod error;
pub mod handlers;
pub mod headers;
pub mod routes;
pub mod text;
