//! What the gateway does with one request, by the kind of its route.

pub mod bridge;
pub mod http_proxy;
pub mod ws_proxy;
