//! A Prometheus exporter for a running daemon: it renders a status snapshot as
//! metrics, and answers the one HTTP request that asks for them.

pub mod http;
pub mod render;
