//! Watches a running server's log for refused and failed handshakes, and decides
//! which addresses to ban.

pub mod config;
pub mod detector;
pub mod judge;
pub mod recognition;
