//! GhostPort: encrypted, NAT-traversing port forwarding over a `Noise_KK`
//! handshake.
//!
//! This library holds what GhostPort decides and computes; sockets, files and the
//! terminal are left to the program around it.
//!
//! - [`config`], [`keys`], [`noise`], [`peermatch`]: who may talk to whom.
//! - [`protocol`], [`framing`]: the messages on an encrypted stream.
//! - [`ratelimit`], [`window`]: how many handshakes are taken on.
//! - [`server`], [`client`], [`links`], [`relay`], [`udp`]: the two roles, and in
//!   [`tunnel`] what they do together.
//! - [`stats`], [`clock`], [`log`], [`theme`]: what is counted and what is said.
//! - [`cli`], [`tui`]: the command line and the console.
//! - [`metrics`]: the status as metrics over HTTP.
//! - [`firewall`]: which addresses the daemon's log gets banned.
//! - [`net`], [`text`]: addresses and texts.

pub mod cli;
pub mod client;
pub mod clock;
pub mod config;
pub mod firewall;
pub mod framing;
pub mod keys;
pub mod links;
pub mod log;
pub mod metrics;
pub mod net;
pub mod noise;
pub mod peermatch;
pub mod protocol;
pub mod ratelimit;
pub mod relay;
pub mod server;
pub mod stats;
pub mod text;
pub mod theme;
pub mod tui;
pub mod tunnel;
pub mod udp;
pub mod window;
