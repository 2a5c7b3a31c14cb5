//! The management console: its state, its keys, and the texts that it shows.

pub mod app;
pub mod format;
pub mod keys;
pub mod service;
pub mod templates;
pub mod view;
