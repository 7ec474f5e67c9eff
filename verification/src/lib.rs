//! Verified core of a terminal viewer for FACEIT CS2 player statistics.

pub mod text;
pub mod format;
pub mod api;
pub mod config;
pub mod app;
pub mod summary;
pub mod stream;
pub mod view;
