//! Handlers that answer requests themselves.

pub mod directory;
pub mod file_server;
pub mod redirect;
