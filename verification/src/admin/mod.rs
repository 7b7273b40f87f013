//! The admin interface of a running server.

pub mod answers;
pub mod calls;
pub mod report;
pub mod resources;
pub mod targets;
