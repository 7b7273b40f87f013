//! Request routing.

pub mod matcher;
pub mod signature;
