//! Steps that a request and its answer go through.

pub mod acme_challenge;
pub mod auth;
pub mod buffer;
pub mod cache;
pub mod compress;
pub mod decompress;
pub mod error_pages;
pub mod forward_auth;
pub mod headers;
pub mod ip_filter;
pub mod logging;
pub mod metrics;
pub mod rate_limit;
pub mod replace;
pub mod rewrite;
pub mod stream_replace;
pub mod templates;
