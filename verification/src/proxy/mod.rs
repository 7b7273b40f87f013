//! Handing requests on to other servers.

pub mod activity;
pub mod cgi;
pub mod circuit_breaker;
pub mod dns_upstream;
pub mod fastcgi;
pub mod forward_proxy;
pub mod health;
pub mod lb;
pub mod reverse;
pub mod scgi;
pub mod srv_upstream;
pub mod turns;
pub mod unix_upstream;
pub mod upstream;
pub mod websocket;
