//! Core library of the gatel reverse proxy and web server.

pub mod admin;
pub mod bytes;
pub mod cache_control;
pub mod config;
pub mod crypto;
pub mod data;
pub mod depot;
pub mod encoding;
pub mod error;
pub mod events;
pub mod glob;
pub mod goals;
pub mod hoops;
pub mod http_date;
pub mod message;
pub mod mime_guess;
pub mod net;
pub mod observability;
pub mod passwords;
pub mod pattern;
pub mod placeholder;
pub mod plugin;
pub mod proxy;
pub mod ranking;
pub mod router;
pub mod runtime;
pub mod runtime_services;
pub mod salvo_service;
pub mod sd_notify;
pub mod sorted_map;
pub mod table;
pub mod text;
pub mod time;

pub use crate::error::ProxyError;
