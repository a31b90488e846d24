//! Verified core of a single-port SOCKS5 and HTTP proxy.

pub mod text;
pub mod net;
pub mod protocol;
pub mod stats;
pub mod config;
pub mod auth;
pub mod http;
pub mod handler;
pub mod server;
pub mod io_timeout;
pub mod service;
pub mod cli;
