//! Verified core of an HTTP benchmarking tool.

pub mod args;
pub mod config;
pub mod connection;
pub mod headers;
pub mod request;
pub mod response;
pub mod scripting;
pub mod stats;
pub mod text;
