//! mDNS reflection, filtering and inspection: the packet pipeline.
pub mod codes;
pub mod config;
pub mod dispatch;
pub mod dns_util;
pub mod entry;
pub mod error;
pub mod filter;
pub mod message;
pub mod number;
pub mod output;
pub mod pattern;
pub mod receiver;
pub mod route;
pub mod text;
pub mod transform;
pub mod value;
pub mod wire;
