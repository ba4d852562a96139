//! A small DNS proxy library: wire-level parsing of single-question DNS
//! messages, an in-place NXDOMAIN rewrite, a block-list cache rebuilt from
//! fetched sources, DNS-over-TLS provider selection and message framing, and
//! the per-request decision pipeline of the server.

pub mod block_lists;
pub mod config;
pub mod dns_parser;
pub mod dot;
pub mod error;
pub mod server;
pub mod text;
