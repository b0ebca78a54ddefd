//! Verified request-path logic of the Praxis HTTP proxy.

pub mod context;
pub mod error_handling;
pub mod forwarding;
pub mod header_mutations;
pub mod header_room;
pub mod http_headers;
pub mod metrics;
pub mod registration;
pub mod request;
pub mod request_utils;
pub mod reserved_headers;
pub mod retry;
pub mod server_options;
pub mod session_header;
pub mod spans;
pub mod text;
pub mod trace_context;
pub mod trace_context_filter;
pub mod yaml_safety;
