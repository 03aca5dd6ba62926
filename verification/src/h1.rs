//! HTTP/1.1 connection machinery.

pub mod body;
pub mod proto;
