//! HTTP/2 front-end shells.

pub mod builder;
