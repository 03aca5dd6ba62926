//! Protocol state machines of the HTTP/1.1 dispatcher.

pub mod buf;
pub mod codec;
pub mod context;
pub mod decode;
pub mod dispatcher;
pub mod encode;
pub mod error;
