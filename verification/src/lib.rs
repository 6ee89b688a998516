//! A minimal HTTP gateway core: route matching, a pre-request middleware
//! chain, upstream forwarding and error responses, on plain values.

pub mod config;
pub mod error;
pub mod logging;
pub mod message;
pub mod path;
pub mod proxy;
pub mod router;
pub mod types;

pub use crate::config::router;
pub use crate::proxy::proxy_handler;
pub use crate::types::{Env, State};
