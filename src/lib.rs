//! Secure websocket transport adapter of an Engine.IO client: the canonical
//! form of the endpoint URL, and the shared cell that holds it.

pub mod endpoint;
pub mod error;
pub mod transport;
pub mod urls;
