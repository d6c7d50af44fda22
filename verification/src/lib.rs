//! A small HTTP/1.1 server core: request parsing, response rendering and the
//! decisions of the accept loop, stated and proved over sequences of
//! characters.

pub mod http;
pub mod server;
pub mod text;

pub use crate::server::Handler;
pub use crate::server::Server;
