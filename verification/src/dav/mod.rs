//! The WebDAV bridge: what it answers a request on one paired device's files
//! with, and what it asks of that device on the way.

pub mod cache;
pub mod errors;
pub mod handlers;
pub mod heads;
pub mod http;
pub mod lock;
pub mod mounts;
pub mod prefetch;
pub mod probes;
pub mod proppatch;
pub mod put;
pub mod reply;
pub mod server;
pub mod xml;
