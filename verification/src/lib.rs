//! A secure, poolable point-to-point transport: links that carry byte payloads
//! through an ordered chain of protection stages, connections that frame them
//! for a stream, and a bounded pool that lends connections out.

pub mod base;
pub mod guard;
pub mod net;
pub mod store;

pub use base::error::Error;
