//! Connections, the pool that lends them out, and the routing table.

pub mod group;
pub mod route;
pub mod socket;

pub use group::Group;
pub use route::Route;
pub use socket::Socket;
