//! The lifecycle state, the errors and the link itself.

pub mod error;
pub mod link;
pub mod state;

pub use error::Error;
pub use link::Link;
pub use state::State;
