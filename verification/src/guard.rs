//! The protection stages: signing, encrypting and validating.

pub mod auth;
pub mod check;
pub mod crypt;
pub mod handler;

pub use auth::Auth;
pub use check::Check;
pub use crypt::Crypt;
