//! The stores: a table of named values, the plain store and the cache.

pub mod cache;
pub mod data;
pub mod table;

pub use cache::Cache;
pub use data::Data;
