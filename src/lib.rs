//! A record store and tabular codec for power definition files.
pub mod schema;
pub mod text;
pub mod power;
pub mod codec;
pub mod store;
pub mod descriptions;
