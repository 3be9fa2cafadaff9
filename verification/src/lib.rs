//! A small persistent key-value store: an in-memory mapping with
//! creation/last-modified timestamps, a snapshot codec that writes the whole
//! store as one JSON document, a wire codec for the request/response protocol,
//! and the command processor that applies one command to the store and says
//! whether the result must be persisted.

pub mod codec;
pub mod database;
pub mod engine;
pub mod json;
pub mod protocol;
pub mod store;
pub mod wire;

pub use database::Database;
pub use protocol::DatabaseCommand;
pub use protocol::DatabaseResponse;
pub use store::KeyValueStore;
