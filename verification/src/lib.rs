//! Verified core of a control layer for a JSON-RPC app-server connection.
pub mod control;
pub mod json;
pub mod protocol;
pub mod reducer;
pub mod store;
pub mod streaming;
pub mod text;
