//! The HTTP surface's own logic: error mapping, request validation for the
//! search endpoints, the chunk-debug report and the wire types.

pub mod error;
pub mod search;
pub mod debug;
pub mod types;
pub mod health;
pub mod origin;
pub mod status;
