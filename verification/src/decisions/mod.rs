//! The decision log: records shipped by policy decision points, kept verbatim
//! and served back by offset.

pub mod cursorkey;
pub mod http;
pub mod ingest;
pub mod offset;
pub mod read;
pub mod retention;
pub mod store;
