//! The event log: events shipped by producers, kept verbatim per producer
//! stream, merged per tenant, and served back by offset.

pub mod configuration;
pub mod grpc;
pub mod http;
pub mod ingest;
pub mod read;
pub mod retention;
pub mod store;
