//! The verified core of the permguard control plane: the rules its stores,
//! readers and ingest paths follow, stated as contracts and proved.

pub mod text;

pub mod api;
pub mod catalog;
pub mod encoding;
pub mod engine;
pub mod decisions;
pub mod events;
pub mod gc;
pub mod notp;
pub mod query;
pub mod records;
pub mod store;
pub mod window;

pub use window::{ListWindow, DEFAULT_PAGE_SIZE, MAX_PAGE_SIZE};
