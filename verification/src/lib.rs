//! Adapter logic for a native file-search backend: settings encoding for
//! the backend's global state, query-string conversion to its wide calling
//! convention, composition of its decoded result rows, and normalization —
//! deduplication, sorting, truncation — of the final result list.
//!
//! The backend call itself, the raw pointer decoding, and the plugin-host
//! plumbing stand outside this crate; everything here works on plain owned
//! values and is verified.

pub mod normalize;
pub mod order;
pub mod query;
pub mod rows;
pub mod settings;
