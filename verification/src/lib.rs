//! A small library for serving cached HTTP responses: a generic bounded
//! cache with least-recently-used eviction, an immutable cached-response
//! envelope supporting conditional (ETag-based) re-validation, a registry
//! of named caches, and the pure list-store operations the handlers memoize.

pub mod cache;
pub mod cached_response;
pub mod caches;
pub mod models;
pub mod store;
