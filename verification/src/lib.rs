//! A multi-tenant HTTP edge server core: per-tenant routing tables with
//! parameterised path patterns, an atomically swappable router, a JSON
//! marshalling layer for script handlers, a build cache keyed by content
//! hash, and a single-expression script bundler.
pub mod bundler;
pub mod cli;
pub mod codec;
pub mod engine;
pub mod errors;
pub mod json;
pub mod method;
pub mod middleware;
pub mod pattern;
pub mod router;
pub mod server;
pub mod strutil;
pub mod swap;
pub mod utils;
