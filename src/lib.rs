//! A package explorer core: a TTL cache, a single-flight request table, the
//! normalisation of registry manifests, the on-disk layout of unpacked
//! tarballs and the parser of `name/version/path` requests.

pub mod cache;
pub mod coalescer;
pub mod common;
pub mod config;
pub mod error;
pub mod keyed;
pub mod npm_registry;
pub mod request;
