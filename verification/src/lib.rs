//! Core of a read-through caching proxy for a source-code-hosting REST API.
//!
//! The library holds the verified caching and streaming-download subsystem:
//! fingerprinting of upstream resources, TTL metadata caches with a
//! persistent shadow, the on-disk blob index with least-recently-used
//! cleanup, the bounded download-permit pool, and the tee pipeline that
//! duplicates an origin byte stream onto the client and the blob store.
//! The surrounding HTTP framing, upstream client and file I/O live outside
//! the library and hand it plain values: in particular the current time,
//! directory listings and file-existence checks always arrive as arguments.

pub mod cache;
pub mod config;
pub mod fingerprint;
pub mod handlers;
pub mod rate_limit;
pub mod models;
pub mod paths;
pub mod tee;
pub mod ttl_map;
