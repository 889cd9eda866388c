//! Verified core of a media ingestion and retrieval service.
//!
//! The library accepts uploaded image payloads handed in by an HTTP host,
//! assigns each a collision-resistant, traversal-safe storage key, persists
//! the bytes in a flat content store, and later resolves keys back to bytes
//! with a content type derived from the key's extension. The store is
//! modelled explicitly so that every service contract is stated over a map
//! from keys to byte sequences; the host mirrors the store onto a directory.

pub mod error;
pub mod keys;
pub mod store;
pub mod ingest;
pub mod media;
pub mod compress;
pub mod laws;
