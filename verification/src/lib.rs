//! Verified core of a document-management service: a storage abstraction with
//! an in-memory backend driver, deterministic storage-key derivation, a
//! streaming ingestion pipeline with a size ceiling, a retrieval path, and a
//! read-only keystore directory for backend configuration.

pub mod bytes;
pub mod config;
pub mod driver;
pub mod error;
pub mod id;
pub mod ingest;
pub mod keystore;
pub mod laws;
pub mod retrieval;
pub mod storage;
