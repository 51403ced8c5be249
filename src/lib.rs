//! A content-addressed storage engine: payloads are stored under the digest of
//! their bytes, large payloads are split into chunks that are reassembled on
//! lookup, and every step is specified over a mathematical model.
pub mod error;
pub mod hashing;
pub mod kv;
pub mod chunker;
pub mod codec;
pub mod keys;
pub mod engine;
pub mod laws;
