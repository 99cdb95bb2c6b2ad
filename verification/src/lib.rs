//! Size-targeted synthetic JSON payloads: a memory-budgeted pool of
//! pre-serialized fragments and the strategies that assemble responses
//! from it.

pub mod text;
pub mod decimal;
pub mod json;
pub mod envelope;
pub mod json_value;
pub mod random;
pub mod generator;
pub mod content;
pub mod chunk_pool;
pub mod streaming;
pub mod config;
pub mod handlers;
