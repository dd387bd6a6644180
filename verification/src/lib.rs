//! Synchronised robot observations over a real-time transport.

pub mod bytes;
pub mod chunk;
pub mod chunk_publisher;
pub mod codec;
pub mod config;
pub mod data;
pub mod data_laws;
pub mod double;
pub mod dtype;
pub mod error;
pub mod ffi;
pub mod field_map;
pub mod metrics;
pub mod portal;
pub mod portal_laws;
pub mod pull;
pub mod pull_laws;
pub mod requests;
pub mod rtt;
pub mod samples;
pub mod serialization;
pub mod server;
pub mod session;
pub mod sync_buffer;
pub mod sync_laws;
pub mod sync_model;
pub mod sync_outcomes;
pub mod text;
pub mod typed;
pub mod types;
pub mod video;
pub mod window;
pub mod wire;
