//! Request bookkeeping for a speculative-decoding inference server.
pub mod channel;
pub mod executor;
pub mod laws;
pub mod llg;
pub mod pending;
pub mod request;
pub mod text;
pub mod types;
