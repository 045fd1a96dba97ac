//! Request dispatch engine for an OpenAI-compatible inference gateway.
//!
//! The library holds the verified core of the gateway: model-to-provider
//! resolution, weighted and cache-affine provider selection, the fallback
//! state machine, the streaming and non-streaming response transformations,
//! and the telemetry record synthesis. The surrounding process (HTTP server,
//! upstream client, config file watching, persistence) drives these
//! functions from outside.

pub mod audio;
pub mod config;
pub mod dispatcher;
pub mod errors;
pub mod gateway;
pub mod json;
pub mod matcher;
pub mod payload;
pub mod policy;
pub mod preprocess;
pub mod selector;
pub mod sse;
pub mod stream;
pub mod strutil;
pub mod telemetry;
pub mod transform;
