//! Core of a text-generation gateway: model resolution and warm cache,
//! conversational session state, sliding-window rate limiting and the
//! token-stream relay that sits between an inference engine and a transport.
//!
//! Everything in this crate is synchronous and free of I/O. A server drives
//! it: it performs the outside work (awaiting the engine, writing frames,
//! talking to the durable store) and asks the library what to do next.
pub mod config;
pub mod engine;
pub mod engine_mock;
pub mod keyed;
pub mod middleware;
pub mod models;
pub mod relay;
pub mod routes;
pub mod state;
pub mod text;
