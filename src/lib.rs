//! Core of a desktop image viewer: a readiness gate for open requests, a
//! bounded LRU cache of decoded images, and the decode and resize pipeline.
pub mod gate;
pub mod cache;
pub mod pipeline;
pub mod dispatch;
