//! A one-shot source-to-source generator for a command-buffer style renderer.
//!
//! The library reads the lines of a C-style graphics-API header, keeps only
//! the lines between a fixed begin/end marker pair, parses each kept line as a
//! function prototype, and emits two derived text artifacts: per-call packet
//! structures (arguments plus an executor) and per-call record functions that
//! allocate, fill and queue such a packet for deferred execution.

pub mod emit;
pub mod parse;
pub mod pipeline;
pub mod proto;
pub mod region;
pub mod text;
