//! Incremental decoder for a length/marker-delimited binary frame stream.
//!
//! Bytes arrive from a pull-based source in chunks of arbitrary size; the
//! scanner accumulates them until a whole frame is available, decodes exactly
//! one frame per step, degrades content errors to recoverable `Unknown` items,
//! and signals end-of-stream, flushing trailing partial data.

pub mod accumulator;
pub mod codec;
pub mod decoder;
pub mod error;
pub mod scanner;
pub mod sink;
pub mod source;
