//! Reading JSON responses as they arrive, chunk by chunk.
pub mod decoder;
pub mod error;
pub mod json_object;
pub mod json_text;
pub mod raw_json_row_streamer;
pub mod response;
pub mod scanner;
