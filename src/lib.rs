//! A streaming codec that splits a byte stream into newline-delimited frames
//! whose payloads are base64 encoded (standard alphabet, no padding).
pub mod buffer;
pub mod codec;
pub mod laws;
pub mod transform;
