//! The streamed `OpenAI` Responses decoder: frame reassembly, frame payload extraction, tool
//! call assembly and the lifecycle that projects frames onto canonical events.
pub mod frame;
pub mod data;
pub mod tool;
pub mod stream;
pub mod decoder;
pub mod chunking;
