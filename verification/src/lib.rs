//! Text-based tool-call emulation for local models that have no native
//! tool-calling support.
//!
//! Models are prompted to write shell commands as `$ command` lines and code
//! as fenced ```` ```execute_typescript ```` blocks; a streaming parser turns
//! those patterns into actions while leaving ordinary Markdown (including
//! other fences and list items) as text.

pub mod text;
pub mod markdown;
pub mod tool_emulation;
pub mod laws;
pub mod chunking;
pub mod stream;
pub mod outcomes;
pub mod tool_description;
pub mod llamacpp;
pub mod system_prompt;
