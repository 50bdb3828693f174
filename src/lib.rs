//! Reasoning-and-retrieval core of an editor's coding assistant: tool-call
//! extraction from model output, tool dispatch, a symbol index with ranked
//! search, stream framing for model backends and the conversation loop.

pub mod executor;
pub mod index;
pub mod json;
pub mod keybindings;
pub mod orchestrator;
pub mod palette;
pub mod provider;
pub mod search;
pub mod session;
pub mod stream;
pub mod system_prompt;
pub mod text;
pub mod toolcall;
