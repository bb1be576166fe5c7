//! Pieces of the llama.cpp backend that decide what emulated tool calling
//! does with generated text.

pub mod inference_emulated_tools;
