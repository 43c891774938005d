//! The tokenizer core of a markdown parser: a byte-level cursor that
//! normalises line endings and expands tabs, an event log of entered and
//! exited tokens, and a small state machine with attempts and checks that
//! can be reverted.

pub mod constant;
pub mod construct;
pub mod event;
pub mod laws;
pub mod parser;
pub mod resolve;
pub mod state;
pub mod tokenizer;
