//! Grammar-driven incremental tokenizer with the surrounding editor-state
//! types: a declarative grammar is compiled into a context model, and a
//! stack machine assigns hierarchical scope labels to spans of text,
//! re-tokenizing only the suffix affected by an edit.

pub mod buffer;
pub mod command;
pub mod cursor;
pub mod dispatch;
pub mod error;
pub mod highlighter;
pub mod input;
pub mod mode;
pub mod msg;
pub mod pattern;
pub mod point;
pub mod skim;
pub mod syntax;
pub mod text_buffer;
pub mod variables;
