//! A personal multilingual dictionary: the entry model, the vocabulary
//! index with its freshness rule, the completion protocol and the decisions
//! of the workspace orchestrator.

pub mod entry;
pub mod error;
pub mod index;
pub mod layout;
pub mod openai;
pub mod state;
pub mod text;
