//! Byte-level BPE.
pub mod bpe;
pub mod byte_level;
pub mod chat;
pub mod classes;
pub mod laws;
pub mod loading;
pub mod merging;
pub mod pattern;
pub mod pretokenize;
pub mod rules;
pub mod unicode_tables;
pub mod vocab;

pub use bpe::{EncodeOptions, Tokenizer};
pub use byte_level::{byte_to_char, char_to_byte};
pub use chat::{apply_chat_template, ChatMessage, DEFAULT_SYSTEM_PROMPT};
pub use classes::{is_letter, is_number, is_whitespace};
pub use pretokenize::pretokenize;
pub use vocab::{Merge, TokenType, Vocab, VocabError};
