//! Loreglide's typing-echo core: deciding, from successive snapshots of a
//! focused text field, when a word or a sentence has just been completed.

pub mod diffing;
pub mod settings;
pub mod text;
pub mod tts;
pub mod watcher;

