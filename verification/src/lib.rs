//! Indexing and retrieval core of a desktop search engine: extension
//! classes, tokenizing, launcher ranking, index maintenance and the
//! debounced file watcher, with machine-checked contracts.

pub mod browser;
pub mod commands;
pub mod config;
pub mod document;
pub mod extensions;
pub mod file_watcher;
pub mod hotkey;
pub mod index_laws;
pub mod index_model;
pub mod index_store;
pub mod path_utils;
pub mod query_plan;
pub mod ranking;
pub mod roots;
pub mod scorer;
pub mod tantivy_engine;
pub mod text;
pub mod tokenizer;
