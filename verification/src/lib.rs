//! Token counts, budgets and provider requests of Goose.
//!
//! Counting starts in [`token_counter`], cutting a text down in [`budget`]. What of a
//! request counts is told in [`prompt`], piece by piece in [`prompt_laws`], and how counts
//! relate in [`count_laws`]. The Ollama provider is in [`ollama`], declared providers are
//! in [`declarative`], and what other languages call in [`bindings`].

pub mod base;
pub mod bindings;
pub mod budget;
pub mod cache;
pub mod conversation;
pub mod count_laws;
pub mod custom_provider_config;
pub mod declarative;
pub mod json;
pub mod line_timeout;
pub mod model;
pub mod ollama;
pub mod prompt;
pub mod prompt_laws;
pub mod sums;
pub mod text;
pub mod token_counter;
pub mod tokenizer;
