//! Converts proxy-subscription text into a structured client configuration
//! document: six URI decoders produce canonical nodes, a tag enricher rewrites
//! and filters their labels, and a config assembler merges them into a JSON
//! template, expanding group placeholders and pruning dead references.

pub mod outside;
pub mod text;
pub mod json;
pub mod json_text;
pub mod error;
pub mod uri;
pub mod parsers;
pub mod utils;
pub mod config;
pub mod laws;
