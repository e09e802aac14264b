//! Diagnostic engine for hierarchical Markdown documentation trees.

pub mod text;
pub mod types;
pub mod yaml;
pub mod lint_docs;
pub mod release;
pub mod loader;
pub mod files;
pub mod links;
pub mod graph;
pub mod cycles;
pub mod fix_router;
pub mod docs;
pub mod registry;
pub mod cli;
pub mod config;
pub mod pipeline;
pub mod schema;
pub mod hash;
pub mod patterns;
pub mod clock;
pub mod order;
pub mod paths;
pub mod fields;
pub mod commands;
