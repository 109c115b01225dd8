//! Verified core of a local Model Context Protocol server.

pub mod answer_laws;
pub mod cache;
pub mod call_laws;
pub mod chunks;
pub mod content;
pub mod crawl_laws;
pub mod dir_cache;
pub mod embeddings;
pub mod extractors;
pub mod fast_search;
pub mod file_laws;
pub mod index_laws;
pub mod json;
pub mod mcp;
pub mod number_laws;
pub mod parse_structure;
pub mod path_laws;
pub mod path_table;
pub mod paths;
pub mod patterns;
pub mod protocol_laws;
pub mod quantizer;
pub mod ranking;
pub mod registry;
pub mod repeat_laws;
pub mod schema;
pub mod search_backend;
pub mod search_laws;
pub mod semantic_search;
pub mod state_laws;
pub mod text;
pub mod text_laws;
pub mod vector_cache;
pub mod view_laws;
pub mod watcher;

pub use patterns::{csharp_pattern, matches_structural_line, python_pattern, rust_pattern};
