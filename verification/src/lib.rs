//! Markdown vaults as a database.
//!
//! A vault is a folder of `.md` notes with YAML frontmatter and `[[wikilinks]]`.
//! This crate holds the rules of such a database as verified functions on plain
//! values: texts in, texts and plans out. Reading and writing files is left to
//! the caller.

pub mod cli;
pub mod text;
pub mod error;
pub mod float;
pub mod writer;
pub mod record;
pub mod path;
pub mod yaml;
pub mod frontmatter;
pub mod links;
pub mod query;
pub mod filter;
pub mod dsl;
pub mod schema;
pub mod tree;
pub mod sort;
pub mod vault;
pub mod mutation;
pub mod journal;
pub mod runs;
pub mod json;
pub mod render;
pub mod mcp;
pub mod fts;
pub mod orm;
pub mod bindings;
