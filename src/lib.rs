//! A small line-oriented text search: configuration from the argument list,
//! splitting text into lines, and case-sensitive or case-insensitive
//! substring matching over those lines.
pub mod config;
pub mod search;
pub mod text;

pub use config::{find_matches, Config, ConfigError};
pub use search::{search, search_case_insensitive};
pub use text::{contains_query, split_lines};
