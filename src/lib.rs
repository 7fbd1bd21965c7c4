pub mod config;
pub mod search;
pub mod text;

pub use config::Config;
pub use search::{filter, matches_folded, search, search_case_insensitive};
