//! A small verified line-search library: given a query string and the full
//! text of a file, it selects the lines that contain the query, either
//! verbatim or up to a per-character ASCII case fold, preserving file order.

pub mod casefold;
pub mod config;
pub mod laws;
pub mod lines;
pub mod matcher;

pub use casefold::lower_char;
pub use config::{Config, SearchError};
pub use lines::lines_of;
pub use matcher::{search, search_case_insensitive};
