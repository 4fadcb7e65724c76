//! Line search over a text: the lines that contain a query, with or without
//! regard to case, and the command-line configuration that selects between the
//! two.
pub mod config;
pub mod filter;
pub mod lines;
pub mod search;
pub mod text;

pub use config::{Config, MissingArgument};
pub use search::{search, search_case_insensitive};
pub use text::line_contains;
