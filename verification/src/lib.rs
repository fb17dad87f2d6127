//! A small line-oriented text search library.
//!
//! Given a query string and the full text of a file, the library returns
//! every line of the text that contains the query as a substring, either
//! case-sensitively or case-insensitively. A configuration type carries the
//! query, the file name and the case-sensitivity choice from the command
//! line into the search.

pub mod casefold;
pub mod config;
pub mod lines;
pub mod search;
pub mod substring;

pub use config::Config;
pub use config::ConfigError;
pub use search::search;
pub use search::search_case_insensitive;
pub use search::search_with_config;
