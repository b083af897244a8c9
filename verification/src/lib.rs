//! Line search with highlighting.
//!
//! The library splits text content into lines, finds the lines that contain
//! a query substring (exactly, or ignoring ASCII case), and partitions each
//! matched line into plain and highlighted segments, one highlighted segment
//! per non-overlapping occurrence of the query.

pub mod casing;
pub mod config;
pub mod highlight;
pub mod lines;
pub mod matching;
pub mod runner;
pub mod search;

pub use config::Config;
pub use highlight::Segment;
pub use highlight::highlight_line;
pub use lines::split_lines;
pub use matching::find_from;
pub use matching::line_contains;
pub use runner::find_and_highlight;
pub use search::search;
pub use search::search_case_insensitive;
