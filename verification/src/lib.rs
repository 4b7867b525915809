//! Line-oriented text search: which lines of a text hold a needle, how a
//! command line is read into a configuration, and how matches are reported.

pub mod matcher;
pub mod options;
pub mod report;
pub mod text;

pub use matcher::search;
pub use options::{Options, OptionsFlags};
