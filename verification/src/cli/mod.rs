//! Command-line options and validation, and the pure parts of the live and
//! capture pipelines.

pub mod args;
pub mod capture;
pub mod helpers;
pub mod validate;

pub use args::{Cli, Format, SortBy};
