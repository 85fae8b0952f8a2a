//! Grouping commit titles of a version-control log into changelog sections.
pub mod title;
pub mod report;
pub mod cli;

pub use cli::Args;
pub use report::{changelog, classify, Category, CommitCollection, Report};
pub use title::CommitTitle;
