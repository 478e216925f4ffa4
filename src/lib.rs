//! Scans source files for work markers such as `TODO` and `FIXME`.
//!
//! The library holds the decisions of a scan: which paths are admitted, which
//! lines match the keyword pattern, what entry each match becomes, the final
//! ordering of all entries, and the text report on them. Reading files and
//! walking directories is left to the caller, which hands the library plain
//! values.

pub mod assemble;
pub mod config;
pub mod entry;
pub mod error;
pub mod filter;
pub mod matcher;
pub mod render;
pub mod scanner;
pub mod text;

pub use assemble::sort_entries;
pub use config::ScanConfig;
pub use entry::TodoEntry;
pub use error::ScanError;
pub use filter::WalkStep;
pub use render::format_results_colored;
pub use scanner::{FileScan, TodoScanner};
