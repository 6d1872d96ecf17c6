//! A typo-tolerant `which`: exact lookups behave like `which`, misspelled
//! names are fuzzy-matched against the executables on `PATH`.
//!
//! The library holds the decisions; reading directories, probing files and
//! printing are left to the caller.
pub mod text;
pub mod path;
pub mod exact;
pub mod order;
pub mod path_scan;
pub mod matcher;
pub mod picker;
pub mod cli;
