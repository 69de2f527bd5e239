//! Paths and file filters.

pub mod files;
