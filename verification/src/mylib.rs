//! Helpers shared by the analysis programs.

pub mod file_names;
