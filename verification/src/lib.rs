pub mod config;
pub mod parser;
pub mod formatting;
pub mod formatter;
pub mod cli;
pub mod file_names;
