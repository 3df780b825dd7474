//! A browser for the files of a directory that hands the selected ones to a packing backend.
//!
//! The library holds all that the browser decides: the file tree and what of it is shown and
//! selected, the token counts, the command lines and the outcomes of the backends, the
//! configuration, and what keys and the mouse do. Points in time, file contents and the outcomes
//! of outside programs come in as plain values.

pub mod app;
pub mod backend_task;
pub mod cli;
pub mod clipboard;
pub mod config;
pub mod file_utils;
pub mod laws;
pub mod path;
pub mod path_map;
pub mod platform;
pub mod process;
pub mod repomix_integration;
pub mod text;
pub mod token_counter;
pub mod token_totals;
pub mod tree_laws;
pub mod types;
pub mod ui;
pub mod yek_integration;
