//! Declarative dotfiles deployment: module resolution, per-file
//! materialization decisions and variable substitution.

pub mod config;
pub mod file;
pub mod loader;
pub mod materialize;
pub mod module;
pub mod paths;
pub mod render;
pub mod runner;
mod text;
pub mod variable;
