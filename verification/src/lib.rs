//! A headless runner for Era game scripts: configuration and CSV loading,
//! ERB script indexing, an expression language and a small virtual machine.
pub mod assoc;
pub mod text;
pub mod paths;
pub mod sorting;
pub mod csv;
pub mod runtime;
pub mod expr;
pub mod instruction;
pub mod script;
pub mod vm;
pub mod config;
pub mod error;
pub mod cli;
pub mod terminal;
pub mod fs_overlay;
pub mod game;
pub mod console;
pub mod laws;
pub mod banner;
pub mod session;
