//! A virtual filesystem and shell-command layer for a terminal-style
//! personal website, with its behaviour stated and proved.

pub mod blog;
pub mod command;
pub mod command_laws;
pub mod components;
pub mod fs;
pub mod fs_laws;
pub mod highlight;
pub mod laws;
pub mod cp_mv_tools;
pub mod fs_tools;
pub mod prompt;
pub mod screen;
pub mod shell_laws;
pub mod ps_tools;
pub mod simple_tools;
pub mod sort;
pub mod system_tools;
pub mod terminal;
pub mod text;
pub mod tree;
pub mod vfs;
pub mod vfs_laws;
