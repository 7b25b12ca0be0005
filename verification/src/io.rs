//! The decisions behind terminal interaction and opening files: prompts and
//! their answers, inline editing, and editor commands.

pub mod cli;
pub mod expanded_path;
pub mod file_open;
pub mod progress_bar;
pub mod xdg;
