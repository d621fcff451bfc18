//! A library for herding dotfiles: it resolves declared dotfile locations to
//! absolute paths, discovers which of them exist, screens file contents for
//! credential-like keywords, gates flagged files behind an explicit user
//! decision, and plans the placement of symbolic links inside a fresh
//! repository directory.

pub mod cli;
pub mod config;
pub mod discovery;
pub mod fs_probe;
pub mod gate;
pub mod repo;
pub mod paths;
pub mod scanner;
pub mod text;
