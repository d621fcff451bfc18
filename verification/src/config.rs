//! The configured dotfile declarations. The canonical schema: each entry
//! carries a display name and, separately, the path template that the
//! resolver expands to the file's location.

use vstd::prelude::*;

verus! {

/// One declared dotfile: a label and the path template of its location.
pub struct Dotfile {
    pub name: String,
    pub path: String,
}

/// The configured set of dotfiles.
pub struct Config {
    pub dotfiles: Vec<Dotfile>,
}

} // verus!
