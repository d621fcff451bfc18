//! The trusted boundary to the filesystem and the environment: every call
//! into an outside crate or an unspecified part of std stands here, each
//! behind a small wrapper whose contract states no more than the callee's
//! source shows.

use vstd::prelude::*;

verus! {

/// The view of an optional owned string.
pub open spec fn opt_string_view(o: Option<String>) -> Option<Seq<char>> {
    match o {
        Option::Some(s) => Option::Some(s@),
        Option::None => Option::None,
    }
}

/// The parent that the standard library computes for a path string: the
/// path with its last component removed, or nothing for a root or an empty
/// path. A pure function of the path, left without a definition here.
pub uninterp spec fn parent_path_of(s: Seq<char>) -> Option<Seq<char>>;

/// Relies on std::path::Path::exists: reports whether the path names an
/// entry on disk at the moment of the call. Nothing further is assumed:
/// the filesystem may change between calls.
#[verifier::external_body]
pub(crate) fn path_exists(p: &str) -> bool {
    std::path::Path::new(p).exists()
}

/// Relies on std::path::Path::is_dir: reports whether the path names a
/// directory on disk at the moment of the call.
#[verifier::external_body]
pub(crate) fn path_is_dir(p: &str) -> bool {
    std::path::Path::new(p).is_dir()
}

/// Relies on std::path::Path::parent, a pure function of the path string,
/// named `parent_path_of` above.
#[verifier::external_body]
pub(crate) fn parent_of(p: &str) -> (r: Option<String>)
    ensures
        opt_string_view(r) == parent_path_of(p@),
{
    std::path::Path::new(p).parent().map(|q| q.to_string_lossy().into_owned())
}

/// Relies on symlink::symlink_file: creates a symbolic link at `dest`
/// pointing at `source`; on failure the error's text is handed back.
/// Success depends on the state of the filesystem, so nothing is assumed
/// of the outcome.
#[verifier::external_body]
pub(crate) fn make_file_link(source: &str, dest: &str) -> Result<(), String> {
    match symlink::symlink_file(source, dest) {
        Ok(()) => Ok(()),
        Err(e) => Err(format!("{}", e)),
    }
}

/// Relies on symlink::remove_symlink_file: removes the symbolic link at
/// `p`; a failure to remove is ignored.
#[verifier::external_body]
pub(crate) fn remove_marker_link(p: &str) {
    let _ = symlink::remove_symlink_file(p);
}

/// Relies on shellexpand::tilde: an input that does not begin with '~'
/// comes back unchanged, and so does a leading '~' followed by anything
/// but a path separator (a named-user form is not expanded); only "~"
/// alone or a leading "~/" may have the tilde replaced by whatever home
/// directory the environment reports.
#[verifier::external_body]
pub(crate) fn expand_tilde(s: &str) -> (r: String)
    ensures
        s@.len() == 0 ==> r@ == s@,
        s@.len() > 0 && s@[0] != '~' ==> r@ == s@,
        s@.len() >= 2 && s@[0] == '~' && s@[1] != '/' && s@[1] != '\\' ==> r@ == s@,
{
    shellexpand::tilde(s).into_owned()
}

} // verus!
