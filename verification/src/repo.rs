//! The repository materializer: validation of the destination path — it
//! must not exist, its parent must exist, be a directory and be writable —
//! and the placement of one symbolic link per accepted file, each named by
//! the file's base name.

use vstd::prelude::*;
use vstd::string::*;

use crate::fs_probe::{
    make_file_link, opt_string_view, parent_of, parent_path_of, path_exists, path_is_dir,
    remove_marker_link,
};
use crate::paths::{base_name, base_name_of, join_path, joined};

verus! {

/// Why a destination path was rejected, or what failed while linking.
#[derive(Debug)]
pub enum RepoPathError {
    PathAlreadyExists,
    ParentDirectoryNotFound,
    ParentDirectoryNotWritable,
    InvalidPath(String),
    IoError(String),
}

impl RepoPathError {
    /// The human-readable reason this error carries.
    pub open spec fn message_spec(&self) -> Seq<char> {
        match self {
            RepoPathError::PathAlreadyExists => "The path already exists"@,
            RepoPathError::ParentDirectoryNotFound => "The parent directory does not exist"@,
            RepoPathError::ParentDirectoryNotWritable => "The parent directory is not writable"@,
            RepoPathError::InvalidPath(m) => "Invalid path: "@ + m@,
            RepoPathError::IoError(m) => "IO error: "@ + m@,
        }
    }

    /// Renders the reason for display.
    pub fn message(&self) -> (r: String)
        ensures
            r@ == self.message_spec(),
    {
        match self {
            RepoPathError::PathAlreadyExists => "The path already exists".to_owned(),
            RepoPathError::ParentDirectoryNotFound => {
                "The parent directory does not exist".to_owned()
            },
            RepoPathError::ParentDirectoryNotWritable => {
                "The parent directory is not writable".to_owned()
            },
            RepoPathError::InvalidPath(m) => {
                let mut r = "Invalid path: ".to_owned();
                r.append(m.as_str());
                r
            },
            RepoPathError::IoError(m) => {
                let mut r = "IO error: ".to_owned();
                r.append(m.as_str());
                r
            },
        }
    }
}

/// The validation verdict over the five observations the probes make.
pub enum TargetVerdict {
    Accepted,
    AlreadyExists,
    NoParent,
    ParentMissing,
    ParentNotDir,
    ParentUnwritable,
}

/// The decision table of destination validation, in the order the checks
/// run: the first failing observation decides.
pub open spec fn classify_target(
    exists_now: bool,
    has_parent: bool,
    parent_exists: bool,
    parent_is_dir: bool,
    parent_writable: bool,
) -> TargetVerdict {
    if exists_now {
        TargetVerdict::AlreadyExists
    } else if !has_parent {
        TargetVerdict::NoParent
    } else if !parent_exists {
        TargetVerdict::ParentMissing
    } else if !parent_is_dir {
        TargetVerdict::ParentNotDir
    } else if !parent_writable {
        TargetVerdict::ParentUnwritable
    } else {
        TargetVerdict::Accepted
    }
}

/// How each verdict surfaces in the validation result.
pub open spec fn verdict_result_matches(v: TargetVerdict, r: Result<(), RepoPathError>) -> bool {
    match v {
        TargetVerdict::Accepted => r is Ok,
        TargetVerdict::AlreadyExists => match r {
            Result::Err(e) => e is PathAlreadyExists,
            _ => false,
        },
        TargetVerdict::ParentMissing => match r {
            Result::Err(e) => e is ParentDirectoryNotFound,
            _ => false,
        },
        TargetVerdict::ParentUnwritable => match r {
            Result::Err(e) => e is ParentDirectoryNotWritable,
            _ => false,
        },
        TargetVerdict::NoParent => match r {
            Result::Err(RepoPathError::InvalidPath(m)) => m@ == "Path has no parent directory"@,
            _ => false,
        },
        TargetVerdict::ParentNotDir => match r {
            Result::Err(RepoPathError::InvalidPath(m)) => m@ == "Parent is not a directory"@,
            _ => false,
        },
    }
}

/// Probes whether `dir` is writable: a marker link is created inside it
/// and removed again; only the creation's success is reported.
fn probe_writable(dir: &str) -> bool {
    let marker = join_path(dir, ".tmp_write_test");
    match make_file_link(".tmp_write_probe", marker.as_str()) {
        Result::Ok(_) => {
            remove_marker_link(marker.as_str());
            true
        },
        Result::Err(_) => false,
    }
}

/// The decision itself, verified against the decision table: given the
/// five observations, the result is exactly what `classify_target` says.
pub fn decide_target(
    exists_now: bool,
    has_parent: bool,
    parent_exists: bool,
    parent_is_dir: bool,
    parent_writable: bool,
) -> (r: Result<(), RepoPathError>)
    ensures
        verdict_result_matches(
            classify_target(exists_now, has_parent, parent_exists, parent_is_dir, parent_writable),
            r,
        ),
{
    if exists_now {
        Result::Err(RepoPathError::PathAlreadyExists)
    } else if !has_parent {
        Result::Err(RepoPathError::InvalidPath("Path has no parent directory".to_owned()))
    } else if !parent_exists {
        Result::Err(RepoPathError::ParentDirectoryNotFound)
    } else if !parent_is_dir {
        Result::Err(RepoPathError::InvalidPath("Parent is not a directory".to_owned()))
    } else if !parent_writable {
        Result::Err(RepoPathError::ParentDirectoryNotWritable)
    } else {
        Result::Ok(())
    }
}

/// Validates a destination path for materialization: the probes run in the
/// order of the decision table, the first failure decides through
/// `decide_target`, and the writability probe touches the filesystem only
/// after every earlier check has passed, so an existing destination is
/// rejected with no mutation. Whether the path has a parent at all is a
/// pure function of the path, so that observation is pinned; the
/// remaining observations are the disk's at call time.
pub fn is_valid_repo_path(path: &str) -> (r: Result<(), RepoPathError>)
    ensures
        exists|exists_now: bool, parent_exists: bool, parent_is_dir: bool, parent_writable: bool|
            verdict_result_matches(
                #[trigger] classify_target(
                    exists_now,
                    parent_path_of(path@) is Some,
                    parent_exists,
                    parent_is_dir,
                    parent_writable,
                ),
                r,
            ),
{
    if path_exists(path) {
        let r = decide_target(true, false, false, false, false);
        proof {
            assert(verdict_result_matches(
                classify_target(true, parent_path_of(path@) is Some, false, false, false),
                r,
            ));
        }
        return r;
    }
    match parent_of(path) {
        Option::None => {
            let r = decide_target(false, false, false, false, false);
            proof {
                assert(parent_path_of(path@) is None);
                assert(verdict_result_matches(
                    classify_target(false, parent_path_of(path@) is Some, false, false, false),
                    r,
                ));
            }
            r
        },
        Option::Some(parent) => {
            proof {
                assert(parent_path_of(path@) is Some);
            }
            if !path_exists(parent.as_str()) {
                let r = decide_target(false, true, false, false, false);
                proof {
                    assert(verdict_result_matches(
                        classify_target(false, parent_path_of(path@) is Some, false, false, false),
                        r,
                    ));
                }
                r
            } else if !path_is_dir(parent.as_str()) {
                let r = decide_target(false, true, true, false, false);
                proof {
                    assert(verdict_result_matches(
                        classify_target(false, parent_path_of(path@) is Some, true, false, false),
                        r,
                    ));
                }
                r
            } else {
                let writable = probe_writable(parent.as_str());
                let r = decide_target(false, true, true, true, writable);
                proof {
                    assert(verdict_result_matches(
                        classify_target(
                            false,
                            parent_path_of(path@) is Some,
                            true,
                            true,
                            writable,
                        ),
                        r,
                    ));
                }
                r
            }
        },
    }
}

/// An existing destination is always rejected as already existing,
/// whatever the other observations would have been.
pub proof fn lemma_existing_target_rejected(
    has_parent: bool,
    parent_exists: bool,
    parent_is_dir: bool,
    parent_writable: bool,
    r: Result<(), RepoPathError>,
)
    requires
        verdict_result_matches(
            classify_target(true, has_parent, parent_exists, parent_is_dir, parent_writable),
            r,
        ),
    ensures
        match r {
            Result::Err(e) => e is PathAlreadyExists,
            _ => false,
        },
{
}

/// Places one symbolic link per accepted file inside `repo_path`, each
/// named by the file's base name and pointing at the file, in order. The
/// created link paths come back; the first failure aborts the pass, and
/// what was already linked stays linked. With nothing to link, success is
/// owed: no outside call is made at all.
pub fn place_links(repo_path: &str, files: &Vec<String>) -> (r: Result<Vec<String>, RepoPathError>)
    ensures
        match r {
            Result::Ok(links) => links@.len() == files@.len() && forall|j: int|
                0 <= j < files@.len() ==> (#[trigger] links@[j])@ == joined(
                    repo_path@,
                    base_name(files@[j]@),
                ),
            Result::Err(e) => e is IoError,
        },
        files@.len() == 0 ==> r is Ok,
{
    let n = files.len();
    let mut links: Vec<String> = Vec::new();
    let mut i: usize = 0;
    while i < n
        invariant
            n == files@.len(),
            i <= n,
            links@.len() == i,
            forall|j: int|
                0 <= j < i ==> (#[trigger] links@[j])@ == joined(repo_path@, base_name(files@[j]@)),
        decreases n - i,
    {
        let name = base_name_of(files[i].as_str());
        let dest = join_path(repo_path, name.as_str());
        match make_file_link(files[i].as_str(), dest.as_str()) {
            Result::Ok(_) => {},
            Result::Err(m) => {
                return Result::Err(RepoPathError::IoError(m));
            },
        }
        links.push(dest);
        i = i + 1;
    }
    Result::Ok(links)
}

/// Accepted files with distinct base names get distinct links: joining the
/// same repository path with different names cannot collide.
pub proof fn lemma_distinct_names_distinct_links(repo: Seq<char>, x: Seq<char>, y: Seq<char>)
    requires
        x != y,
    ensures
        joined(repo, x) != joined(repo, y),
{
    if joined(repo, x) == joined(repo, y) {
        assert(joined(repo, x).len() == repo.len() + "/"@.len() + x.len());
        assert(joined(repo, y).len() == repo.len() + "/"@.len() + y.len());
        assert(x.len() == y.len());
        assert forall|k: int| 0 <= k < x.len() implies x[k] == y[k] by {
            assert(joined(repo, x)[repo.len() + "/"@.len() + k] == x[k]);
            assert(joined(repo, y)[repo.len() + "/"@.len() + k] == y[k]);
        }
        assert(x =~= y);
    }
}

} // verus!
