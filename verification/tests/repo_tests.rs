use std::io::Write;

use dot_herder::repo::{decide_target, is_valid_repo_path, place_links, RepoPathError};

#[test]
fn decision_table_row_by_row() {
    assert!(matches!(
        decide_target(true, true, true, true, true),
        Err(RepoPathError::PathAlreadyExists)
    ));
    match decide_target(false, false, true, true, true) {
        Err(RepoPathError::InvalidPath(m)) => assert_eq!(m, "Path has no parent directory"),
        _ => panic!("expected an invalid-path error"),
    }
    assert!(matches!(
        decide_target(false, true, false, true, true),
        Err(RepoPathError::ParentDirectoryNotFound)
    ));
    match decide_target(false, true, true, false, true) {
        Err(RepoPathError::InvalidPath(m)) => assert_eq!(m, "Parent is not a directory"),
        _ => panic!("expected an invalid-path error"),
    }
    assert!(matches!(
        decide_target(false, true, true, true, false),
        Err(RepoPathError::ParentDirectoryNotWritable)
    ));
    assert!(decide_target(false, true, true, true, true).is_ok());
}

#[test]
fn existing_target_is_rejected_before_any_mutation() {
    // The path surely exists, so validation must fail on the very first
    // check, whatever its parent looks like.
    let r = is_valid_repo_path("/tmp");
    assert!(matches!(r, Err(RepoPathError::PathAlreadyExists)));
}

#[test]
fn existing_root_is_rejected() {
    let r = is_valid_repo_path("/");
    assert!(matches!(r, Err(RepoPathError::PathAlreadyExists)));
}

#[test]
fn missing_parent_is_rejected() {
    let r = is_valid_repo_path("/no_such_directory_qqz_640214/repo");
    assert!(matches!(r, Err(RepoPathError::ParentDirectoryNotFound)));
}

#[test]
fn path_without_parent_is_invalid() {
    let r = is_valid_repo_path("");
    match r {
        Err(RepoPathError::InvalidPath(m)) => assert_eq!(m, "Path has no parent directory"),
        other => panic!("expected an invalid-path error, got {:?}", other.is_ok()),
    }
}

#[test]
fn parent_that_is_a_file_is_invalid() {
    let file = tempfile::NamedTempFile::new().unwrap();
    let target = format!("{}/sub", file.path().to_str().unwrap());
    let r = is_valid_repo_path(&target);
    match r {
        Err(RepoPathError::InvalidPath(m)) => assert_eq!(m, "Parent is not a directory"),
        other => panic!("expected an invalid-path error, got {:?}", other.is_ok()),
    }
}

#[test]
fn unwritable_parent_is_rejected() {
    // /proc/sys exists and is a directory, but no entry can be created in
    // it, so the writability probe must fail.
    let r = is_valid_repo_path("/proc/sys/no_such_entry_qqz");
    assert!(matches!(r, Err(RepoPathError::ParentDirectoryNotWritable)));
}

#[test]
fn fresh_path_under_writable_parent_is_accepted() {
    let dir = tempfile::tempdir().unwrap();
    let target = format!("{}/repo", dir.path().to_str().unwrap());
    let r = is_valid_repo_path(&target);
    assert!(r.is_ok());
    // The probe leaves no trace behind.
    assert!(!std::path::Path::new(&target).exists());
}

#[test]
fn error_messages_render_their_reason() {
    assert_eq!(
        RepoPathError::PathAlreadyExists.message(),
        "The path already exists"
    );
    assert_eq!(
        RepoPathError::ParentDirectoryNotFound.message(),
        "The parent directory does not exist"
    );
    assert_eq!(
        RepoPathError::ParentDirectoryNotWritable.message(),
        "The parent directory is not writable"
    );
    assert_eq!(
        RepoPathError::InvalidPath("because".to_string()).message(),
        "Invalid path: because"
    );
    assert_eq!(
        RepoPathError::IoError("broken".to_string()).message(),
        "IO error: broken"
    );
}

#[test]
fn one_link_per_accepted_file() {
    let sources = tempfile::tempdir().unwrap();
    let mut a = tempfile::NamedTempFile::new_in(sources.path()).unwrap();
    a.write_all(b"alpha contents").unwrap();
    a.flush().unwrap();
    let mut b = tempfile::NamedTempFile::new_in(sources.path()).unwrap();
    b.write_all(b"beta contents").unwrap();
    b.flush().unwrap();

    let repo = tempfile::tempdir().unwrap();
    let repo_path = repo.path().to_str().unwrap();

    let files = vec![
        a.path().to_str().unwrap().to_string(),
        b.path().to_str().unwrap().to_string(),
    ];
    let links = place_links(repo_path, &files).unwrap();

    assert_eq!(links.len(), 2);
    for (link, source) in links.iter().zip(files.iter()) {
        let link_path = std::path::Path::new(link);
        assert!(link_path.exists());
        assert_eq!(link_path.parent().unwrap(), repo.path());
        let source_path = std::path::Path::new(source);
        assert_eq!(
            link_path.file_name().unwrap(),
            source_path.file_name().unwrap()
        );
    }
}

#[test]
fn colliding_link_name_aborts_with_an_error() {
    let sources = tempfile::tempdir().unwrap();
    let mut a = tempfile::NamedTempFile::new_in(sources.path()).unwrap();
    a.write_all(b"contents").unwrap();
    a.flush().unwrap();

    let repo = tempfile::tempdir().unwrap();
    let repo_path = repo.path().to_str().unwrap();
    let files = vec![a.path().to_str().unwrap().to_string()];

    assert!(place_links(repo_path, &files).is_ok());
    // The same name again collides; the pass must fail, not overwrite.
    let again = place_links(repo_path, &files);
    assert!(matches!(again, Err(RepoPathError::IoError(_))));
}

#[test]
fn nothing_to_link_is_a_trivial_success() {
    let files: Vec<String> = Vec::new();
    let links = place_links("/no_such_repo_dir_qqz_640214", &files).unwrap();
    assert!(links.is_empty());
}

#[test]
fn link_into_missing_directory_fails() {
    let sources = tempfile::tempdir().unwrap();
    let a = tempfile::NamedTempFile::new_in(sources.path()).unwrap();
    let files = vec![a.path().to_str().unwrap().to_string()];
    let r = place_links("/no_such_repo_dir_qqz_640214", &files);
    assert!(matches!(r, Err(RepoPathError::IoError(_))));
}
