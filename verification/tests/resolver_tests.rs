use dot_herder::paths::{base_name_of, join_path, resolve};

#[test]
fn placeholder_replaced_by_override() {
    let r = resolve("${HOME}/.config/app", Some("/custom/home"));
    assert_eq!(r, "/custom/home/.config/app");
}

#[test]
fn every_placeholder_occurrence_is_replaced() {
    let r = resolve("${HOME}/a/${HOME}/b", Some("/h"));
    assert_eq!(r, "/h/a//h/b");
}

#[test]
fn template_without_placeholder_passes_through() {
    let r = resolve("/etc/profile", Some("/custom/home"));
    assert_eq!(r, "/etc/profile");
}

#[test]
fn template_without_placeholder_and_no_override_passes_through() {
    let r = resolve("/etc/profile", None);
    assert_eq!(r, "/etc/profile");
}

#[test]
fn default_home_goes_through_tilde_expansion() {
    // Without an override the placeholder becomes the tilde sentinel and
    // tilde expansion takes over; whatever home the environment reports,
    // the suffix is kept.
    let r = resolve("${HOME}/.bashrc", None);
    assert!(r.ends_with("/.bashrc"));
    assert!(!r.contains("${HOME}"));
}

#[test]
fn named_user_tilde_is_left_alone() {
    // Tilde expansion handles only "~" and "~/..."; a named-user form
    // passes through unchanged.
    let r = resolve("~nobody/cfg", None);
    assert_eq!(r, "~nobody/cfg");
}

#[test]
fn empty_template_stays_empty() {
    let r = resolve("", Some("/h"));
    assert_eq!(r, "");
}

#[test]
fn base_name_takes_the_last_component() {
    assert_eq!(base_name_of("/home/user/.bashrc"), ".bashrc");
    assert_eq!(base_name_of("plain"), "plain");
    assert_eq!(base_name_of("a/b/c"), "c");
    assert_eq!(base_name_of("/trailing/"), "");
}

#[test]
fn join_path_inserts_one_separator() {
    assert_eq!(join_path("/tmp/repo", ".bashrc"), "/tmp/repo/.bashrc");
    assert_eq!(join_path("", "x"), "/x");
}
