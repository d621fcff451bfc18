use dot_herder::gate::{gate_accepts, needs_confirmation};
use dot_herder::scanner::{ScanResult, Scanner};

fn one_finding() -> Vec<ScanResult> {
    vec![ScanResult {
        line_number: 1,
        culprit_line: "password: hunter2".to_string(),
        prev_line: None,
        next_line: None,
        reason: "Keyword match".to_string(),
    }]
}

#[test]
fn clean_scan_needs_no_confirmation() {
    let empty: Vec<ScanResult> = Vec::new();
    assert!(!needs_confirmation(&empty));
}

#[test]
fn findings_force_confirmation() {
    assert!(needs_confirmation(&one_finding()));
}

#[test]
fn clean_scan_is_accepted_without_an_answer() {
    let empty: Vec<ScanResult> = Vec::new();
    assert!(gate_accepts(&empty, None));
    assert!(gate_accepts(&empty, Some(false)));
    assert!(gate_accepts(&empty, Some(true)));
}

#[test]
fn findings_are_accepted_only_on_explicit_yes() {
    let findings = one_finding();
    assert!(gate_accepts(&findings, Some(true)));
    assert!(!gate_accepts(&findings, Some(false)));
    assert!(!gate_accepts(&findings, None));
}

#[test]
fn gate_follows_the_scanner_end_to_end() {
    let scanner = Scanner::new();
    let clean = scanner.scan("nothing to see\nhere at all");
    assert!(!needs_confirmation(&clean));
    assert!(gate_accepts(&clean, None));

    let dirty = scanner.scan("my password: abc");
    assert!(needs_confirmation(&dirty));
    assert!(!gate_accepts(&dirty, None));
    assert!(gate_accepts(&dirty, Some(true)));
}
