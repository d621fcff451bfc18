use dot_herder::scanner::Scanner;

#[test]
fn test_scanner() {
    let scanner = Scanner::new();
    let content = r#"
This is a normal line
Here's a line with a password: mySecretPass123
Another normal line
ApiKey: abcdefghijklmnop
Last line
"#;

    let results = scanner.scan(content);

    assert_eq!(results.len(), 2);
    assert_eq!(results[0].line_number, 3);
    assert_eq!(results[0].reason, "Keyword match");
    assert_eq!(results[1].line_number, 5);
    assert_eq!(results[1].reason, "Keyword match");
}

#[test]
fn test_secret_is_present() {
    let scanner = Scanner::new();
    let content = "This is a normal line\nHere's a secret: myApiKey123\nAnother normal line";
    let results = scanner.scan(content);

    assert_eq!(results.len(), 1);
    assert_eq!(results[0].line_number, 2);
    assert_eq!(results[0].reason, "Keyword match");
    assert!(results[0].culprit_line.contains("myApiKey123"));
}

#[test]
fn test_no_secret_present() {
    let scanner = Scanner::new();
    let content = "This is a normal line\nNothing here\nJust regular text";
    let results = scanner.scan(content);

    assert_eq!(results.len(), 0);
}

#[test]
fn test_multiple_same_secret_present() {
    let scanner = Scanner::new();
    let content = "Password: 123456\nAnother password: 123456\nYet another password: 123456";
    let results = scanner.scan(content);

    assert_eq!(results.len(), 3);
    for result in &results {
        assert_eq!(result.reason, "Keyword match");
        assert!(result.culprit_line.to_lowercase().contains("password"));
    }
}

#[test]
fn test_multiple_different_secret_present() {
    let scanner = Scanner::new();
    let content = "API_KEY: abcdef\nUsername: john_doe\nPassword: secret123";
    let results = scanner.scan(content);

    assert_eq!(results.len(), 3);
    assert!(results.iter().any(|r| r.culprit_line.contains("API_KEY")));
    assert!(results.iter().any(|r| r.culprit_line.contains("Username")));
    assert!(results.iter().any(|r| r.culprit_line.contains("Password")));
}

#[test]
fn contains_api_key() {
    let scanner = Scanner::new();
    let content = "some ordinary preamble\napi_key = abcdef123456\ntrailing line";
    let results = scanner.scan(content);
    assert_eq!(results.len(), 1);
    assert!(results[0].culprit_line.to_lowercase().contains("api_key"));
}

#[test]
fn single_password_line_yields_one_match() {
    let scanner = Scanner::new();
    let results = scanner.scan("password: abc123");
    assert_eq!(results.len(), 1);
    assert_eq!(results[0].line_number, 1);
    assert_eq!(results[0].reason, "Keyword match");
    assert!(results[0].culprit_line.contains("password"));
    assert_eq!(results[0].culprit_line, "password: abc123");
    assert!(results[0].prev_line.is_none());
    assert!(results[0].next_line.is_none());
}

#[test]
fn three_keyword_lines_come_in_order() {
    let scanner = Scanner::new();
    let results = scanner.scan("API_KEY: abcdef\nUsername: john_doe\nPassword: secret123");
    assert_eq!(results.len(), 3);
    assert_eq!(results[0].line_number, 1);
    assert_eq!(results[1].line_number, 2);
    assert_eq!(results[2].line_number, 3);
    assert!(results[0].culprit_line.contains("API_KEY"));
    assert!(results[1].culprit_line.contains("Username"));
    assert!(results[2].culprit_line.contains("Password"));
}

#[test]
fn ascending_order_and_context_presence() {
    let scanner = Scanner::new();
    let results = scanner.scan("auth first\nplain middle\ntoken last");
    assert_eq!(results.len(), 2);
    assert!(results[0].line_number < results[1].line_number);
    assert_eq!(results[0].line_number, 1);
    assert_eq!(results[1].line_number, 3);

    assert!(results[0].prev_line.is_none());
    assert_eq!(results[0].next_line.as_deref(), Some("plain middle"));

    assert_eq!(results[1].prev_line.as_deref(), Some("plain middle"));
    assert!(results[1].next_line.is_none());
}

#[test]
fn substring_match_is_intentional() {
    let scanner = Scanner::new();
    let results = scanner.scan("authorization header follows");
    assert_eq!(results.len(), 1);
    assert_eq!(results[0].line_number, 1);
}

#[test]
fn matching_is_case_insensitive() {
    let scanner = Scanner::new();
    let results = scanner.scan("NPM_TOKEN=zzz\nPrIvAtE_kEy here");
    assert_eq!(results.len(), 2);
}

#[test]
fn unicode_simple_folding_reaches_keyword_letters() {
    // The Kelvin sign folds to 'k' and the long s to 's'.
    let scanner = Scanner::new();
    let results = scanner.scan("api_\u{212a}ey here\npa\u{17f}\u{17f}word there");
    assert_eq!(results.len(), 2);
    assert_eq!(results[0].line_number, 1);
    assert_eq!(results[1].line_number, 2);
}

#[test]
fn one_match_per_line_even_with_many_keywords() {
    let scanner = Scanner::new();
    let results = scanner.scan("password username secret token");
    assert_eq!(results.len(), 1);
    assert_eq!(results[0].line_number, 1);
}

#[test]
fn trailing_newline_leaves_no_artifact() {
    let scanner = Scanner::new();
    let results = scanner.scan("secret: x\n");
    assert_eq!(results.len(), 1);
    assert_eq!(results[0].line_number, 1);
    assert_eq!(results[0].culprit_line, "secret: x");
    assert!(results[0].next_line.is_none());
}

#[test]
fn empty_content_yields_no_matches() {
    let scanner = Scanner::new();
    let results = scanner.scan("");
    assert_eq!(results.len(), 0);
}
