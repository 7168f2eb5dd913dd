use gnb::slug::sanitize;

#[test]
fn test_sanitize_simple() {
    assert_eq!(sanitize("ABC-123"), "ABC-123");
    assert_eq!(sanitize("feature"), "feature");
}

#[test]
fn test_sanitize_spaces() {
    assert_eq!(sanitize("fix login bug"), "fix-login-bug");
    assert_eq!(sanitize("multiple   spaces"), "multiple-spaces");
}

#[test]
fn test_sanitize_slashes() {
    assert_eq!(sanitize("feature/sub"), "feature-sub");
}

#[test]
fn test_sanitize_special_chars() {
    assert_eq!(sanitize("fix@#$%bug"), "fix-bug");
    assert_eq!(sanitize("a!b@c#d"), "a-b-c-d");
}

#[test]
fn test_sanitize_allowed_chars() {
    assert_eq!(sanitize("v1.2.3"), "v1.2.3");
    assert_eq!(sanitize("feat_name"), "feat_name");
    assert_eq!(sanitize("test+plus"), "test+plus");
}

#[test]
fn test_sanitize_dot_edges() {
    assert_eq!(sanitize(".leading"), "leading");
    assert_eq!(sanitize("trailing."), "trailing");
    assert_eq!(sanitize("double..dot"), "double-dot");
}

#[test]
fn test_sanitize_lock_suffix() {
    assert_eq!(sanitize("build.lock"), "build-lock");
}

#[test]
fn test_sanitize_empty_fallback() {
    let result = sanitize("!@#$%");
    // Should be a date in YYMMDD format
    assert_eq!(result.len(), 6);
    assert!(result.chars().all(|c| c.is_ascii_digit()));
}

#[test]
fn test_sanitize_trim_dashes() {
    assert_eq!(sanitize("-hello-"), "hello");
    assert_eq!(sanitize("--test--"), "test");
}

#[test]
fn test_sanitize_empty_input_falls_back_to_stamp() {
    let result = sanitize("");
    assert_eq!(result.len(), 6);
    assert!(result.chars().all(|c| c.is_ascii_digit()));
}

#[test]
fn test_sanitize_component_may_be_empty() {
    assert_eq!(gnb::slug::sanitize_component("!@#$%"), "");
    assert_eq!(gnb::slug::sanitize_component(""), "");
    assert_eq!(gnb::slug::sanitize_component("fix login bug"), "fix-login-bug");
}

#[test]
fn test_sanitize_idempotent_on_samples() {
    let samples = [
        "fix login bug",
        "feature/sub",
        "v1.2.3",
        "build.lock",
        "--test--",
        ".leading",
        "!@#$%",
        "",
        "a!b@c#d.lock",
    ];
    for s in samples {
        let once = sanitize(s);
        assert_eq!(sanitize(&once), once);
    }
}

#[test]
fn test_sanitize_mixed_edge_cases() {
    assert_eq!(sanitize("a.-b"), "a.-b");
    assert_eq!(sanitize("a-.b"), "a-b");
    assert_eq!(sanitize(" spaced out "), "spaced-out");
    assert_eq!(sanitize("..lock"), "lock");
    assert_eq!(sanitize("x..lock"), "x-lock");
}
