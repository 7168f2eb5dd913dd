use gnb::builder::{build_base_name, build_candidate, resolve_prefix};
use gnb::errors::BranchNameError;
use gnb::stamp::date_stamp;

#[test]
fn test_build_base_name_empty() {
    let result = build_base_name(&vec![]);
    assert_eq!(result.len(), 6);
    assert!(result.chars().all(|c| c.is_ascii_digit()));
}

#[test]
fn test_build_base_name_single() {
    assert_eq!(build_base_name(&vec!["ABC-123".to_string()]), "ABC-123");
}

#[test]
fn test_build_base_name_multiple() {
    let args = vec!["fix".to_string(), "login".to_string()];
    assert_eq!(build_base_name(&args), "fix login");
}

#[test]
fn test_build_candidate_joins_prefix_and_slug() {
    assert_eq!(build_candidate("alice", "fix login bug"), "alice/fix-login-bug");
    assert_eq!(build_candidate("alice", "feature/sub"), "alice/feature-sub");
}

#[test]
fn test_build_candidate_date_fallback() {
    let result = build_candidate("alice", "!@#$%");
    let (head, tail) = result.split_at(6);
    assert_eq!(head, "alice/");
    assert_eq!(tail.len(), 6);
    assert!(tail.chars().all(|c| c.is_ascii_digit()));
}

#[test]
fn test_resolve_prefix_sanitizes() {
    assert_eq!(resolve_prefix("alice", false).unwrap(), "alice");
    assert_eq!(resolve_prefix("ci bot", true).unwrap(), "ci-bot");
}

#[test]
fn test_resolve_prefix_empty_override_fails() {
    let err = resolve_prefix("!@#", true).unwrap_err();
    assert_eq!(err, BranchNameError::EmptyOverridePrefix);
    assert!(err.message().contains("override"));
}

#[test]
fn test_resolve_prefix_empty_identity_fails() {
    let err = resolve_prefix("!@#", false).unwrap_err();
    assert_eq!(err, BranchNameError::EmptyIdentityPrefix);
    assert!(err.message().contains("username"));
}

#[test]
fn test_date_stamp_exact_values() {
    assert_eq!(date_stamp(2024, 1, 1), "240101");
    assert_eq!(date_stamp(1999, 12, 31), "991231");
    assert_eq!(date_stamp(2107, 6, 9), "070609");
}
