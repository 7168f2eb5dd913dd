use gnb::errors::BranchNameError;
use gnb::parse::{parse_local_branches, parse_remote_branches};
use gnb::resolve::{collect_existing_branches, pick_available_name};

#[test]
fn test_pick_available_name_no_collision() {
    let existing = Vec::new();
    let result = pick_available_name("user/240101", &existing).unwrap();
    assert_eq!(result, "user/240101");
}

#[test]
fn test_pick_available_name_collision() {
    let mut existing = Vec::new();
    existing.push("user/240101".to_string());
    existing.push("user/240101_2".to_string());
    existing.push("user/240101_3".to_string());

    let result = pick_available_name("user/240101", &existing).unwrap();
    assert_eq!(result, "user/240101_4");
}

#[test]
fn test_pick_available_name_first_suffix() {
    let existing = vec!["user/x".to_string()];
    assert_eq!(pick_available_name("user/x", &existing).unwrap(), "user/x_2");
}

#[test]
fn test_pick_available_name_exhaustion() {
    let mut existing = vec!["user/x".to_string()];
    for i in 2..=100 {
        existing.push(format!("user/x_{}", i));
    }
    let err = pick_available_name("user/x", &existing).unwrap_err();
    assert_eq!(err, BranchNameError::SuffixesExhausted);
    assert!(err.message().contains("100"));
}

#[test]
fn test_collect_existing_branches_merges() {
    let local = vec!["main".to_string(), "dev".to_string()];
    let remote = Some(vec!["user/a".to_string()]);
    let merged = collect_existing_branches(local, remote);
    assert_eq!(merged, vec!["main".to_string(), "dev".to_string(), "user/a".to_string()]);
}

#[test]
fn test_collect_existing_branches_no_remote() {
    let local = vec!["main".to_string()];
    let merged = collect_existing_branches(local, None);
    assert_eq!(merged, vec!["main".to_string()]);
}

#[test]
fn test_parse_local_branches_lines() {
    let out = "main\nfeature/x\n\n  dev  \n";
    let parsed = parse_local_branches(out);
    assert_eq!(parsed, vec!["main".to_string(), "feature/x".to_string(), "dev".to_string()]);
}

#[test]
fn test_parse_remote_branches_refs() {
    let out = "0a1b\trefs/heads/user/240101\nf00d\trefs/heads/main\nnoise\n9c8d\trefs/tags/v1\n";
    let parsed = parse_remote_branches(out);
    assert_eq!(parsed, vec!["user/240101".to_string(), "main".to_string()]);
}

#[test]
fn test_end_to_end_no_args_no_branches() {
    let prefix = gnb::builder::resolve_prefix("alice", false).unwrap();
    let base = gnb::builder::build_base_name(&vec![]);
    let candidate = gnb::builder::build_candidate(&prefix, &base);
    let existing = collect_existing_branches(Vec::new(), None);
    let target = pick_available_name(&candidate, &existing).unwrap();
    assert_eq!(target, candidate);
    let (head, tail) = target.split_at(6);
    assert_eq!(head, "alice/");
    assert_eq!(tail.len(), 6);
    assert!(tail.chars().all(|c| c.is_ascii_digit()));
}
