use skem::check::{check_status_line, check_summary_line};
use skem::check::{all_up_to_date, check_dependency, resolved_rev, CheckResult};
use skem::config::{Dependency, LockEntry, Lockfile};

fn test_dep() -> Dependency {
    Dependency {
        name: "test".to_string(),
        repo: "https://github.com/hiro-o918/skem.git".to_string(),
        rev: Some("refs/heads/main".to_string()),
        paths: vec!["src/".to_string()],
        out: "./vendor/test".to_string(),
        hooks: vec![],
    }
}

// The remote SHA that `git ls-remote` resolves is handed to the check.
const LATEST: &str = "5d41402abc4b2a76b9719d911017c592ae0f1b2c";

#[test]
fn test_check_dependency_up_to_date() {
    let dep = test_dep();
    let current_sha = LATEST.to_string();
    let lockfile = Lockfile {
        locks: vec![LockEntry {
            name: "test".to_string(),
            repo: dep.repo.clone(),
            rev: "refs/heads/main".to_string(),
            sha: current_sha.clone(),
        }],
    };
    let result = check_dependency(&dep, &lockfile, current_sha);
    assert_eq!(result, CheckResult::UpToDate);
}

#[test]
fn test_check_dependency_update_available() {
    let dep = test_dep();
    let lockfile = Lockfile {
        locks: vec![LockEntry {
            name: "test".to_string(),
            repo: dep.repo.clone(),
            rev: "refs/heads/main".to_string(),
            sha: "0000000000000000000000000000000000000000".to_string(),
        }],
    };
    let result = check_dependency(&dep, &lockfile, LATEST.to_string());
    match &result {
        CheckResult::UpdateAvailable { current_sha, latest_sha } => {
            assert_eq!(
                current_sha, "0000000000000000000000000000000000000000",
                "current_sha should be the dummy SHA from lockfile"
            );
            assert!(!latest_sha.is_empty(), "latest_sha should be a non-empty SHA from remote");
            assert_ne!(latest_sha, current_sha, "latest_sha should differ from current_sha");
        }
        other => panic!("Expected UpdateAvailable, got {other:?}"),
    }
}

#[test]
fn test_check_dependency_not_synced() {
    let dep = test_dep();
    let lockfile = Lockfile { locks: vec![] };
    let result = check_dependency(&dep, &lockfile, LATEST.to_string());
    assert_eq!(result, CheckResult::NotSynced);
}

#[test]
fn check_summary_and_default_rev() {
    assert!(all_up_to_date(&vec![]));
    assert!(all_up_to_date(&vec![CheckResult::UpToDate, CheckResult::UpToDate]));
    assert!(!all_up_to_date(&vec![CheckResult::UpToDate, CheckResult::NotSynced]));
    let mut dep = test_dep();
    assert_eq!(resolved_rev(&dep), "refs/heads/main");
    dep.rev = None;
    assert_eq!(resolved_rev(&dep), "HEAD");
}

#[test]
fn check_lines() {
    assert_eq!(check_status_line("api", &CheckResult::UpToDate), "  api is up to date.");
    assert_eq!(check_status_line("api", &CheckResult::NotSynced), "  api is not synced yet.");
    let r = CheckResult::UpdateAvailable {
        current_sha: "0000000000000000000000000000000000000000".to_string(),
        latest_sha: LATEST.to_string(),
    };
    assert_eq!(check_status_line("api", &r), "  api has update available: 0000000 -> 5d41402");
    assert_eq!(check_summary_line(true), "All dependencies are up to date.");
    assert_eq!(check_summary_line(false), "Some dependencies have updates available. Run 'skem sync' to update.");
}
