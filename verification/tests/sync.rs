use skem::config::Config;
use skem::sync::{sync_route, SyncRoute, dependency_hook_run, post_hook_run, HookRun, after_sync, gather_sync_results};
use skem::check::{check_dependency, CheckResult};
use skem::config::{Dependency, LockEntry, Lockfile};
use skem::sync::{
    check_sync_flags, no_files_message, should_sync, synced_entry, synced_files_value, validate_copied_count,
    SyncError, SYNCED_FILES_VAR,
};

#[test]
fn test_validate_copied_count_with_files_copied() {
    let dep_name = "my-dep";
    let dep_paths = vec!["proto/".to_string()];
    let result = validate_copied_count(1, dep_name, &dep_paths);
    assert!(result.is_ok());
}

#[test]
fn test_validate_copied_count_with_zero_files() {
    let dep_name = "my-dep";
    let dep_paths = vec!["foo/".to_string()];
    let result = validate_copied_count(0, dep_name, &dep_paths);
    assert!(result.is_err());
    let err_msg = result.unwrap_err().message();
    assert!(err_msg.contains("my-dep"), "Error should contain dependency name");
    assert!(err_msg.contains("foo/"), "Error should contain the paths");
}

#[test]
fn test_validate_copied_count_with_multiple_paths() {
    let dep_name = "my-dep";
    let dep_paths = vec!["foo/".to_string(), "bar/".to_string()];
    let result = validate_copied_count(0, dep_name, &dep_paths);
    assert!(result.is_err());
    let err_msg = result.unwrap_err().message();
    assert!(err_msg.contains("foo/"));
    assert!(err_msg.contains("bar/"));
}

#[test]
fn no_files_message_text() {
    let err = validate_copied_count(0, "my-dep", &vec!["foo/".to_string(), "bar/".to_string()]).unwrap_err();
    assert_eq!(
        err.message(),
        "No files matched paths [\"foo/\", \"bar/\"] for dependency 'my-dep'. Check your paths configuration."
    );
    assert_eq!(no_files_message("d", "[]"), "No files matched paths [] for dependency 'd'. Check your paths configuration.");
}

#[test]
fn sync_flags_conflict() {
    assert_eq!(check_sync_flags(true, true), Err(SyncError::ConflictingFlags));
    assert_eq!(SyncError::ConflictingFlags.message(), "--force and --hooks-only cannot be used together");
    assert!(check_sync_flags(true, false).is_ok());
    assert!(check_sync_flags(false, true).is_ok());
    assert!(check_sync_flags(false, false).is_ok());
}

#[test]
fn sync_decisions() {
    let dep = Dependency {
        name: "d".to_string(),
        repo: "https://x/d.git".to_string(),
        rev: None,
        paths: vec!["p/".to_string()],
        out: "./o".to_string(),
        hooks: vec![],
    };
    let lockfile = Lockfile {
        locks: vec![LockEntry { name: "d".to_string(), repo: String::new(), rev: String::new(), sha: "s".to_string() }],
    };
    assert!(!should_sync(&dep, "s", &lockfile, false));
    assert!(should_sync(&dep, "s", &lockfile, true));
    assert!(should_sync(&dep, "t", &lockfile, false));
    let entry = synced_entry(&dep, "t".to_string());
    assert_eq!(entry, ("d".to_string(), "https://x/d.git".to_string(), "HEAD".to_string(), "t".to_string()));
    assert_eq!(SYNCED_FILES_VAR, "SKEM_SYNCED_FILES");
    assert_eq!(
        synced_files_value(&vec!["vendor/a.proto".to_string(), "vendor/b.proto".to_string()]),
        "vendor/a.proto vendor/b.proto"
    );
    assert_eq!(synced_files_value(&vec![]), "");
}

fn plain_dep(name: &str, hooks: &[&str]) -> Dependency {
    Dependency {
        name: name.to_string(),
        repo: format!("https://x/{name}.git"),
        rev: None,
        paths: vec!["p/".to_string()],
        out: "./o".to_string(),
        hooks: hooks.iter().map(|h| h.to_string()).collect(),
    }
}

#[test]
fn sync_routes() {
    let empty = Config { deps: vec![], post_hooks: vec![] };
    let one = Config { deps: vec![plain_dep("a", &[])], post_hooks: vec![] };
    assert_eq!(sync_route(&empty, true, true), Err(SyncError::ConflictingFlags));
    assert_eq!(sync_route(&empty, false, true), Ok(SyncRoute::NothingToSync));
    assert_eq!(sync_route(&one, false, true), Ok(SyncRoute::HooksOnly));
    assert_eq!(sync_route(&one, true, false), Ok(SyncRoute::Fetch));
    assert_eq!(sync_route(&one, false, false), Ok(SyncRoute::Fetch));
}

#[test]
fn hook_runs() {
    let files = vec!["vendor/a.proto".to_string(), "vendor/b.proto".to_string()];
    assert_eq!(dependency_hook_run(&plain_dep("a", &[]), &files), None);
    assert_eq!(
        dependency_hook_run(&plain_dep("a", &["make"]), &files),
        Some(HookRun { hooks: vec!["make".to_string()], synced_files: Some("vendor/a.proto vendor/b.proto".to_string()) })
    );
    let config = Config { deps: vec![], post_hooks: vec!["echo done".to_string()] };
    assert_eq!(post_hook_run(&config), Some(HookRun { hooks: vec!["echo done".to_string()], synced_files: None }));
    assert_eq!(post_hook_run(&Config { deps: vec![], post_hooks: vec![] }), None);
}

#[test]
fn gather_and_after_sync() {
    let results: Vec<Result<Option<(String, String, String, String)>, String>> =
        vec![Ok(None), Err("first".to_string()), Err("second".to_string())];
    assert_eq!(gather_sync_results(results), Err("first".to_string()));

    let config = Config { deps: vec![plain_dep("a", &[]), plain_dep("b", &[])], post_hooks: vec!["post".to_string()] };
    let current = Lockfile {
        locks: vec![LockEntry { name: "a".to_string(), repo: "https://x/a.git".to_string(), rev: "HEAD".to_string(), sha: "a1".to_string() }],
    };
    // "a" is unchanged at a1 and skipped; "b" is synced at b1.
    let b_entry = synced_entry(&config.deps[1], "b1".to_string());
    let results: Vec<Result<Option<(String, String, String, String)>, String>> = vec![Ok(None), Ok(Some(b_entry))];
    let synced = gather_sync_results(results).unwrap();
    let next = after_sync(&config, &current, &synced);
    assert_eq!(next.post_hooks, vec!["post".to_string()]);
    let lockfile = next.lockfile.unwrap();
    assert_eq!(check_dependency(&config.deps[0], &lockfile, "a1".to_string()), CheckResult::UpToDate);
    assert_eq!(check_dependency(&config.deps[1], &lockfile, "b1".to_string()), CheckResult::UpToDate);

    // Nothing synced: no lockfile to write, post hooks still run.
    let next = after_sync(&config, &current, &vec![]);
    assert_eq!(next.lockfile, None);
    // The lockfile on disk stays as it was, and check still passes.
    assert_eq!(check_dependency(&config.deps[0], &current, "a1".to_string()), CheckResult::UpToDate);
    assert_eq!(next.post_hooks, vec!["post".to_string()]);
}
