use skem::config::{LockEntry, Lockfile};
use skem::lockfile::{find_lock_entry, has_changed, remove_lockfile_entry, update_lockfile_entries};

fn entry(name: &str, sha: &str) -> LockEntry {
    LockEntry { name: name.to_string(), repo: String::new(), rev: String::new(), sha: sha.to_string() }
}

#[test]
fn test_has_changed_returns_true_for_new_dependency() {
    let lockfile = Lockfile { locks: vec![] };
    let changed = has_changed("new-dep", "abc123", &lockfile);
    assert!(changed);
}

#[test]
fn test_has_changed_returns_true_when_sha_differs() {
    let lockfile = Lockfile { locks: vec![entry("existing-dep", "old-sha")] };
    let changed = has_changed("existing-dep", "new-sha", &lockfile);
    assert!(changed);
}

#[test]
fn test_has_changed_returns_false_when_sha_matches() {
    let lockfile = Lockfile { locks: vec![entry("existing-dep", "current-sha")] };
    let changed = has_changed("existing-dep", "current-sha", &lockfile);
    assert!(!changed);
}

#[test]
fn test_has_changed_with_multiple_dependencies() {
    let lockfile = Lockfile {
        locks: vec![entry("dep1", "sha1"), entry("dep2", "sha2"), entry("dep3", "sha3")],
    };
    assert!(!has_changed("dep1", "sha1", &lockfile));
    assert!(has_changed("dep2", "new-sha", &lockfile));
    assert!(has_changed("dep4", "any-sha", &lockfile));
}

#[test]
fn has_changed_uses_first_entry_of_a_name() {
    let lockfile = Lockfile { locks: vec![entry("d", "first"), entry("d", "second")] };
    assert_eq!(find_lock_entry(&lockfile, "d"), Some(0));
    assert!(!has_changed("d", "first", &lockfile));
    assert!(has_changed("d", "second", &lockfile));
}

#[test]
fn remove_lockfile_entry_keeps_others_in_order() {
    let lockfile = Lockfile { locks: vec![entry("a", "1"), entry("b", "2"), entry("a", "3"), entry("c", "4")] };
    let removed = remove_lockfile_entry(&lockfile, "a");
    assert_eq!(removed, Lockfile { locks: vec![entry("b", "2"), entry("c", "4")] });
    assert!(has_changed("a", "1", &removed));
    assert!(!has_changed("b", "2", &removed));
}

#[test]
fn update_lockfile_entries_replaces_and_appends() {
    let lockfile = Lockfile { locks: vec![entry("a", "old"), entry("b", "keep")] };
    let updates = vec![
        ("c".to_string(), "https://x/c.git".to_string(), "HEAD".to_string(), "c1".to_string()),
        ("a".to_string(), "https://x/a.git".to_string(), "main".to_string(), "new".to_string()),
    ];
    let updated = update_lockfile_entries(&lockfile, &updates);
    let expected = Lockfile {
        locks: vec![
            LockEntry {
                name: "a".to_string(),
                repo: "https://x/a.git".to_string(),
                rev: "main".to_string(),
                sha: "new".to_string(),
            },
            entry("b", "keep"),
            LockEntry {
                name: "c".to_string(),
                repo: "https://x/c.git".to_string(),
                rev: "HEAD".to_string(),
                sha: "c1".to_string(),
            },
        ],
    };
    assert_eq!(updated, expected);
    assert!(!has_changed("a", "new", &updated));
    assert!(!has_changed("c", "c1", &updated));
    assert!(!has_changed("b", "keep", &updated));
}
