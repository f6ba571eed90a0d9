use skem::config::{Config, Dependency, LockEntry, Lockfile};
use skem::ls::{format_dependency, list_dependencies, short_sha};

#[test]
fn test_format_dependency_with_rev_and_synced() {
    let dep = Dependency {
        name: "api".to_string(),
        repo: "https://github.com/example/api.git".to_string(),
        rev: Some("v2.0".to_string()),
        paths: vec!["proto/".to_string()],
        out: "./vendor/api".to_string(),
        hooks: vec![],
    };
    let lockfile = Lockfile {
        locks: vec![LockEntry {
            name: "api".to_string(),
            repo: "https://github.com/example/api.git".to_string(),
            rev: "v2.0".to_string(),
            sha: "abc123def456".to_string(),
        }],
    };
    let result = format_dependency(&dep, &lockfile);
    assert_eq!(
        result,
        "api  https://github.com/example/api.git  v2.0  paths: proto/  out: ./vendor/api  [synced: abc123d]"
    );
}

#[test]
fn test_format_dependency_without_rev() {
    let dep = Dependency {
        name: "api".to_string(),
        repo: "https://github.com/example/api.git".to_string(),
        rev: None,
        paths: vec!["proto/".to_string()],
        out: "./vendor/api".to_string(),
        hooks: vec![],
    };
    let lockfile = Lockfile { locks: vec![] };
    let result = format_dependency(&dep, &lockfile);
    assert_eq!(
        result,
        "api  https://github.com/example/api.git  (HEAD)  paths: proto/  out: ./vendor/api  [not synced]"
    );
}

#[test]
fn test_format_dependency_multiple_paths() {
    let dep = Dependency {
        name: "schemas".to_string(),
        repo: "https://github.com/example/schemas.git".to_string(),
        rev: Some("main".to_string()),
        paths: vec!["proto/".to_string(), "openapi/".to_string()],
        out: "./vendor/schemas".to_string(),
        hooks: vec![],
    };
    let lockfile = Lockfile { locks: vec![] };
    let result = format_dependency(&dep, &lockfile);
    assert_eq!(
        result,
        "schemas  https://github.com/example/schemas.git  main  paths: proto/, openapi/  out: ./vendor/schemas  [not synced]"
    );
}

#[test]
fn test_list_dependencies_multiple() {
    let config = Config {
        deps: vec![
            Dependency {
                name: "api".to_string(),
                repo: "https://github.com/example/api.git".to_string(),
                rev: None,
                paths: vec!["proto/".to_string()],
                out: "./vendor/api".to_string(),
                hooks: vec![],
            },
            Dependency {
                name: "ui".to_string(),
                repo: "https://github.com/example/ui.git".to_string(),
                rev: Some("v2.0".to_string()),
                paths: vec!["dist/".to_string()],
                out: "./vendor/ui".to_string(),
                hooks: vec![],
            },
        ],
        post_hooks: vec![],
    };
    let lockfile = Lockfile {
        locks: vec![LockEntry {
            name: "api".to_string(),
            repo: "https://github.com/example/api.git".to_string(),
            rev: "HEAD".to_string(),
            sha: "abc123d".to_string(),
        }],
    };
    let lines = list_dependencies(&config, &lockfile);
    let expected = vec![
        "api  https://github.com/example/api.git  (HEAD)  paths: proto/  out: ./vendor/api  [synced: abc123d]",
        "ui  https://github.com/example/ui.git  v2.0  paths: dist/  out: ./vendor/ui  [not synced]",
    ];
    assert_eq!(lines, expected);
}

#[test]
fn test_list_dependencies_empty() {
    let config = Config { deps: vec![], post_hooks: vec![] };
    let lockfile = Lockfile { locks: vec![] };
    let lines = list_dependencies(&config, &lockfile);
    assert!(lines.is_empty());
}

#[test]
fn short_sha_cuts_at_seven_bytes() {
    assert_eq!(short_sha("0123456789abcdef"), "0123456");
    assert_eq!(short_sha("abc"), "abc");
    assert_eq!(short_sha(""), "");
    // A two-byte character that ends exactly at byte seven.
    assert_eq!(short_sha("abcdeé12"), "abcdeé");
}
