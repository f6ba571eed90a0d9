use skem::config::{Config, Dependency};
use skem::rm::{remove_dependency, RmError};

fn dep(name: &str, repo: &str, rev: Option<&str>, paths: &[&str], out: &str) -> Dependency {
    Dependency {
        name: name.to_string(),
        repo: repo.to_string(),
        rev: rev.map(|r| r.to_string()),
        paths: paths.iter().map(|p| p.to_string()).collect(),
        out: out.to_string(),
        hooks: vec![],
    }
}

#[test]
fn remove_dependency_removes_named() {
    let config = Config {
        deps: vec![
            dep("dep1", "https://github.com/example/dep1.git", Some("main"), &["src/"], "./vendor/dep1"),
            dep("dep2", "https://github.com/example/dep2.git", None, &["proto/"], "./vendor/dep2"),
        ],
        post_hooks: vec![],
    };
    let updated = remove_dependency(config, "dep1").unwrap();
    let expected = Config {
        deps: vec![dep("dep2", "https://github.com/example/dep2.git", None, &["proto/"], "./vendor/dep2")],
        post_hooks: vec![],
    };
    assert_eq!(updated, expected);
}

#[test]
fn remove_dependency_nonexistent_fails() {
    let config = Config {
        deps: vec![dep("dep1", "https://github.com/example/dep1.git", None, &["src/"], "./vendor/dep1")],
        post_hooks: vec![],
    };
    let err = remove_dependency(config, "nonexistent").unwrap_err();
    assert_eq!(err, RmError::NotFound { name: "nonexistent".to_string() });
    assert!(err.message().contains("not found"));
}

#[test]
fn remove_dependency_last_leaves_empty() {
    let config = Config {
        deps: vec![dep("dep1", "https://github.com/example/dep1.git", None, &["src/"], "./vendor/dep1")],
        post_hooks: vec!["echo".to_string()],
    };
    let updated = remove_dependency(config, "dep1").unwrap();
    assert_eq!(updated, Config { deps: vec![], post_hooks: vec!["echo".to_string()] });
}
