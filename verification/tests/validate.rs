use skem::config::{Config, Dependency};
use skem::validate::{validate_config, ValidationErrorKind};

fn dep(name: &str, repo: &str, rev: Option<&str>, paths: &[&str], out: &str) -> Dependency {
    Dependency {
        name: name.to_string(),
        repo: repo.to_string(),
        rev: rev.map(|r| r.to_string()),
        paths: paths.iter().map(|p| p.to_string()).collect(),
        out: out.to_string(),
        hooks: vec![],
    }
}

#[test]
fn test_validate_config_valid() {
    let config = Config {
        deps: vec![dep("dep1", "https://github.com/example/repo.git", Some("main"), &["src/"], "./vendor/dep1")],
        post_hooks: vec![],
    };
    let result = validate_config(&config);
    assert!(result.is_ok());
}

#[test]
fn test_validate_config_empty_deps_is_valid() {
    let config = Config { deps: vec![], post_hooks: vec![] };
    let result = validate_config(&config);
    assert!(result.is_ok());
}

#[test]
fn test_validate_config_duplicate_names() {
    let config = Config {
        deps: vec![
            dep("dep1", "https://github.com/example/repo1.git", None, &["src/"], "./vendor/dep1"),
            dep("dep1", "https://github.com/example/repo2.git", None, &["lib/"], "./vendor/dep2"),
        ],
        post_hooks: vec![],
    };
    let result = validate_config(&config);
    assert!(result.is_err());
    let err_msg = result.unwrap_err().message();
    assert!(err_msg.contains("dep1"), "error should mention the duplicate name: {err_msg}");
}

#[test]
fn test_validate_config_empty_name() {
    let config = Config {
        deps: vec![dep("", "https://github.com/example/repo.git", None, &["src/"], "./vendor/dep1")],
        post_hooks: vec![],
    };
    let result = validate_config(&config);
    assert!(result.is_err());
    let err_msg = result.unwrap_err().message();
    assert!(err_msg.contains("name"), "error should mention 'name': {err_msg}");
}

#[test]
fn test_validate_config_empty_repo() {
    let config = Config {
        deps: vec![dep("dep1", "", None, &["src/"], "./vendor/dep1")],
        post_hooks: vec![],
    };
    let result = validate_config(&config);
    assert!(result.is_err());
    let err_msg = result.unwrap_err().message();
    assert!(err_msg.contains("repo"), "error should mention 'repo': {err_msg}");
}

#[test]
fn test_validate_config_empty_paths() {
    let config = Config {
        deps: vec![dep("dep1", "https://github.com/example/repo.git", None, &[], "./vendor/dep1")],
        post_hooks: vec![],
    };
    let result = validate_config(&config);
    assert!(result.is_err());
    let err_msg = result.unwrap_err().message();
    assert!(err_msg.contains("paths"), "error should mention 'paths': {err_msg}");
}

#[test]
fn test_validate_config_empty_out() {
    let config = Config {
        deps: vec![dep("dep1", "https://github.com/example/repo.git", None, &["src/"], "")],
        post_hooks: vec![],
    };
    let result = validate_config(&config);
    assert!(result.is_err());
    let err_msg = result.unwrap_err().message();
    assert!(err_msg.contains("out"), "error should mention 'out': {err_msg}");
}

#[test]
fn test_validate_config_multiple_errors_reports_first() {
    let config = Config { deps: vec![dep("", "", None, &[], "")], post_hooks: vec![] };
    let result = validate_config(&config);
    assert!(result.is_err());
}

#[test]
fn validation_messages_and_order() {
    let config = Config {
        deps: vec![
            dep("a", "r", None, &["p"], "o"),
            dep("b", "r", None, &["p"], "o"),
            dep("a", "r", None, &["p"], "o"),
            dep("c", "r", None, &[], "o"),
        ],
        post_hooks: vec![],
    };
    let err = validate_config(&config).unwrap_err();
    assert_eq!(err.kind, ValidationErrorKind::EmptyPaths);
    assert_eq!(err.index, 3);
    assert_eq!(err.message(), "deps[3] (c): paths must not be empty");
    let config = Config {
        deps: vec![dep("a", "r", None, &["p"], "o"), dep("b", "r", None, &["p"], "o"), dep("a", "r", None, &["p"], "o")],
        post_hooks: vec![],
    };
    let err = validate_config(&config).unwrap_err();
    assert_eq!(err.kind, ValidationErrorKind::DuplicateName);
    assert_eq!(err.index, 2);
    assert_eq!(err.message(), "duplicate dependency name: a");
    let config = Config { deps: vec![dep("", "", None, &[], "")], post_hooks: vec![] };
    assert_eq!(validate_config(&config).unwrap_err().message(), "deps[0]: name must not be empty");
    let mut many = Vec::new();
    for i in 0..12 {
        many.push(dep(&format!("d{i}"), "r", None, &["p"], if i == 11 { "" } else { "o" }));
    }
    let config = Config { deps: many, post_hooks: vec![] };
    assert_eq!(validate_config(&config).unwrap_err().message(), "deps[11] (d11): out must not be empty");
}
