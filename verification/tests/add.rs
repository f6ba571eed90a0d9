use skem::add::{add_dependency, extract_repo_name, AddError};
use skem::config::{Config, Dependency};
use skem::rm::remove_dependency;

#[test]
fn test_extract_repo_name_https_with_git_suffix() {
    let result = extract_repo_name("https://github.com/example/api.git");
    assert_eq!(result.unwrap(), "api");
}

#[test]
fn test_extract_repo_name_https_without_git_suffix() {
    let result = extract_repo_name("https://github.com/example/api");
    assert_eq!(result.unwrap(), "api");
}

#[test]
fn test_extract_repo_name_with_trailing_slash() {
    let result = extract_repo_name("https://github.com/example/api/");
    assert_eq!(result.unwrap(), "api");
}

#[test]
fn extract_repo_name_ssh_url() {
    let result = extract_repo_name("git@github.com:example/api.git");
    assert_eq!(result.unwrap(), "api");
}

#[test]
fn extract_repo_name_trims_repeated_suffixes() {
    assert_eq!(extract_repo_name("https://host/x/lib.git.git//").unwrap(), "lib");
}

#[test]
fn extract_repo_name_fails_when_nothing_is_left() {
    let result = extract_repo_name("https://github.com/example/.git");
    assert_eq!(
        result,
        Err(AddError::RepoName { repo: "https://github.com/example/.git".to_string() })
    );
    assert_eq!(
        result.unwrap_err().message(),
        "Failed to extract repository name from 'https://github.com/example/.git'"
    );
    assert!(extract_repo_name("").is_err());
    assert!(extract_repo_name("///").is_err());
}

fn dep(name: &str, repo: &str, rev: Option<&str>, paths: &[&str], out: &str) -> Dependency {
    Dependency {
        name: name.to_string(),
        repo: repo.to_string(),
        rev: rev.map(|r| r.to_string()),
        paths: paths.iter().map(|p| p.to_string()).collect(),
        out: out.to_string(),
        hooks: vec![],
    }
}

#[test]
fn add_dependency_derives_name_from_repo() {
    let config = Config { deps: vec![], post_hooks: vec![] };
    let result = add_dependency(
        config,
        "https://github.com/example/api.git".to_string(),
        vec!["proto/".to_string()],
        "./vendor/api".to_string(),
        None,
        Some("main".to_string()),
    )
    .unwrap();
    let expected = Config {
        deps: vec![dep("api", "https://github.com/example/api.git", Some("main"), &["proto/"], "./vendor/api")],
        post_hooks: vec![],
    };
    assert_eq!(result, expected);
}

#[test]
fn add_dependency_with_explicit_name_appends() {
    let config = Config {
        deps: vec![dep("existing", "https://github.com/example/existing.git", Some("v1.0"), &["src/"], "./vendor/existing")],
        post_hooks: vec!["echo done".to_string()],
    };
    let result = add_dependency(
        config,
        "https://github.com/example/api.git".to_string(),
        vec!["proto/".to_string(), "openapi/".to_string()],
        "./vendor/api".to_string(),
        Some("my-api".to_string()),
        None,
    )
    .unwrap();
    let expected = Config {
        deps: vec![
            dep("existing", "https://github.com/example/existing.git", Some("v1.0"), &["src/"], "./vendor/existing"),
            dep("my-api", "https://github.com/example/api.git", None, &["proto/", "openapi/"], "./vendor/api"),
        ],
        post_hooks: vec!["echo done".to_string()],
    };
    assert_eq!(result, expected);
}

#[test]
fn add_dependency_duplicate_name_fails() {
    let config = Config {
        deps: vec![dep("api", "https://github.com/example/api.git", None, &["proto/"], "./vendor/api")],
        post_hooks: vec![],
    };
    let result = add_dependency(
        config,
        "https://github.com/example/api.git".to_string(),
        vec!["src/".to_string()],
        "./vendor/api2".to_string(),
        Some("api".to_string()),
        None,
    );
    let err = result.unwrap_err();
    assert_eq!(err, AddError::AlreadyExists { name: "api".to_string() });
    assert!(err.message().contains("already exists"));
}

#[test]
fn remove_after_add_restores_config() {
    let original = Config {
        deps: vec![dep("a", "https://x/a.git", None, &["p/"], "./o")],
        post_hooks: vec![],
    };
    let again = Config {
        deps: vec![dep("a", "https://x/a.git", None, &["p/"], "./o")],
        post_hooks: vec![],
    };
    let added = add_dependency(
        original,
        "https://github.com/example/new.git".to_string(),
        vec!["proto/".to_string()],
        "./vendor/new".to_string(),
        None,
        None,
    )
    .unwrap();
    assert_eq!(added.deps.len(), 2);
    let removed = remove_dependency(added, "new").unwrap();
    assert_eq!(removed, again);
}
