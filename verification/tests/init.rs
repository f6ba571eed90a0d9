use skem::validate::validate_config;
use skem::config::{already_exists_message, get_sample_config, Config, Dependency, CONFIG_PATH, LOCKFILE_PATH};

#[test]
fn test_sample_config_structure() {
    let config = get_sample_config();
    let expected = Config {
        deps: vec![
            Dependency {
                name: "proto-schemas".to_string(),
                repo: "https://github.com/example/schemas.git".to_string(),
                rev: None,
                paths: vec!["proto/".to_string()],
                out: "./vendor/proto".to_string(),
                hooks: vec!["echo 'Proto files updated'".to_string()],
            },
            Dependency {
                name: "openapi-schemas".to_string(),
                repo: "https://github.com/example/schemas.git".to_string(),
                rev: None,
                paths: vec!["openapi/".to_string()],
                out: "./vendor/openapi".to_string(),
                hooks: vec![],
            },
        ],
        post_hooks: vec![],
    };
    assert_eq!(config, expected);
}

#[test]
fn test_init_error_message_contains_helpful_text() {
    let error_msg = already_exists_message(CONFIG_PATH);
    assert_eq!(
        error_msg,
        "File '.skem.yaml' already exists. Please remove it first or use a different directory."
    );
    assert!(error_msg.contains("already exists"));
}

#[test]
fn default_paths() {
    assert_eq!(CONFIG_PATH, ".skem.yaml");
    assert_eq!(LOCKFILE_PATH, ".skem.lock");
}

#[test]
fn sample_config_is_valid() {
    assert!(validate_config(&get_sample_config()).is_ok());
}
