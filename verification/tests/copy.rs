use skem::copy::strip_path_prefix;
use std::path::PathBuf;

fn strip(file_path: &PathBuf, dep_paths: &Vec<String>) -> Option<PathBuf> {
    strip_path_prefix(file_path.to_str().unwrap(), dep_paths).map(PathBuf::from)
}

#[test]
fn test_strip_path_prefix_single_level_directory() {
    let file_path = PathBuf::from("/tmp/repo/proto/user.proto");
    let dep_paths = vec!["proto/".to_string()];
    let result = strip(&file_path, &dep_paths);
    assert_eq!(result, Some(PathBuf::from("user.proto")));
}

#[test]
fn test_strip_path_prefix_nested_directory() {
    let file_path = PathBuf::from("/tmp/repo/proto/v1/user.proto");
    let dep_paths = vec!["proto/v1/".to_string()];
    let result = strip(&file_path, &dep_paths);
    assert_eq!(result, Some(PathBuf::from("user.proto")));
}

#[test]
fn test_strip_path_prefix_nested_file_structure() {
    let file_path = PathBuf::from("/tmp/repo/proto/v1/services/auth/user.proto");
    let dep_paths = vec!["proto/v1/".to_string()];
    let result = strip(&file_path, &dep_paths);
    assert_eq!(result, Some(PathBuf::from("services/auth/user.proto")));
}

#[test]
fn test_strip_path_prefix_multiple_paths_first_match() {
    let file_path = PathBuf::from("/tmp/repo/proto/v1/user.proto");
    let dep_paths = vec!["proto/v1/".to_string(), "proto/v2/".to_string()];
    let result = strip(&file_path, &dep_paths);
    assert_eq!(result, Some(PathBuf::from("user.proto")));
}

#[test]
fn test_strip_path_prefix_multiple_paths_second_match() {
    let file_path = PathBuf::from("/tmp/repo/proto/v2/user.proto");
    let dep_paths = vec!["proto/v1/".to_string(), "proto/v2/".to_string()];
    let result = strip(&file_path, &dep_paths);
    assert_eq!(result, Some(PathBuf::from("user.proto")));
}

#[test]
fn test_strip_path_prefix_no_match() {
    let file_path = PathBuf::from("/tmp/repo/src/main.rs");
    let dep_paths = vec!["proto/".to_string()];
    let result = strip(&file_path, &dep_paths);
    assert_eq!(result, None);
}

#[test]
fn test_strip_path_prefix_empty_paths() {
    let file_path = PathBuf::from("/tmp/repo/proto/user.proto");
    let dep_paths: Vec<String> = vec![];
    let result = strip(&file_path, &dep_paths);
    assert_eq!(result, None);
}

#[test]
fn test_strip_path_prefix_without_trailing_slash() {
    let file_path = PathBuf::from("/tmp/repo/proto/user.proto");
    let dep_paths = vec!["proto".to_string()];
    let result = strip(&file_path, &dep_paths);
    assert_eq!(result, Some(PathBuf::from("user.proto")));
}

#[test]
fn test_strip_path_prefix_exact_file_path() {
    let file_path = PathBuf::from("/tmp/repo/backend/api/openapi3.yaml");
    let dep_paths = vec!["backend/api/openapi3.yaml".to_string()];
    let result = strip(&file_path, &dep_paths);
    assert_eq!(result, Some(PathBuf::from("openapi3.yaml")));
}

#[test]
fn test_strip_path_prefix_exact_file_path_nested() {
    let file_path = PathBuf::from("/tmp/repo/backend/apiapp/gen/http/openapi3.yaml");
    let dep_paths = vec!["backend/apiapp/gen/http/openapi3.yaml".to_string()];
    let result = strip(&file_path, &dep_paths);
    assert_eq!(result, Some(PathBuf::from("openapi3.yaml")));
}

#[test]
fn strip_path_prefix_file_name_edge_cases() {
    // The dependency path names the file itself and ends in "." or ".." components.
    assert_eq!(strip_path_prefix("/r/a/b/.", &vec!["a/b/.".to_string()]), Some("b".to_string()));
    assert_eq!(strip_path_prefix("/r/a/..", &vec!["a/..".to_string()]), None);
    assert_eq!(strip_path_prefix("/r/x", &vec!["".to_string()]), Some("r/x".to_string()));
}

#[test]
fn strip_path_prefix_result_is_relative() {
    // Slashes that directly follow the match are all skipped, so the result
    // never replaces the output directory it is joined to.
    assert_eq!(strip_path_prefix("/a/proto//x", &vec!["proto/".to_string()]), Some("x".to_string()));
    assert_eq!(strip_path_prefix("/a/proto///x/y", &vec!["proto".to_string()]), Some("x/y".to_string()));
    assert_eq!(strip_path_prefix("/a/proto//", &vec!["proto/".to_string()]), Some("proto".to_string()));
    let out = PathBuf::from("/out");
    let joined = out.join(strip_path_prefix("/a/proto//x", &vec!["proto/".to_string()]).unwrap());
    assert_eq!(joined, PathBuf::from("/out/x"));
}

#[test]
fn strip_path_prefix_first_occurring_path_decides() {
    let file = "/tmp/repo/proto/v1/user.proto";
    let alone = strip_path_prefix(file, &vec!["proto/v1/".to_string()]);
    let listed = strip_path_prefix(
        file,
        &vec!["docs/".to_string(), "proto/v1/".to_string(), "proto/".to_string()],
    );
    assert_eq!(alone, Some("user.proto".to_string()));
    assert_eq!(listed, alone);
}
