use skem::self_update::{BIN_NAME, REPO_NAME, REPO_OWNER};

#[test]
fn test_constants() {
    assert_eq!(REPO_OWNER, "hiro-o918");
    assert_eq!(REPO_NAME, "skem");
    assert_eq!(BIN_NAME, "skem");
}
