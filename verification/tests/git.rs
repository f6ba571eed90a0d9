use skem::git::{parse_ls_remote, GitOutputError};

#[test]
fn parse_ls_remote_first_word() {
    let out = "5d41402abc4b2a76b9719d911017c592ae0f1b2c\trefs/heads/main\n";
    assert_eq!(parse_ls_remote(out).unwrap(), "5d41402abc4b2a76b9719d911017c592ae0f1b2c");
    assert_eq!(parse_ls_remote("  \n abc def").unwrap(), "abc");
    assert_eq!(parse_ls_remote("\u{3000}x\u{2028}y").unwrap(), "x");
}

#[test]
fn parse_ls_remote_empty_output() {
    assert_eq!(parse_ls_remote(""), Err(GitOutputError::NoOutput));
    assert_eq!(parse_ls_remote(" \n\t "), Err(GitOutputError::NoOutput));
    assert_eq!(GitOutputError::NoOutput.message(), "No output from git ls-remote");
}
