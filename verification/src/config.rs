//! The data model of `.skem.yaml` and `.skem.lock`.

use vstd::prelude::*;
use vstd::string::*;

verus! {

/// Path of the configuration file, relative to the working directory.
pub const CONFIG_PATH: &'static str = ".skem.yaml";

/// Path of the lockfile, relative to the working directory.
pub const LOCKFILE_PATH: &'static str = ".skem.lock";

/// Structure of the `.skem.yaml` configuration file.
#[derive(Debug, PartialEq)]
pub struct Config {
    /// List of dependencies
    pub deps: Vec<Dependency>,
    /// Commands to run once after all dependencies are synced
    pub post_hooks: Vec<String>,
}

/// Individual dependency definition.
#[derive(Debug, PartialEq)]
pub struct Dependency {
    /// Name of the dependency
    pub name: String,
    /// Git repository URL
    pub repo: String,
    /// Branch, tag, or commit hash (the remote HEAD when absent)
    pub rev: Option<String>,
    /// List of paths to download
    pub paths: Vec<String>,
    /// Output directory
    pub out: String,
    /// Commands to execute when changes are detected
    pub hooks: Vec<String>,
}

/// Structure of the `.skem.lock` file.
#[derive(Debug, PartialEq)]
pub struct Lockfile {
    /// List of locked dependencies
    pub locks: Vec<LockEntry>,
}

/// Individual entry in the lock file.
#[derive(Debug, PartialEq)]
pub struct LockEntry {
    /// Name of the dependency
    pub name: String,
    /// Repository the commit was resolved from
    pub repo: String,
    /// Revision that was resolved
    pub rev: String,
    /// Resolved commit SHA
    pub sha: String,
}

fn owned(s: &str) -> (res: String)
    ensures
        res@ == s@,
{
    String::from_str(s)
}

/// The configuration that `skem init` writes.
pub fn get_sample_config() -> (config: Config)
    ensures
        config.deps@.len() == 2,
        config.post_hooks@.len() == 0,
        config.deps@[0].name@ == "proto-schemas"@,
        config.deps@[0].repo@ == "https://github.com/example/schemas.git"@,
        config.deps@[0].rev is None,
        config.deps@[0].paths@.len() == 1,
        config.deps@[0].paths@[0]@ == "proto/"@,
        config.deps@[0].out@ == "./vendor/proto"@,
        config.deps@[0].hooks@.len() == 1,
        config.deps@[0].hooks@[0]@ == "echo 'Proto files updated'"@,
        config.deps@[1].name@ == "openapi-schemas"@,
        config.deps@[1].repo@ == "https://github.com/example/schemas.git"@,
        config.deps@[1].rev is None,
        config.deps@[1].paths@.len() == 1,
        config.deps@[1].paths@[0]@ == "openapi/"@,
        config.deps@[1].out@ == "./vendor/openapi"@,
        config.deps@[1].hooks@.len() == 0,
{
    let first = Dependency {
        name: owned("proto-schemas"),
        repo: owned("https://github.com/example/schemas.git"),
        rev: None,
        paths: vec![owned("proto/")],
        out: owned("./vendor/proto"),
        hooks: vec![owned("echo 'Proto files updated'")],
    };
    let second = Dependency {
        name: owned("openapi-schemas"),
        repo: owned("https://github.com/example/schemas.git"),
        rev: None,
        paths: vec![owned("openapi/")],
        out: owned("./vendor/openapi"),
        hooks: Vec::new(),
    };
    Config { deps: vec![first, second], post_hooks: Vec::new() }
}


/// The message when `skem init` finds the configuration file already there.
pub fn already_exists_message(path: &str) -> (res: String)
    ensures
        res@ == "File '"@ + path@ + "' already exists. Please remove it first or use a different directory."@,
{
    let mut s = String::from_str("File '");
    s.append(path);
    s.append("' already exists. Please remove it first or use a different directory.");
    s
}

} // verus!
