//! Verified core logic of `skem`: the dependency model, lockfile change
//! detection, configuration validation, path stripping and the text that the
//! command line prints.

pub mod add;
pub mod check;
pub mod config;
pub mod copy;
pub mod git;
pub mod hooks;
pub mod interactive;
pub mod llms;
pub mod lockfile;
pub mod ls;
pub mod rm;
pub mod self_update;
pub mod sync;
pub mod text;
pub mod validate;
