//! Where `skem self-update` looks for releases.

use vstd::prelude::*;

verus! {

/// Owner of the repository that publishes releases.
pub const REPO_OWNER: &'static str = "hiro-o918";

/// Name of the repository that publishes releases.
pub const REPO_NAME: &'static str = "skem";

/// Name of the released binary.
pub const BIN_NAME: &'static str = "skem";

} // verus!
