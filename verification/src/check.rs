//! `skem check`: how each dependency stands against the lockfile.

use vstd::prelude::*;
use vstd::string::*;
use crate::config::{Dependency, LockEntry, Lockfile};
use crate::lockfile::{changed, find_lock_entry, locked_sha};
use crate::ls::{byte_prefix, cut_on_boundary, short_sha};
use crate::text::{concat2, copy_string, str_eq};

verus! {

/// Result of checking a single dependency.
#[derive(Debug, PartialEq)]
pub enum CheckResult {
    /// Dependency is up to date
    UpToDate,
    /// Dependency has an available update
    UpdateAvailable { current_sha: String, latest_sha: String },
    /// Dependency is not yet synced
    NotSynced,
}

/// The revision that is resolved for a dependency: its `rev`, or `HEAD`.
pub open spec fn effective_rev(dep: Dependency) -> Seq<char> {
    match dep.rev {
        Some(r) => r@,
        None => "HEAD"@,
    }
}

/// The revision that is resolved on the remote for a dependency: its `rev`,
/// or `HEAD` when it has none.
pub fn resolved_rev(dep: &Dependency) -> (res: String)
    ensures
        res@ == effective_rev(*dep),
{
    match &dep.rev {
        Some(r) => copy_string(r),
        None => String::from_str("HEAD"),
    }
}

/// Whether `skem check` finds the dependency named `name`, whose revision
/// resolves to `latest_sha` on the remote, up to date against `locks`.
pub open spec fn checks_up_to_date(locks: Seq<LockEntry>, name: Seq<char>, latest_sha: Seq<char>) -> bool {
    locked_sha(locks, name) == Some(latest_sha)
}

/// Check a single dependency against the lockfile, given the commit SHA that
/// its revision currently resolves to on the remote.
pub fn check_dependency(dep: &Dependency, lockfile: &Lockfile, latest_sha: String) -> (res: CheckResult)
    ensures
        res is UpToDate <==> checks_up_to_date(lockfile.locks@, dep.name@, latest_sha@),
        match locked_sha(lockfile.locks@, dep.name@) {
            None => res == CheckResult::NotSynced,
            Some(s) => if s == latest_sha@ {
                res == CheckResult::UpToDate
            } else {
                res matches CheckResult::UpdateAvailable { current_sha, latest_sha: l }
                    && current_sha@ == s && l == latest_sha
            },
        },
{
    match find_lock_entry(lockfile, dep.name.as_str()) {
        Some(i) => {
            if str_eq(lockfile.locks[i].sha.as_str(), latest_sha.as_str()) {
                CheckResult::UpToDate
            } else {
                CheckResult::UpdateAvailable {
                    current_sha: copy_string(&lockfile.locks[i].sha),
                    latest_sha,
                }
            }
        },
        None => CheckResult::NotSynced,
    }
}

/// Law: a dependency checks as up to date exactly when sync would find it
/// unchanged.
pub proof fn law_check_agrees_with_change_detection(dep: Dependency, lockfile: Lockfile, latest_sha: Seq<char>)
    ensures
        (locked_sha(lockfile.locks@, dep.name@) == Some(latest_sha))
            == !changed(lockfile.locks@, dep.name@, latest_sha),
{
}

/// Whether every check result is `UpToDate` (`skem check` exits 0 exactly then).
pub fn all_up_to_date(results: &Vec<CheckResult>) -> (res: bool)
    ensures
        res == forall|i: int| 0 <= i < results@.len() ==> results@[i] is UpToDate,
{
    let mut i: usize = 0;
    while i < results.len()
        invariant
            i <= results@.len(),
            forall|j: int| 0 <= j < i ==> results@[j] is UpToDate,
        decreases results@.len() - i,
    {
        match &results[i] {
            CheckResult::UpToDate => {},
            _ => {
                return false;
            },
        }
        i = i + 1;
    }
    true
}


/// The line `skem check` prints for a dependency.
pub open spec fn status_line(name: Seq<char>, result: CheckResult) -> Seq<char> {
    match result {
        CheckResult::UpToDate => "  "@ + name + " is up to date."@,
        CheckResult::UpdateAvailable { current_sha, latest_sha } => "  "@ + name
            + " has update available: "@ + byte_prefix(current_sha@, 7) + " -> "@ + byte_prefix(latest_sha@, 7),
        CheckResult::NotSynced => "  "@ + name + " is not synced yet."@,
    }
}

/// The line `skem check` prints for a dependency; SHAs are shortened to
/// seven bytes.
pub fn check_status_line(name: &str, result: &CheckResult) -> (res: String)
    requires
        result matches CheckResult::UpdateAvailable { current_sha, latest_sha }
            ==> cut_on_boundary(current_sha@, 7) && cut_on_boundary(latest_sha@, 7),
    ensures
        res@ == status_line(name@, *result),
{
    let mut s = concat2("  ", name);
    match result {
        CheckResult::UpToDate => s.append(" is up to date."),
        CheckResult::UpdateAvailable { current_sha, latest_sha } => {
            s.append(" has update available: ");
            let c = short_sha(current_sha.as_str());
            s.append(c.as_str());
            s.append(" -> ");
            let l = short_sha(latest_sha.as_str());
            s.append(l.as_str());
        },
        CheckResult::NotSynced => s.append(" is not synced yet."),
    }
    s
}

/// The last line `skem check` prints.
pub fn check_summary_line(all_up_to_date: bool) -> (res: String)
    ensures
        all_up_to_date ==> res@ == "All dependencies are up to date."@,
        !all_up_to_date ==> res@ == "Some dependencies have updates available. Run 'skem sync' to update."@,
{
    if all_up_to_date {
        String::from_str("All dependencies are up to date.")
    } else {
        String::from_str("Some dependencies have updates available. Run 'skem sync' to update.")
    }
}

} // verus!
