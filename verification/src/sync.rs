//! The decisions of `skem sync`: which dependencies to fetch, what a sync
//! records and passes to hooks, and when it fails.

use vstd::prelude::*;
use vstd::string::*;
use crate::check::{checks_up_to_date, effective_rev, resolved_rev};
use crate::config::{Config, Dependency, LockEntry, Lockfile};
use crate::validate::config_valid;
use crate::lockfile::{apply_update, apply_updates, changed, has_changed, lemma_apply_update_sha, locked_sha,
    update_lockfile_entries, SyncedDependency};
use crate::text::{plain_strings, quoted_list, concat2, copy_string, copy_strings, debug_list, debug_string_list, join, join_strings, views};

verus! {

/// The environment variable that per-dependency hooks receive.
pub const SYNCED_FILES_VAR: &'static str = "SKEM_SYNCED_FILES";

/// Why `skem sync` stopped.
#[derive(Debug, PartialEq)]
pub enum SyncError {
    /// `--force` and `--hooks-only` were given together.
    ConflictingFlags,
    /// Copying a dependency matched no file.
    NoFilesMatched { dep_name: String, dep_paths: Vec<String> },
}

/// The message for a dependency whose paths matched no file, given the
/// `{:?}` text of its paths.
pub fn no_files_message(dep_name: &str, paths_debug: &str) -> (res: String)
    ensures
        res@ == "No files matched paths "@ + paths_debug@ + " for dependency '"@ + dep_name@
            + "'. Check your paths configuration."@,
{
    let mut s = concat2("No files matched paths ", paths_debug);
    s.append(" for dependency '");
    s.append(dep_name);
    s.append("'. Check your paths configuration.");
    s
}

impl SyncError {
    /// The message shown to the user.
    pub fn message(&self) -> (res: String)
        ensures
            match self {
                SyncError::ConflictingFlags =>
                    res@ == "--force and --hooks-only cannot be used together"@,
                SyncError::NoFilesMatched { dep_name, dep_paths } => {
                    &&& res@ == "No files matched paths "@ + debug_string_list(views(dep_paths@))
                        + " for dependency '"@ + dep_name@ + "'. Check your paths configuration."@
                    &&& plain_strings(views(dep_paths@)) ==> res@ == "No files matched paths "@
                        + quoted_list(views(dep_paths@)) + " for dependency '"@ + dep_name@
                        + "'. Check your paths configuration."@
                },
            },
    {
        match self {
            SyncError::ConflictingFlags => String::from_str("--force and --hooks-only cannot be used together"),
            SyncError::NoFilesMatched { dep_name, dep_paths } => {
                let paths_debug = debug_list(dep_paths);
                no_files_message(dep_name.as_str(), paths_debug.as_str())
            },
        }
    }
}

/// `--force` and `--hooks-only` exclude each other.
pub fn check_sync_flags(force: bool, hooks_only: bool) -> (res: Result<(), SyncError>)
    ensures
        res is Ok <==> !(force && hooks_only),
        res matches Err(e) ==> e == SyncError::ConflictingFlags,
{
    if force && hooks_only {
        Err(SyncError::ConflictingFlags)
    } else {
        Ok(())
    }
}

/// Validate that copying matched at least one file.
pub fn validate_copied_count(count: usize, dep_name: &str, dep_paths: &Vec<String>) -> (res: Result<(), SyncError>)
    ensures
        res is Ok <==> count > 0,
        res matches Err(e) ==> (e matches SyncError::NoFilesMatched { dep_name: n, dep_paths: p }
            && n@ == dep_name@ && views(p@) == views(dep_paths@)),
{
    if count == 0 {
        let mut paths: Vec<String> = Vec::new();
        let mut i: usize = 0;
        while i < dep_paths.len()
            invariant
                i <= dep_paths@.len(),
                views(paths@) == views(dep_paths@).take(i as int),
            decreases dep_paths@.len() - i,
        {
            let ghost before = paths@;
            paths.push(copy_string(&dep_paths[i]));
            assert(views(paths@) =~= views(before).push(dep_paths@[i as int]@));
            assert(views(dep_paths@).take(i + 1) =~= views(dep_paths@).take(i as int).push(dep_paths@[i as int]@));
            i = i + 1;
        }
        assert(views(dep_paths@).take(dep_paths@.len() as int) =~= views(dep_paths@));
        return Err(SyncError::NoFilesMatched { dep_name: String::from_str(dep_name), dep_paths: paths });
    }
    Ok(())
}

/// Whether a dependency whose remote is at `sha` is fetched: always with
/// `force`, otherwise when it changed since the lockfile was written.
pub fn should_sync(dep: &Dependency, sha: &str, lockfile: &Lockfile, force: bool) -> (res: bool)
    ensures
        res == (force || changed(lockfile.locks@, dep.name@, sha@)),
{
    force || has_changed(dep.name.as_str(), sha, lockfile)
}

/// The value of `SKEM_SYNCED_FILES`: the synced file paths separated by spaces.
pub fn synced_files_value(files: &Vec<String>) -> (res: String)
    ensures
        res@ == join(views(files@), " "@),
{
    join_strings(files, " ")
}

/// What a successful sync of `dep` at `sha` records: name, repository,
/// resolved revision, and SHA.
pub fn synced_entry(dep: &Dependency, sha: String) -> (res: SyncedDependency)
    ensures
        res.0@ == dep.name@,
        res.1@ == dep.repo@,
        res.2@ == effective_rev(*dep),
        res.3 == sha,
{
    (copy_string(&dep.name), copy_string(&dep.repo), resolved_rev(dep), sha)
}


/// Which way a `skem sync` run goes once its flags are accepted.
#[derive(Debug, PartialEq, Eq, Structural)]
pub enum SyncRoute {
    /// The configuration has no dependency: nothing is done.
    NothingToSync,
    /// `--hooks-only`: hooks run against the files already in place.
    HooksOnly,
    /// Dependencies are resolved, fetched when changed, and recorded.
    Fetch,
}

/// Decide the route of a `skem sync` run: the flags must not conflict; an
/// empty configuration ends the run; `--hooks-only` takes its own path.
pub fn sync_route(config: &Config, force: bool, hooks_only: bool) -> (res: Result<SyncRoute, SyncError>)
    ensures
        res is Err <==> force && hooks_only,
        res matches Err(e) ==> e == SyncError::ConflictingFlags,
        res matches Ok(r) ==> ((r == SyncRoute::NothingToSync) <==> config.deps@.len() == 0)
            && ((r == SyncRoute::HooksOnly) <==> config.deps@.len() > 0 && hooks_only),
{
    check_sync_flags(force, hooks_only)?;
    if config.deps.len() == 0 {
        Ok(SyncRoute::NothingToSync)
    } else if hooks_only {
        Ok(SyncRoute::HooksOnly)
    } else {
        Ok(SyncRoute::Fetch)
    }
}

/// A batch of hook commands to run, with the value of `SKEM_SYNCED_FILES`
/// to pass them, if any.
#[derive(Debug, PartialEq)]
pub struct HookRun {
    pub hooks: Vec<String>,
    pub synced_files: Option<String>,
}

/// The hooks of one dependency, run with `SKEM_SYNCED_FILES` set to its
/// files separated by spaces; none when the dependency has no hooks.
pub fn dependency_hook_run(dep: &Dependency, files: &Vec<String>) -> (res: Option<HookRun>)
    ensures
        res is None <==> dep.hooks@.len() == 0,
        res matches Some(r) ==> r.hooks@ == dep.hooks@
            && (r.synced_files matches Some(v) && v@ == join(views(files@), " "@)),
{
    if dep.hooks.len() == 0 {
        None
    } else {
        Some(HookRun { hooks: copy_strings(&dep.hooks), synced_files: Some(synced_files_value(files)) })
    }
}

/// The global post hooks, run with no added variable; none when there are
/// no post hooks.
pub fn post_hook_run(config: &Config) -> (res: Option<HookRun>)
    ensures
        res is None <==> config.post_hooks@.len() == 0,
        res matches Some(r) ==> r.hooks@ == config.post_hooks@ && r.synced_files is None,
{
    if config.post_hooks.len() == 0 {
        None
    } else {
        Some(HookRun { hooks: copy_strings(&config.post_hooks), synced_files: None })
    }
}

/// The dependencies synced by a batch of per-dependency outcomes, in order
/// (skipped dependencies give `None`).
pub open spec fn flatten(outcomes: Seq<Option<SyncedDependency>>) -> Seq<SyncedDependency>
    decreases outcomes.len(),
{
    if outcomes.len() == 0 {
        Seq::empty()
    } else {
        match outcomes.last() {
            Some(u) => flatten(outcomes.drop_last()).push(u),
            None => flatten(outcomes.drop_last()),
        }
    }
}

/// Whether position `i` holds the first failure of `results`.
pub open spec fn is_first_failure<E>(results: Seq<Result<Option<SyncedDependency>, E>>, i: int) -> bool {
    &&& 0 <= i < results.len()
    &&& results[i] is Err
    &&& forall|j: int| 0 <= j < i ==> results[j] is Ok
}

/// The outcomes of a batch in which no dependency failed.
pub open spec fn outcomes_of<E>(results: Seq<Result<Option<SyncedDependency>, E>>) -> Seq<Option<SyncedDependency>> {
    results.map_values(|r: Result<Option<SyncedDependency>, E>| r->Ok_0)
}

/// Gather the per-dependency results of a sync: the first failure, in the
/// order of the dependencies, fails the whole sync; otherwise the synced
/// dependencies, in order.
pub fn gather_sync_results<E>(results: Vec<Result<Option<SyncedDependency>, E>>) -> (res: Result<Vec<SyncedDependency>, E>)
    ensures
        res is Err <==> exists|i: int| 0 <= i < results@.len() && results@[i] is Err,
        res matches Err(e) ==> exists|i: int| is_first_failure(results@, i) && results@[i] == Err::<Option<SyncedDependency>, E>(e),
        res matches Ok(v) ==> v@ == flatten(outcomes_of(results@)),
{
    let ghost orig = results@;
    let total = results.len();
    let mut rest = results;
    let mut synced: Vec<SyncedDependency> = Vec::new();
    let mut k: usize = 0;
    while rest.len() > 0
        invariant
            k + rest@.len() == orig.len(),
            total == orig.len(),
            orig == results@,
            rest@ == orig.skip(k as int),
            forall|j: int| 0 <= j < k ==> orig[j] is Ok,
            synced@ == flatten(outcomes_of(orig.take(k as int))),
        decreases rest@.len(),
    {
        let r = rest.remove(0);
        proof {
            assert(r == orig[k as int]);
            assert(rest@ =~= orig.skip(k + 1));
            assert(outcomes_of(orig.take(k + 1)).drop_last() =~= outcomes_of(orig.take(k as int)));
        }
        match r {
            Ok(Some(u)) => {
                synced.push(u);
            },
            Ok(None) => {},
            Err(e) => {
                proof {
                    assert(orig[k as int] == Err::<Option<SyncedDependency>, E>(e));
                    assert(is_first_failure(orig, k as int));
                    assert(exists|i: int| 0 <= i < orig.len() && orig[i] is Err);
                    assert(exists|i: int| is_first_failure(orig, i) && orig[i] == Err::<Option<SyncedDependency>, E>(e));
                }
                return Err(e);
            },
        }
        k = k + 1;
    }
    assert(orig.take(k as int) =~= orig);
    Ok(synced)
}

/// What a `skem sync` run does once every dependency was processed without
/// failure: the lockfile to write (none when nothing was synced), and the
/// global post hooks, which run after all dependencies are processed.
#[derive(Debug, PartialEq)]
pub struct AfterSync {
    pub lockfile: Option<Lockfile>,
    pub post_hooks: Vec<String>,
}

/// Decide what follows the processing of all dependencies.
pub fn after_sync(config: &Config, current: &Lockfile, synced: &Vec<SyncedDependency>) -> (res: AfterSync)
    ensures
        res.lockfile is Some <==> synced@.len() > 0,
        res.lockfile matches Some(l) ==> l.locks@ == apply_updates(current.locks@, synced@),
        res.post_hooks@ == config.post_hooks@,
        views(res.post_hooks@) == views(config.post_hooks@),
{
    let lockfile = if synced.len() > 0 {
        Some(update_lockfile_entries(current, synced))
    } else {
        None
    };
    AfterSync { lockfile, post_hooks: copy_strings(&config.post_hooks) }
}

/// The SHA of the last update in `us` for `name`, if any.
pub open spec fn last_update_sha(us: Seq<SyncedDependency>, name: Seq<char>) -> Option<Seq<char>>
    decreases us.len(),
{
    if us.len() == 0 {
        None
    } else if us.last().0@ == name {
        Some(us.last().3@)
    } else {
        last_update_sha(us.drop_last(), name)
    }
}

/// After a series of updates, what is recorded for a name is the SHA of its
/// last update, or what was recorded before when it had none.
pub proof fn lemma_apply_updates_sha(locks: Seq<LockEntry>, us: Seq<SyncedDependency>, name: Seq<char>)
    ensures
        locked_sha(apply_updates(locks, us), name) == match last_update_sha(us, name) {
            Some(s) => Some(s),
            None => locked_sha(locks, name),
        },
    decreases us.len(),
{
    if us.len() > 0 {
        lemma_apply_updates_sha(locks, us.drop_last(), name);
        lemma_apply_update_sha(apply_updates(locks, us.drop_last()), us.last(), name);
    }
}

/// Over outcomes that each carry the name of their own dependency, with
/// distinct names, the last update for the name of dependency `i` is its own.
proof fn lemma_last_update_of_outcomes(
    deps: Seq<Dependency>,
    outcomes: Seq<Option<SyncedDependency>>,
    i: int,
)
    requires
        outcomes.len() <= deps.len(),
        0 <= i < deps.len(),
        forall|a: int, b: int| 0 <= a < b < deps.len() ==> deps[a].name@ != deps[b].name@,
        forall|j: int| 0 <= j < outcomes.len() ==> (#[trigger] outcomes[j] matches Some(u) ==> u.0@ == deps[j].name@),
    ensures
        last_update_sha(flatten(outcomes), deps[i].name@) == if i < outcomes.len() && outcomes[i] is Some {
            Some((outcomes[i]->0).3@)
        } else {
            None::<Seq<char>>
        },
    decreases outcomes.len(),
{
    if outcomes.len() > 0 {
        let k = outcomes.len() - 1;
        let prev = outcomes.drop_last();
        assert forall|j: int| 0 <= j < prev.len() implies (#[trigger] prev[j] matches Some(u) ==> u.0@ == deps[j].name@) by {
            assert(prev[j] == outcomes[j]);
        }
        lemma_last_update_of_outcomes(deps, prev, i);
        if i < k {
            assert(prev[i] == outcomes[i]);
        }
        match outcomes.last() {
            Some(u) => {
                assert(flatten(outcomes) == flatten(prev).push(u));
                assert(flatten(prev).push(u).drop_last() =~= flatten(prev));
                assert(outcomes[k] matches Some(w) && w.0@ == deps[k].name@);
                if k != i {
                    assert(deps[k].name@ != deps[i].name@) by {
                        if k < i { } else { }
                    }
                }
            },
            None => {
                assert(flatten(outcomes) == flatten(prev));
            },
        }
    }
}

/// Law: right after a sync is recorded, every dependency of a valid
/// configuration checks as up to date at the SHA its revision resolved to:
/// a skipped dependency was unchanged and keeps its entry, and a synced one
/// is recorded at the SHA it was synced at.
pub proof fn law_up_to_date_after_sync(
    config: Config,
    current: Lockfile,
    shas: Seq<Seq<char>>,
    outcomes: Seq<Option<SyncedDependency>>,
)
    requires
        config_valid(config.deps@),
        shas.len() == config.deps@.len(),
        outcomes.len() == config.deps@.len(),
        forall|i: int| 0 <= i < outcomes.len() ==> (#[trigger] outcomes[i] is None
            ==> !changed(current.locks@, config.deps@[i].name@, shas[i])),
        forall|i: int| 0 <= i < outcomes.len() ==> (#[trigger] outcomes[i] matches Some(u)
            ==> u.0@ == config.deps@[i].name@ && u.3@ == shas[i]),
    ensures
        forall|i: int| 0 <= i < config.deps@.len() ==> {
            &&& locked_sha(apply_updates(current.locks@, flatten(outcomes)), config.deps@[i].name@) == Some(shas[i])
            &&& !changed(apply_updates(current.locks@, flatten(outcomes)), config.deps@[i].name@, shas[i])
        },
{
    let deps = config.deps@;
    assert forall|i: int| 0 <= i < deps.len() implies
        locked_sha(apply_updates(current.locks@, flatten(outcomes)), deps[i].name@) == Some(shas[i]) by {
        lemma_last_update_of_outcomes(deps, outcomes, i);
        lemma_apply_updates_sha(current.locks@, flatten(outcomes), deps[i].name@);
    }
}

/// The lockfile entries that stand on disk after a sync: the lockfile that
/// was written, or the one that was there when nothing was written.
pub open spec fn locks_after_sync(after: AfterSync, current: Lockfile) -> Seq<LockEntry> {
    match after.lockfile {
        Some(l) => l.locks@,
        None => current.locks@,
    }
}

/// Law: right after a sync, `skem check` finds every dependency of the
/// configuration up to date, as long as no remote revision has moved since:
/// each dependency resolves to the SHA that sync saw, and the lockfile that
/// stands on disk records that SHA for it.
pub proof fn law_check_passes_after_sync(
    config: Config,
    current: Lockfile,
    shas: Seq<Seq<char>>,
    outcomes: Seq<Option<SyncedDependency>>,
    after: AfterSync,
)
    requires
        config_valid(config.deps@),
        shas.len() == config.deps@.len(),
        outcomes.len() == config.deps@.len(),
        forall|i: int| 0 <= i < outcomes.len() ==> (#[trigger] outcomes[i] is None
            ==> !changed(current.locks@, config.deps@[i].name@, shas[i])),
        forall|i: int| 0 <= i < outcomes.len() ==> (#[trigger] outcomes[i] matches Some(u)
            ==> u.0@ == config.deps@[i].name@ && u.3@ == shas[i]),
        after.lockfile is Some <==> flatten(outcomes).len() > 0,
        after.lockfile matches Some(l) ==> l.locks@ == apply_updates(current.locks@, flatten(outcomes)),
    ensures
        forall|i: int| 0 <= i < config.deps@.len() ==>
            checks_up_to_date(locks_after_sync(after, current), #[trigger] config.deps@[i].name@, shas[i]),
{
    law_up_to_date_after_sync(config, current, shas, outcomes);
    assert(locks_after_sync(after, current) == apply_updates(current.locks@, flatten(outcomes)));
}

} // verus!
