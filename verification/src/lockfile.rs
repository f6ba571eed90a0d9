//! Change detection against `.skem.lock`, and the edits that `sync` and `rm`
//! make to it.

use vstd::prelude::*;
use vstd::string::*;
use crate::config::{LockEntry, Lockfile};
use crate::text::{copy_string, str_eq};

verus! {

/// Whether `i` is the position of the first entry of `locks` named `name`.
pub open spec fn is_first_named(locks: Seq<LockEntry>, name: Seq<char>, i: int) -> bool {
    &&& 0 <= i < locks.len()
    &&& locks[i].name@ == name
    &&& forall|j: int| 0 <= j < i ==> locks[j].name@ != name
}

/// The position of the first entry named `name`, if there is one.
pub open spec fn named_index(locks: Seq<LockEntry>, name: Seq<char>) -> Option<int> {
    if exists|i: int| is_first_named(locks, name, i) {
        Some(choose|i: int| is_first_named(locks, name, i))
    } else {
        None
    }
}

/// The SHA that `locks` records for `name`: that of its first entry with the name.
pub open spec fn locked_sha(locks: Seq<LockEntry>, name: Seq<char>) -> Option<Seq<char>> {
    match named_index(locks, name) {
        Some(i) => Some(locks[i].sha@),
        None => None,
    }
}

/// Whether a dependency named `name` whose remote is at `sha` differs from
/// what `locks` records: it has no entry, or its first entry holds another SHA.
pub open spec fn changed(locks: Seq<LockEntry>, name: Seq<char>, sha: Seq<char>) -> bool {
    match locked_sha(locks, name) {
        Some(s) => s != sha,
        None => true,
    }
}

/// There is at most one first entry with a given name.
pub proof fn lemma_first_named_unique(locks: Seq<LockEntry>, name: Seq<char>, i: int, k: int)
    requires
        is_first_named(locks, name, i),
        is_first_named(locks, name, k),
    ensures
        i == k,
{
    if i < k {
        assert(locks[i].name@ != name);
    } else if k < i {
        assert(locks[k].name@ != name);
    }
}

/// `named_index` gives exactly the first entry with the name.
pub proof fn lemma_named_index(locks: Seq<LockEntry>, name: Seq<char>, i: int)
    requires
        is_first_named(locks, name, i),
    ensures
        named_index(locks, name) == Some(i),
{
    let k = choose|k: int| is_first_named(locks, name, k);
    lemma_first_named_unique(locks, name, i, k);
}

/// When no entry has the name, there is no index for it.
pub proof fn lemma_no_named_index(locks: Seq<LockEntry>, name: Seq<char>)
    requires
        forall|j: int| 0 <= j < locks.len() ==> locks[j].name@ != name,
    ensures
        named_index(locks, name) is None,
{
}

/// The position of the first entry of `lockfile` named `name`.
pub fn find_lock_entry(lockfile: &Lockfile, name: &str) -> (res: Option<usize>)
    ensures
        match res {
            Some(i) => named_index(lockfile.locks@, name@) == Some(i as int),
            None => named_index(lockfile.locks@, name@) is None,
        },
{
    let mut i: usize = 0;
    while i < lockfile.locks.len()
        invariant
            i <= lockfile.locks@.len(),
            forall|j: int| 0 <= j < i ==> lockfile.locks@[j].name@ != name@,
        decreases lockfile.locks@.len() - i,
    {
        if str_eq(lockfile.locks[i].name.as_str(), name) {
            proof {
                lemma_named_index(lockfile.locks@, name@, i as int);
            }
            return Some(i);
        }
        i = i + 1;
    }
    proof {
        lemma_no_named_index(lockfile.locks@, name@);
    }
    None
}

/// Check if a dependency has changed by comparing SHA: true if the lockfile
/// has no entry for `name` (a new dependency) or its entry records another SHA.
pub fn has_changed(name: &str, current_sha: &str, lockfile: &Lockfile) -> (res: bool)
    ensures
        res == changed(lockfile.locks@, name@, current_sha@),
{
    match find_lock_entry(lockfile, name) {
        Some(i) => !str_eq(lockfile.locks[i].sha.as_str(), current_sha),
        None => true,
    }
}

/// A copy of a lock entry.
pub fn copy_lock_entry(entry: &LockEntry) -> (res: LockEntry)
    ensures
        res == *entry,
{
    LockEntry {
        name: copy_string(&entry.name),
        repo: copy_string(&entry.repo),
        rev: copy_string(&entry.rev),
        sha: copy_string(&entry.sha),
    }
}

/// `locks` without the entries named `name`, the others in their order.
pub open spec fn without_named(locks: Seq<LockEntry>, name: Seq<char>) -> Seq<LockEntry>
    decreases locks.len(),
{
    if locks.len() == 0 {
        locks
    } else if locks.last().name@ == name {
        without_named(locks.drop_last(), name)
    } else {
        without_named(locks.drop_last(), name).push(locks.last())
    }
}

/// Remove every entry named `name` from a lockfile; the other entries stay in order.
pub fn remove_lockfile_entry(lockfile: &Lockfile, name: &str) -> (res: Lockfile)
    ensures
        res.locks@ == without_named(lockfile.locks@, name@),
{
    let mut locks: Vec<LockEntry> = Vec::new();
    let mut i: usize = 0;
    while i < lockfile.locks.len()
        invariant
            i <= lockfile.locks@.len(),
            locks@ == without_named(lockfile.locks@.take(i as int), name@),
        decreases lockfile.locks@.len() - i,
    {
        assert(lockfile.locks@.take(i + 1).drop_last() =~= lockfile.locks@.take(i as int));
        if !str_eq(lockfile.locks[i].name.as_str(), name) {
            locks.push(copy_lock_entry(&lockfile.locks[i]));
        }
        i = i + 1;
    }
    assert(lockfile.locks@.take(lockfile.locks@.len() as int) =~= lockfile.locks@);
    Lockfile { locks }
}


/// Appending an entry leaves the first entry of every name already present in
/// place, and makes the new entry the first of its name if its name was absent.
pub proof fn lemma_named_index_push(locks: Seq<LockEntry>, e: LockEntry, name: Seq<char>)
    ensures
        named_index(locks, name) is Some ==> named_index(locks.push(e), name) == named_index(locks, name),
        named_index(locks, name) is None && e.name@ == name ==> named_index(locks.push(e), name) == Some(locks.len() as int),
        named_index(locks, name) is None && e.name@ != name ==> named_index(locks.push(e), name) is None,
{
    let s = locks.push(e);
    if named_index(locks, name) is Some {
        let i = named_index(locks, name)->0;
        assert(is_first_named(locks, name, i));
        assert(is_first_named(s, name, i));
        lemma_named_index(s, name, i);
    } else {
        assert forall|j: int| 0 <= j < locks.len() implies locks[j].name@ != name by {
            if locks[j].name@ == name {
                lemma_first_exists(locks, name, j);
            }
        }
        if e.name@ == name {
            assert(is_first_named(s, name, locks.len() as int));
            lemma_named_index(s, name, locks.len() as int);
        } else {
            assert forall|j: int| 0 <= j < s.len() implies s[j].name@ != name by {
                if j < locks.len() {
                    assert(s[j] == locks[j]);
                }
            }
            lemma_no_named_index(s, name);
        }
    }
}

/// If some entry has the name, a first one exists.
pub proof fn lemma_first_exists(locks: Seq<LockEntry>, name: Seq<char>, j: int)
    requires
        0 <= j < locks.len(),
        locks[j].name@ == name,
    ensures
        named_index(locks, name) is Some,
    decreases j,
{
    if forall|k: int| 0 <= k < j ==> locks[k].name@ != name {
        assert(is_first_named(locks, name, j));
    } else {
        let k = choose|k: int| 0 <= k < j && locks[k].name@ == name;
        assert(0 <= k < j && locks[k].name@ == name);
        lemma_first_exists(locks, name, k);
    }
}

/// Sequences whose entries have the same names at the same positions have the
/// same first positions for every name.
pub proof fn lemma_same_names(a: Seq<LockEntry>, b: Seq<LockEntry>, name: Seq<char>)
    requires
        a.len() == b.len(),
        forall|j: int| 0 <= j < a.len() ==> a[j].name@ == b[j].name@,
    ensures
        named_index(a, name) == named_index(b, name),
{
    if named_index(a, name) is Some {
        let i = named_index(a, name)->0;
        assert(is_first_named(a, name, i));
        assert(is_first_named(b, name, i));
        lemma_named_index(b, name, i);
    } else if named_index(b, name) is Some {
        let i = named_index(b, name)->0;
        assert(is_first_named(b, name, i));
        assert(is_first_named(a, name, i));
    }
}

/// Removing the entries named `name` leaves no entry for it.
pub proof fn lemma_without_named_absent(locks: Seq<LockEntry>, name: Seq<char>)
    ensures
        forall|j: int| 0 <= j < without_named(locks, name).len()
            ==> without_named(locks, name)[j].name@ != name,
    decreases locks.len(),
{
    if locks.len() > 0 {
        let w = without_named(locks.drop_last(), name);
        lemma_without_named_absent(locks.drop_last(), name);
        if locks.last().name@ != name {
            assert forall|j: int| 0 <= j < w.push(locks.last()).len()
                implies w.push(locks.last())[j].name@ != name by {
                if j < w.len() {
                    assert(w.push(locks.last())[j] == w[j]);
                }
            }
        }
    }
}

/// Removing the entries named `name` keeps what is recorded for every other name.
pub proof fn lemma_without_named_keeps(locks: Seq<LockEntry>, name: Seq<char>, other: Seq<char>)
    requires
        other != name,
    ensures
        locked_sha(without_named(locks, name), other) == locked_sha(locks, other),
    decreases locks.len(),
{
    if locks.len() > 0 {
        let prev = locks.drop_last();
        let last = locks.last();
        lemma_without_named_keeps(prev, name, other);
        assert(prev.push(last) =~= locks);
        lemma_named_index_push(prev, last, other);
        let w = without_named(prev, name);
        if last.name@ != name {
            lemma_named_index_push(w, last, other);
        }
    } else {
        assert(without_named(locks, name) =~= locks);
    }
}

/// Law: after its entry is removed, a dependency counts as changed whatever
/// its remote SHA, so the next sync fetches it again.
pub proof fn law_removed_entry_is_changed(lockfile: Lockfile, name: Seq<char>, sha: Seq<char>)
    ensures
        changed(without_named(lockfile.locks@, name), name, sha),
{
    lemma_without_named_absent(lockfile.locks@, name);
    lemma_no_named_index(without_named(lockfile.locks@, name), name);
}

/// Law: removing the entry of one dependency leaves the change status of
/// every other dependency as it was.
pub proof fn law_remove_keeps_others(lockfile: Lockfile, name: Seq<char>, other: Seq<char>, sha: Seq<char>)
    requires
        other != name,
    ensures
        changed(without_named(lockfile.locks@, name), other, sha) == changed(lockfile.locks@, other, sha),
{
    lemma_without_named_keeps(lockfile.locks@, name, other);
}


/// The result of syncing one dependency: its name, repository, revision and
/// the commit SHA that was synced.
pub type SyncedDependency = (String, String, String, String);

/// The lock entry that records a synced dependency.
pub open spec fn entry_of(u: SyncedDependency) -> LockEntry {
    LockEntry { name: u.0, repo: u.1, rev: u.2, sha: u.3 }
}

/// `locks` with one synced dependency recorded: its first entry is replaced,
/// or, when it has none, the entry is appended.
pub open spec fn apply_update(locks: Seq<LockEntry>, u: SyncedDependency) -> Seq<LockEntry> {
    match named_index(locks, u.0@) {
        Some(i) => locks.update(i, entry_of(u)),
        None => locks.push(entry_of(u)),
    }
}

/// `locks` with every synced dependency of `us` recorded, in order.
pub open spec fn apply_updates(locks: Seq<LockEntry>, us: Seq<SyncedDependency>) -> Seq<LockEntry>
    decreases us.len(),
{
    if us.len() == 0 {
        locks
    } else {
        apply_update(apply_updates(locks, us.drop_last()), us.last())
    }
}

/// Record the synced dependencies in a lockfile: each replaces the first
/// entry of its name, or is appended when the lockfile has none.
pub fn update_lockfile_entries(lockfile: &Lockfile, updates: &Vec<SyncedDependency>) -> (res: Lockfile)
    ensures
        res.locks@ == apply_updates(lockfile.locks@, updates@),
{
    let mut locks: Vec<LockEntry> = Vec::new();
    let mut i: usize = 0;
    while i < lockfile.locks.len()
        invariant
            i <= lockfile.locks@.len(),
            locks@ == lockfile.locks@.take(i as int),
        decreases lockfile.locks@.len() - i,
    {
        locks.push(copy_lock_entry(&lockfile.locks[i]));
        assert(lockfile.locks@.take(i + 1) =~= lockfile.locks@.take(i as int).push(lockfile.locks@[i as int]));
        i = i + 1;
    }
    assert(lockfile.locks@.take(lockfile.locks@.len() as int) =~= lockfile.locks@);
    let mut result = Lockfile { locks };
    let mut k: usize = 0;
    while k < updates.len()
        invariant
            k <= updates@.len(),
            result.locks@ == apply_updates(lockfile.locks@, updates@.take(k as int)),
        decreases updates@.len() - k,
    {
        let u = &updates[k];
        let entry = LockEntry {
            name: copy_string(&u.0),
            repo: copy_string(&u.1),
            rev: copy_string(&u.2),
            sha: copy_string(&u.3),
        };
        assert(entry == entry_of(updates@[k as int]));
        assert(updates@.take(k + 1).drop_last() =~= updates@.take(k as int));
        match find_lock_entry(&result, u.0.as_str()) {
            Some(j) => {
                result.locks.set(j, entry);
            },
            None => {
                result.locks.push(entry);
            },
        }
        k = k + 1;
    }
    assert(updates@.take(updates@.len() as int) =~= updates@);
    result
}

/// Recording a dependency sets the SHA recorded for its name, and keeps what
/// is recorded for every other name.
pub proof fn lemma_apply_update_sha(locks: Seq<LockEntry>, u: SyncedDependency, name: Seq<char>)
    ensures
        name == u.0@ ==> locked_sha(apply_update(locks, u), name) == Some(u.3@),
        name != u.0@ ==> locked_sha(apply_update(locks, u), name) == locked_sha(locks, name),
{
    let r = apply_update(locks, u);
    match named_index(locks, u.0@) {
        Some(i) => {
            assert(is_first_named(locks, u.0@, i));
            assert forall|j: int| 0 <= j < locks.len() implies locks[j].name@ == r[j].name@ by {}
            lemma_same_names(locks, r, name);
            if name != u.0@ {
                if named_index(locks, name) is Some {
                    let m = named_index(locks, name)->0;
                    assert(is_first_named(locks, name, m));
                    assert(m != i);
                }
            }
        },
        None => {
            lemma_named_index_push(locks, entry_of(u), name);
            if name != u.0@ {
                if named_index(locks, name) is Some {
                    let m = named_index(locks, name)->0;
                    assert(is_first_named(locks, name, m));
                }
            }
        },
    }
}

/// Recording dependencies that all have other names keeps what is recorded
/// for `name`.
pub proof fn lemma_apply_updates_keeps(locks: Seq<LockEntry>, us: Seq<SyncedDependency>, name: Seq<char>)
    requires
        forall|j: int| 0 <= j < us.len() ==> us[j].0@ != name,
    ensures
        locked_sha(apply_updates(locks, us), name) == locked_sha(locks, name),
    decreases us.len(),
{
    if us.len() > 0 {
        lemma_apply_updates_keeps(locks, us.drop_last(), name);
        lemma_apply_update_sha(apply_updates(locks, us.drop_last()), us.last(), name);
    }
}

/// What is recorded for a name after a series of updates: the SHA of the last
/// update with that name.
pub proof fn lemma_apply_updates_last(locks: Seq<LockEntry>, us: Seq<SyncedDependency>, k: int)
    requires
        0 <= k < us.len(),
        forall|j: int| k < j < us.len() ==> us[j].0@ != us[k].0@,
    ensures
        locked_sha(apply_updates(locks, us), us[k].0@) == Some(us[k].3@),
    decreases us.len(),
{
    if k == us.len() - 1 {
        lemma_apply_update_sha(apply_updates(locks, us.drop_last()), us.last(), us[k].0@);
    } else {
        lemma_apply_updates_last(locks, us.drop_last(), k);
        lemma_apply_update_sha(apply_updates(locks, us.drop_last()), us.last(), us[k].0@);
    }
}

/// Law: once a synced dependency is recorded, it is up to date at the SHA
/// that was synced (unless a later update in the same batch has its name).
pub proof fn law_synced_is_unchanged(lockfile: Lockfile, us: Seq<SyncedDependency>, k: int)
    requires
        0 <= k < us.len(),
        forall|j: int| k < j < us.len() ==> us[j].0@ != us[k].0@,
    ensures
        !changed(apply_updates(lockfile.locks@, us), us[k].0@, us[k].3@),
{
    lemma_apply_updates_last(lockfile.locks@, us, k);
}

/// Law: recording synced dependencies leaves the change status of every
/// dependency that was not synced as it was.
pub proof fn law_update_keeps_others(lockfile: Lockfile, us: Seq<SyncedDependency>, name: Seq<char>, sha: Seq<char>)
    requires
        forall|j: int| 0 <= j < us.len() ==> us[j].0@ != name,
    ensures
        changed(apply_updates(lockfile.locks@, us), name, sha) == changed(lockfile.locks@, name, sha),
{
    lemma_apply_updates_keeps(lockfile.locks@, us, name);
}

} // verus!
