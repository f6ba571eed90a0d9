//! `skem ls`: one line per configured dependency.

use vstd::prelude::*;
use vstd::string::*;
use crate::config::{Config, Dependency, Lockfile};
use crate::lockfile::{find_lock_entry, lemma_named_index, lemma_no_named_index, locked_sha};
use crate::text::{ends_with, join, join_strings, push_char, views};

verus! {

/// The number of bytes of `c` in UTF-8.
pub open spec fn utf8_width(c: char) -> nat {
    if (c as u32) < 0x80 {
        1
    } else if (c as u32) < 0x800 {
        2
    } else if (c as u32) < 0x10000 {
        3
    } else {
        4
    }
}

/// The number of bytes of `s` in UTF-8.
pub open spec fn utf8_len(s: Seq<char>) -> nat
    decreases s.len(),
{
    if s.len() == 0 {
        0
    } else {
        utf8_width(s[0]) + utf8_len(s.drop_first())
    }
}

/// How many leading characters of `s` fit in `limit` bytes of UTF-8.
pub open spec fn fit_count(s: Seq<char>, limit: nat) -> nat
    decreases s.len(),
{
    if s.len() == 0 || utf8_width(s[0]) > limit {
        0
    } else {
        1 + fit_count(s.drop_first(), (limit - utf8_width(s[0])) as nat)
    }
}

/// Whether the first `min(n, len)` bytes of `s` end on a character boundary,
/// so that slicing them does not panic.
pub open spec fn cut_on_boundary(s: Seq<char>, n: nat) -> bool {
    utf8_len(s) <= n || utf8_len(s.take(fit_count(s, n) as int)) == n
}

/// The first `min(n, len)` bytes of `s`, as characters.
pub open spec fn byte_prefix(s: Seq<char>, n: nat) -> Seq<char> {
    s.take(fit_count(s, n) as int)
}

fn char_width(c: char) -> (w: usize)
    ensures
        w == utf8_width(c),
{
    let v = c as u32;
    if v < 0x80 {
        1
    } else if v < 0x800 {
        2
    } else if v < 0x10000 {
        3
    } else {
        4
    }
}

/// The commit SHA shortened to its first seven bytes (`&sha[..7.min(len)]`).
pub fn short_sha(sha: &str) -> (res: String)
    ensures
        res@ == byte_prefix(sha@, 7),
{
    let mut res = String::new();
    let mut budget: usize = 7;
    let ghost mut i: int = 0;
    let mut done = false;
    let ghost s = sha@;
    assert(s.skip(0) =~= s);
    for c in it: sha.chars()
        invariant
            it.seq() == s,
            i == it.index(),
            budget <= 7,
            !done ==> res@ == s.take(i),
            !done ==> fit_count(s, 7) == i + fit_count(s.skip(i), budget as nat),
            done ==> res@ == s.take(fit_count(s, 7) as int),
    {
        if !done {
            assert(s.skip(i)[0] == c);
            assert(s.skip(i).drop_first() =~= s.skip(i + 1));
            let w = char_width(c);
            if w <= budget {
                push_char(&mut res, c);
                assert(s.take(i).push(c) =~= s.take(i + 1));
                budget = budget - w;
            } else {
                done = true;
            }
        }
        proof {
            i = i + 1;
        }
    }
    proof {
        if !done {
            assert(s.skip(i).len() == 0);
            assert(s.take(i) =~= s);
        }
    }
    res
}

/// What `ls` shows for a dependency's revision.
pub open spec fn rev_display(dep: Dependency) -> Seq<char> {
    match dep.rev {
        Some(r) => r@,
        None => "(HEAD)"@,
    }
}

/// What `ls` shows for a dependency's sync status.
pub open spec fn synced_info(dep: Dependency, lockfile: Lockfile) -> Seq<char> {
    match locked_sha(lockfile.locks@, dep.name@) {
        Some(s) => "[synced: "@ + byte_prefix(s, 7) + "]"@,
        None => "[not synced]"@,
    }
}

/// The line `ls` prints for a dependency.
pub open spec fn formatted_dependency(dep: Dependency, lockfile: Lockfile) -> Seq<char> {
    dep.name@ + "  "@ + dep.repo@ + "  "@ + rev_display(dep) + "  paths: "@
        + join(views(dep.paths@), ", "@) + "  out: "@ + dep.out@ + "  "@ + synced_info(dep, lockfile)
}

/// Whether displaying the recorded SHA of `dep` does not panic.
pub open spec fn displayable(dep: Dependency, lockfile: Lockfile) -> bool {
    locked_sha(lockfile.locks@, dep.name@) matches Some(s) ==> cut_on_boundary(s, 7)
}

/// Format a single dependency for display.
pub fn format_dependency(dep: &Dependency, lockfile: &Lockfile) -> (res: String)
    requires
        displayable(*dep, *lockfile),
    ensures
        res@ == formatted_dependency(*dep, *lockfile),
{
    let mut s = dep.name.clone();
    s.append("  ");
    s.append(dep.repo.as_str());
    s.append("  ");
    match &dep.rev {
        Some(r) => s.append(r.as_str()),
        None => s.append("(HEAD)"),
    }
    s.append("  paths: ");
    let paths = join_strings(&dep.paths, ", ");
    s.append(paths.as_str());
    s.append("  out: ");
    s.append(dep.out.as_str());
    s.append("  ");
    match find_lock_entry(lockfile, dep.name.as_str()) {
        Some(i) => {
            s.append("[synced: ");
            let short = short_sha(lockfile.locks[i].sha.as_str());
            s.append(short.as_str());
            s.append("]");
        },
        None => s.append("[not synced]"),
    }
    s
}

/// List all dependencies: one formatted line per dependency, in order.
pub fn list_dependencies(config: &Config, lockfile: &Lockfile) -> (res: Vec<String>)
    requires
        forall|i: int| 0 <= i < config.deps@.len() ==> displayable(#[trigger] config.deps@[i], *lockfile),
    ensures
        res@.len() == config.deps@.len(),
        forall|i: int| 0 <= i < res@.len() ==> res@[i]@ == formatted_dependency(config.deps@[i], *lockfile),
{
    let mut lines: Vec<String> = Vec::new();
    let mut i: usize = 0;
    while i < config.deps.len()
        invariant
            i <= config.deps@.len(),
            lines@.len() == i,
            forall|i: int| 0 <= i < config.deps@.len() ==> displayable(#[trigger] config.deps@[i], *lockfile),
            forall|j: int| 0 <= j < i ==> lines@[j]@ == formatted_dependency(config.deps@[j], *lockfile),
        decreases config.deps@.len() - i,
    {
        lines.push(format_dependency(&config.deps[i], lockfile));
        i = i + 1;
    }
    lines
}

/// Law: the status that `ls` shows for a synced dependency is the first
/// seven bytes of the SHA of the lockfile's first entry with the dependency's
/// own name, whatever other entries the lockfile holds.
pub proof fn law_ls_shows_own_sha(dep: Dependency, lockfile: Lockfile, i: int)
    requires
        0 <= i < lockfile.locks@.len(),
        lockfile.locks@[i].name@ == dep.name@,
        forall|j: int| 0 <= j < i ==> lockfile.locks@[j].name@ != dep.name@,
    ensures
        ends_with(
            formatted_dependency(dep, lockfile),
            "[synced: "@ + byte_prefix(lockfile.locks@[i].sha@, 7) + "]"@,
        ),
{
    lemma_named_index(lockfile.locks@, dep.name@, i);
    let t = "[synced: "@ + byte_prefix(lockfile.locks@[i].sha@, 7) + "]"@;
    assert(synced_info(dep, lockfile) == t);
    let whole = formatted_dependency(dep, lockfile);
    assert(whole.subrange(whole.len() - t.len(), whole.len() as int) =~= t);
}

/// Law: a dependency that no lockfile entry names is shown as not synced.
pub proof fn law_ls_shows_not_synced(dep: Dependency, lockfile: Lockfile)
    requires
        forall|j: int| 0 <= j < lockfile.locks@.len() ==> lockfile.locks@[j].name@ != dep.name@,
    ensures
        ends_with(formatted_dependency(dep, lockfile), "[not synced]"@),
{
    lemma_no_named_index(lockfile.locks@, dep.name@);
    let t = "[not synced]"@;
    let whole = formatted_dependency(dep, lockfile);
    assert(whole.subrange(whole.len() - t.len(), whole.len() as int) =~= t);
}

/// Of a string of one-byte characters, as many characters fit in `n`
/// bytes as there are bytes, up to the whole string.
proof fn lemma_fit_count_one_byte(s: Seq<char>, n: nat)
    requires
        forall|i: int| 0 <= i < s.len() ==> (s[i] as u32) < 0x80,
    ensures
        fit_count(s, n) == if s.len() <= n { s.len() } else { n },
    decreases s.len(),
{
    if s.len() > 0 && n > 0 {
        assert forall|i: int| 0 <= i < s.drop_first().len() implies (s.drop_first()[i] as u32) < 0x80 by {
            assert(s.drop_first()[i] == s[i + 1]);
        }
        lemma_fit_count_one_byte(s.drop_first(), (n - 1) as nat);
    } else if s.len() > 0 {
        assert((s[0] as u32) < 0x80);
    }
}

/// Law: a SHA written in one-byte characters (as commit SHAs are) is shown
/// by its first seven characters, or whole when it is shorter.
pub proof fn law_short_sha_takes_seven(sha: Seq<char>)
    requires
        forall|i: int| 0 <= i < sha.len() ==> (sha[i] as u32) < 0x80,
    ensures
        byte_prefix(sha, 7) == if sha.len() <= 7 { sha } else { sha.take(7) },
        cut_on_boundary(sha, 7),
{
    lemma_fit_count_one_byte(sha, 7);
    assert(sha.take(sha.len() as int) =~= sha);
    if sha.len() > 7 {
        assert forall|i: int| 0 <= i < sha.take(7).len() implies (sha.take(7)[i] as u32) < 0x80 by {
            assert(sha.take(7)[i] == sha[i]);
        }
        lemma_utf8_len_one_byte(sha.take(7));
    } else {
        lemma_utf8_len_one_byte(sha);
    }
}

/// A string of one-byte characters takes one byte per character.
proof fn lemma_utf8_len_one_byte(s: Seq<char>)
    requires
        forall|i: int| 0 <= i < s.len() ==> (s[i] as u32) < 0x80,
    ensures
        utf8_len(s) == s.len(),
    decreases s.len(),
{
    if s.len() > 0 {
        assert((s[0] as u32) < 0x80);
        assert forall|i: int| 0 <= i < s.drop_first().len() implies (s.drop_first()[i] as u32) < 0x80 by {
            assert(s.drop_first()[i] == s[i + 1]);
        }
        lemma_utf8_len_one_byte(s.drop_first());
    }
}

} // verus!
