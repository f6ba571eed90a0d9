//! The entries that interactive `skem add` offers: every file of the
//! repository and every directory above one, in sorted order.

use vstd::prelude::*;
use vstd::string::*;
use crate::add::{repo_name, AddError};
use crate::text::{concat2, from_chars, to_chars, views};

verus! {

/// Lexicographic order on character sequences by code point (the order of
/// `String`, since UTF-8 preserves code point order).
pub open spec fn lex_lt(a: Seq<char>, b: Seq<char>) -> bool
    decreases a.len(),
{
    if a.len() == 0 {
        b.len() > 0
    } else if b.len() == 0 {
        false
    } else if a[0] != b[0] {
        (a[0] as u32) < (b[0] as u32)
    } else {
        lex_lt(a.drop_first(), b.drop_first())
    }
}

/// Each element is smaller than every later one (sorted, without repeats).
pub open spec fn strictly_sorted(s: Seq<Seq<char>>) -> bool {
    forall|i: int, j: int| 0 <= i < j < s.len() ==> lex_lt(#[trigger] s[i], #[trigger] s[j])
}

/// Whether `d` is a directory above the path `p`: a prefix of `p` that ends
/// just after one of its `/` characters.
pub open spec fn is_dir_of(p: Seq<char>, d: Seq<char>) -> bool {
    exists|k: int| 0 <= k < p.len() && p[k] == '/' && d == #[trigger] p.take(k + 1)
}

/// Whether `e` is an entry for `paths`: one of the paths, or a directory
/// above one of them.
pub open spec fn is_entry(paths: Seq<Seq<char>>, e: Seq<char>) -> bool {
    exists|i: int| 0 <= i < paths.len() && (#[trigger] paths[i] == e || is_dir_of(paths[i], e))
}

/// Distinct characters have distinct code points.
pub proof fn lemma_char_code_injective(a: char, b: char)
    requires
        a != b,
    ensures
        a as u32 != b as u32,
{
}

pub proof fn lemma_lex_irreflexive(a: Seq<char>)
    ensures
        !lex_lt(a, a),
    decreases a.len(),
{
    if a.len() > 0 {
        lemma_lex_irreflexive(a.drop_first());
    }
}

pub proof fn lemma_lex_transitive(a: Seq<char>, b: Seq<char>, c: Seq<char>)
    requires
        lex_lt(a, b),
        lex_lt(b, c),
    ensures
        lex_lt(a, c),
    decreases a.len(),
{
    if a.len() > 0 && b.len() > 0 && c.len() > 0 && a[0] == b[0] && b[0] == c[0] {
        lemma_lex_transitive(a.drop_first(), b.drop_first(), c.drop_first());
    }
}

pub proof fn lemma_lex_total(a: Seq<char>, b: Seq<char>)
    requires
        a != b,
    ensures
        lex_lt(a, b) || lex_lt(b, a),
    decreases a.len(),
{
    if a.len() == 0 {
        assert(b.len() != 0) by {
            if b.len() == 0 { assert(a =~= b); }
        }
    } else if b.len() > 0 && a[0] == b[0] {
        if a.drop_first() == b.drop_first() {
            assert(a =~= seq![a[0]] + a.drop_first());
            assert(b =~= seq![b[0]] + b.drop_first());
        }
        lemma_lex_total(a.drop_first(), b.drop_first());
    } else if b.len() > 0 {
        lemma_char_code_injective(a[0], b[0]);
    }
}

pub proof fn lemma_lex_asymmetric(a: Seq<char>, b: Seq<char>)
    requires
        lex_lt(a, b),
    ensures
        !lex_lt(b, a),
{
    if lex_lt(b, a) {
        lemma_lex_transitive(a, b, a);
        lemma_lex_irreflexive(a);
    }
}

/// Whether `a` comes before `b` in lexicographic order.
pub fn lex_less(a: &Vec<char>, b: &Vec<char>) -> (res: bool)
    ensures
        res == lex_lt(a@, b@),
{
    let mut i: usize = 0;
    assert(a@.skip(0) =~= a@);
    assert(b@.skip(0) =~= b@);
    while i < a.len() && i < b.len()
        invariant
            i <= a@.len(),
            i <= b@.len(),
            lex_lt(a@, b@) == lex_lt(a@.skip(i as int), b@.skip(i as int)),
        decreases a@.len() - i,
    {
        assert(a@.skip(i as int)[0] == a@[i as int]);
        assert(b@.skip(i as int)[0] == b@[i as int]);
        let ca = a[i];
        let cb = b[i];
        if ca != cb {
            return (ca as u32) < (cb as u32);
        }
        assert(a@.skip(i as int).drop_first() =~= a@.skip(i + 1));
        assert(b@.skip(i as int).drop_first() =~= b@.skip(i + 1));
        i = i + 1;
    }
    i < b.len()
}

/// The views of a vector of character vectors.
pub open spec fn char_views(v: Seq<Vec<char>>) -> Seq<Seq<char>> {
    v.map_values(|c: Vec<char>| c@)
}

/// Inserts `x` into the sorted `entries` unless it is already there.
fn insert_sorted(entries: &mut Vec<Vec<char>>, x: Vec<char>)
    requires
        strictly_sorted(char_views(old(entries)@)),
    ensures
        strictly_sorted(char_views(final(entries)@)),
        forall|e: Seq<char>| char_views(final(entries)@).contains(e)
            <==> (char_views(old(entries)@).contains(e) || e == x@),
{
    let ghost old_v = char_views(entries@);
    let mut pos: usize = 0;
    while pos < entries.len() && lex_less(&entries[pos], &x)
        invariant
            pos <= entries@.len(),
            entries@ == old(entries)@,
            old_v == char_views(entries@),
            forall|j: int| 0 <= j < pos ==> lex_lt(#[trigger] old_v[j], x@),
        decreases entries@.len() - pos,
    {
        pos = pos + 1;
    }
    if pos < entries.len() && crate::text::chars_equal(&entries[pos], &x) {
        assert(old_v[pos as int] == x@);
        return;
    }
    proof {
        if pos < old_v.len() {
            assert(old_v[pos as int] != x@);
            assert(!lex_lt(old_v[pos as int], x@));
            lemma_lex_total(old_v[pos as int], x@);
        }
        assert forall|e: Seq<char>| old_v.contains(e) implies e != x@ by {
            let j = choose|j: int| 0 <= j < old_v.len() && old_v[j] == e;
            if j < pos {
                lemma_lex_irreflexive(x@);
            } else {
                if j > pos {
                    lemma_lex_transitive(x@, old_v[pos as int], old_v[j]);
                }
                lemma_lex_irreflexive(x@);
            }
        }
    }
    entries.insert(pos, x);
    proof {
        let nv = char_views(entries@);
        assert(nv =~= old_v.insert(pos as int, x@));
        assert forall|i: int, j: int| 0 <= i < j < nv.len() implies lex_lt(#[trigger] nv[i], #[trigger] nv[j]) by {
            if j < pos {
                assert(nv[i] == old_v[i] && nv[j] == old_v[j]);
            } else if j == pos {
                assert(nv[i] == old_v[i]);
            } else if i > pos {
                assert(nv[i] == old_v[i - 1] && nv[j] == old_v[j - 1]);
            } else if i == pos {
                assert(nv[j] == old_v[j - 1]);
                if j - 1 > pos {
                    lemma_lex_transitive(x@, old_v[pos as int], old_v[j - 1]);
                }
            } else {
                assert(nv[i] == old_v[i] && nv[j] == old_v[j - 1]);
                if j - 1 > pos {
                    lemma_lex_transitive(x@, old_v[pos as int], old_v[j - 1]);
                }
                lemma_lex_transitive(old_v[i], x@, old_v[j - 1]);
            }
        }
        assert forall|e: Seq<char>| nv.contains(e) <==> (old_v.contains(e) || e == x@) by {
            if nv.contains(e) {
                let j = choose|j: int| 0 <= j < nv.len() && nv[j] == e;
                if j < pos {
                    assert(old_v[j] == e);
                } else if j > pos {
                    assert(old_v[j - 1] == e);
                }
            }
            if old_v.contains(e) {
                let j = choose|j: int| 0 <= j < old_v.len() && old_v[j] == e;
                if j < pos {
                    assert(nv[j] == e);
                } else {
                    assert(nv[j + 1] == e);
                }
            }
            if e == x@ {
                assert(nv[pos as int] == e);
            }
        }
    }
}


/// The first `n` characters of `v`, as a new vector.
fn chars_prefix(v: &Vec<char>, n: usize) -> (res: Vec<char>)
    requires
        n <= v@.len(),
    ensures
        res@ == v@.take(n as int),
{
    let mut res: Vec<char> = Vec::new();
    let mut i: usize = 0;
    while i < n
        invariant
            i <= n <= v@.len(),
            res@ == v@.take(i as int),
        decreases n - i,
    {
        res.push(v[i]);
        assert(v@.take(i as int).push(v@[i as int]) =~= v@.take(i + 1));
        i = i + 1;
    }
    res
}

proof fn lemma_is_entry_step(ps: Seq<Seq<char>>, i: int, e: Seq<char>)
    requires
        0 <= i < ps.len(),
    ensures
        is_entry(ps.take(i + 1), e) <==> (is_entry(ps.take(i), e) || ps[i] == e || is_dir_of(ps[i], e)),
{
    let a = ps.take(i);
    let b = ps.take(i + 1);
    if is_entry(b, e) {
        let j = choose|j: int| 0 <= j < b.len() && (#[trigger] b[j] == e || is_dir_of(b[j], e));
        if j < i {
            assert(a[j] == b[j]);
        }
    }
    if is_entry(a, e) {
        let j = choose|j: int| 0 <= j < a.len() && (#[trigger] a[j] == e || is_dir_of(a[j], e));
        assert(b[j] == a[j]);
    }
    if ps[i] == e || is_dir_of(ps[i], e) {
        assert(b[i] == ps[i]);
    }
}

/// Collect directory and file entries from a list of file paths: every path,
/// and every directory above one (with its trailing `/`), sorted and without
/// repeats.
pub fn collect_entries(file_paths: &Vec<String>) -> (res: Vec<String>)
    ensures
        strictly_sorted(views(res@)),
        forall|e: Seq<char>| views(res@).contains(e) <==> is_entry(views(file_paths@), e),
{
    let ghost ps = views(file_paths@);
    let mut entries: Vec<Vec<char>> = Vec::new();
    let mut i: usize = 0;
    while i < file_paths.len()
        invariant
            i <= file_paths@.len(),
            ps == views(file_paths@),
            strictly_sorted(char_views(entries@)),
            forall|e: Seq<char>| char_views(entries@).contains(e) <==> is_entry(ps.take(i as int), e),
        decreases file_paths@.len() - i,
    {
        let p = to_chars(file_paths[i].as_str());
        assert(p@ == ps[i as int]);
        let whole = chars_prefix(&p, p.len());
        assert(p@.take(p@.len() as int) =~= p@);
        insert_sorted(&mut entries, whole);
        let mut k: usize = 0;
        while k < p.len()
            invariant
                k <= p@.len(),
                i < file_paths@.len(),
                ps == views(file_paths@),
                p@ == ps[i as int],
                strictly_sorted(char_views(entries@)),
                forall|e: Seq<char>| char_views(entries@).contains(e) <==> (is_entry(ps.take(i as int), e)
                    || e == p@ || exists|m: int| 0 <= m < k && p@[m] == '/' && e == #[trigger] p@.take(m + 1)),
            decreases p@.len() - k,
        {
            if p[k] == '/' {
                let dir = chars_prefix(&p, k + 1);
                insert_sorted(&mut entries, dir);
            }
            assert forall|e: Seq<char>| char_views(entries@).contains(e) <==> (is_entry(ps.take(i as int), e)
                || e == p@ || exists|m: int| 0 <= m < k + 1 && p@[m] == '/' && e == #[trigger] p@.take(m + 1)) by {
                if exists|m: int| 0 <= m < k + 1 && p@[m] == '/' && e == #[trigger] p@.take(m + 1) {
                    let m = choose|m: int| 0 <= m < k + 1 && p@[m] == '/' && e == #[trigger] p@.take(m + 1);
                    if m < k {
                        assert(exists|m: int| 0 <= m < k && p@[m] == '/' && e == #[trigger] p@.take(m + 1));
                    }
                }
            }
            k = k + 1;
        }
        assert forall|e: Seq<char>| char_views(entries@).contains(e) <==> is_entry(ps.take(i + 1), e) by {
            lemma_is_entry_step(ps, i as int, e);
            if is_dir_of(ps[i as int], e) {
                let m = choose|m: int| 0 <= m < ps[i as int].len() && ps[i as int][m] == '/' && e == #[trigger] ps[i as int].take(m + 1);
                assert(exists|m2: int| 0 <= m2 < p@.len() && p@[m2] == '/' && e == #[trigger] p@.take(m2 + 1));
            }
            if exists|m: int| 0 <= m < p@.len() && p@[m] == '/' && e == #[trigger] p@.take(m + 1) {
                assert(is_dir_of(ps[i as int], e));
            }
        }
        i = i + 1;
    }
    assert(ps.take(file_paths@.len() as int) =~= ps);
    let mut res: Vec<String> = Vec::new();
    let mut j: usize = 0;
    while j < entries.len()
        invariant
            j <= entries@.len(),
            views(res@) == char_views(entries@).take(j as int),
        decreases entries@.len() - j,
    {
        let s = from_chars(entries[j].as_slice());
        assert(s@ == char_views(entries@)[j as int]);
        let ghost before = res@;
        res.push(s);
        assert(res@ == before.push(s));
        assert(views(res@) =~= views(before).push(s@));
        assert(char_views(entries@).take(j + 1) =~= char_views(entries@).take(j as int).push(char_views(entries@)[j as int]));
        j = j + 1;
    }
    assert(char_views(entries@).take(entries@.len() as int) =~= char_views(entries@));
    res
}


/// A directory above a directory of `p` is a directory of `p`.
proof fn lemma_dir_of_dir(p: Seq<char>, d: Seq<char>, e: Seq<char>)
    requires
        is_dir_of(p, d),
        is_dir_of(d, e),
    ensures
        is_dir_of(p, e),
{
    let k = choose|k: int| 0 <= k < p.len() && p[k] == '/' && d == #[trigger] p.take(k + 1);
    let m = choose|m: int| 0 <= m < d.len() && d[m] == '/' && e == #[trigger] d.take(m + 1);
    assert(p[m] == '/');
    assert(e =~= p.take(m + 1));
}

/// The entries of a list of entries are the same entries.
pub proof fn lemma_entries_closed(paths: Seq<Seq<char>>, first: Seq<Seq<char>>, e: Seq<char>)
    requires
        forall|x: Seq<char>| first.contains(x) <==> is_entry(paths, x),
    ensures
        is_entry(first, e) <==> is_entry(paths, e),
{
    if is_entry(first, e) {
        let i = choose|i: int| 0 <= i < first.len() && (#[trigger] first[i] == e || is_dir_of(first[i], e));
        assert(first.contains(first[i]));
        let f = first[i];
        assert(is_entry(paths, f));
        let j = choose|j: int| 0 <= j < paths.len() && (#[trigger] paths[j] == f || is_dir_of(paths[j], f));
        if f != e {
            if paths[j] != f {
                lemma_dir_of_dir(paths[j], f, e);
            }
            assert(is_dir_of(paths[j], e));
        }
    }
    if is_entry(paths, e) {
        assert(first.contains(e));
        let i = choose|i: int| 0 <= i < first.len() && first[i] == e;
        assert(first[i] == e);
    }
}

/// The smallest element of a strictly sorted sequence is its first.
proof fn lemma_sorted_first_is_min(s: Seq<Seq<char>>, x: Seq<char>)
    requires
        strictly_sorted(s),
        s.contains(x),
        s.len() > 0,
    ensures
        x == s[0] || lex_lt(s[0], x),
{
    let j = choose|j: int| 0 <= j < s.len() && s[j] == x;
    if j > 0 {
        assert(lex_lt(s[0], s[j]));
    }
}

/// Two strictly sorted sequences with the same elements are equal.
pub proof fn lemma_sorted_unique(a: Seq<Seq<char>>, b: Seq<Seq<char>>)
    requires
        strictly_sorted(a),
        strictly_sorted(b),
        forall|x: Seq<char>| a.contains(x) <==> b.contains(x),
    ensures
        a == b,
    decreases a.len(),
{
    if a.len() == 0 {
        if b.len() > 0 {
            assert(b.contains(b[0]));
        }
        assert(a =~= b);
    } else {
        assert(a.contains(a[0]));
        assert(b.len() > 0);
        assert(b.contains(b[0]));
        lemma_sorted_first_is_min(a, b[0]);
        lemma_sorted_first_is_min(b, a[0]);
        if a[0] != b[0] {
            lemma_lex_asymmetric(a[0], b[0]);
        }
        let ta = a.drop_first();
        let tb = b.drop_first();
        assert(strictly_sorted(ta)) by {
            assert forall|i: int, j: int| 0 <= i < j < ta.len() implies lex_lt(#[trigger] ta[i], #[trigger] ta[j]) by {
                assert(ta[i] == a[i + 1] && ta[j] == a[j + 1]);
            }
        }
        assert(strictly_sorted(tb)) by {
            assert forall|i: int, j: int| 0 <= i < j < tb.len() implies lex_lt(#[trigger] tb[i], #[trigger] tb[j]) by {
                assert(tb[i] == b[i + 1] && tb[j] == b[j + 1]);
            }
        }
        assert forall|x: Seq<char>| ta.contains(x) <==> tb.contains(x) by {
            if ta.contains(x) {
                let i = choose|i: int| 0 <= i < ta.len() && ta[i] == x;
                assert(a[i + 1] == x);
                assert(lex_lt(a[0], a[i + 1]));
                lemma_lex_irreflexive(x);
                assert(b.contains(x));
                let j = choose|j: int| 0 <= j < b.len() && b[j] == x;
                assert(j != 0);
                assert(tb[j - 1] == x);
            }
            if tb.contains(x) {
                let i = choose|i: int| 0 <= i < tb.len() && tb[i] == x;
                assert(b[i + 1] == x);
                assert(lex_lt(b[0], b[i + 1]));
                lemma_lex_irreflexive(x);
                assert(a.contains(x));
                let j = choose|j: int| 0 <= j < a.len() && a[j] == x;
                assert(j != 0);
                assert(ta[j - 1] == x);
            }
        }
        lemma_sorted_unique(ta, tb);
        assert(a =~= seq![a[0]] + ta);
        assert(b =~= seq![b[0]] + tb);
    }
}

/// Law: collecting the entries of collected entries changes nothing.
pub proof fn law_collect_entries_idempotent(paths: Seq<Seq<char>>, first: Seq<Seq<char>>, second: Seq<Seq<char>>)
    requires
        strictly_sorted(first),
        forall|e: Seq<char>| first.contains(e) <==> is_entry(paths, e),
        strictly_sorted(second),
        forall|e: Seq<char>| second.contains(e) <==> is_entry(first, e),
    ensures
        second == first,
{
    assert forall|x: Seq<char>| second.contains(x) <==> first.contains(x) by {
        lemma_entries_closed(paths, first, x);
    }
    lemma_sorted_unique(second, first);
}

/// Why interactive `skem add` stopped.
#[derive(Debug, PartialEq)]
pub enum InteractiveError {
    /// The repository lists no file.
    NoFiles,
    /// The user selected nothing.
    NoPathsSelected,
    /// No default output directory could be derived from the repository URL.
    RepoName(AddError),
}

impl InteractiveError {
    /// The message shown to the user.
    pub fn message(&self) -> (res: String)
        ensures
            match self {
                InteractiveError::NoFiles => res@ == "No files found in the repository."@,
                InteractiveError::NoPathsSelected => res@ == "No paths selected."@,
                InteractiveError::RepoName(e) => match e {
                    AddError::RepoName { repo } =>
                        res@ == "Failed to extract repository name from '"@ + repo@ + "'"@,
                    AddError::AlreadyExists { name } =>
                        res@ == "Dependency '"@ + name@ + "' already exists in the configuration."@,
                },
            },
    {
        match self {
            InteractiveError::NoFiles => String::from_str("No files found in the repository."),
            InteractiveError::NoPathsSelected => String::from_str("No paths selected."),
            InteractiveError::RepoName(e) => e.message(),
        }
    }
}

/// There must be something to choose from.
pub fn require_entries(entries: &Vec<String>) -> (res: Result<(), InteractiveError>)
    ensures
        res is Ok <==> entries@.len() > 0,
        res matches Err(e) ==> e == InteractiveError::NoFiles,
{
    if entries.len() == 0 {
        Err(InteractiveError::NoFiles)
    } else {
        Ok(())
    }
}

/// The user must select at least one path.
pub fn require_selection(selected: &Vec<String>) -> (res: Result<(), InteractiveError>)
    ensures
        res is Ok <==> selected@.len() > 0,
        res matches Err(e) ==> e == InteractiveError::NoPathsSelected,
{
    if selected.len() == 0 {
        Err(InteractiveError::NoPathsSelected)
    } else {
        Ok(())
    }
}

/// The output directory offered by default: `./vendor/<repository name>`.
pub fn default_output_dir(repo: &str) -> (res: Result<String, AddError>)
    ensures
        match res {
            Ok(s) => s@ == "./vendor/"@ + repo_name(repo@) && repo_name(repo@).len() > 0,
            Err(e) => repo_name(repo@).len() == 0 && (e matches AddError::RepoName { repo: r } && r@ == repo@),
        },
{
    match crate::add::extract_repo_name(repo) {
        Ok(name) => Ok(concat2("./vendor/", name.as_str())),
        Err(e) => Err(e),
    }
}

/// What the repository or the user handed to interactive `skem add`.
pub enum InteractiveEvent {
    /// The entries listed from the repository at the chosen revision.
    Listed(Vec<String>),
    /// The entries the user selected.
    Selected(Vec<String>),
    /// The output directory the user entered, with the entries selected before.
    OutputDir { paths: Vec<String>, out: String },
}

/// What interactive `skem add` does next.
#[derive(Debug, PartialEq)]
pub enum InteractiveAction {
    /// Let the user select among these entries.
    SelectPaths(Vec<String>),
    /// Ask for the output directory, offering `default`.
    AskOutputDir { paths: Vec<String>, default: String },
    /// Add the dependency with these paths and this output directory, as
    /// `skem add` does.
    Add { paths: Vec<String>, out: String },
    /// Stop with this error; nothing is written.
    Fail(InteractiveError),
}

/// The decisions of interactive `skem add`, one event at a time: the listed
/// entries are offered unless there are none; a selection leads to the
/// output-directory prompt, whose default is `./vendor/<repository name>`,
/// unless it is empty; the entered directory leads to the plain add.
pub fn interactive_step(repo: &str, event: InteractiveEvent) -> (res: InteractiveAction)
    ensures
        match event {
            InteractiveEvent::Listed(entries) => if entries@.len() == 0 {
                res == InteractiveAction::Fail(InteractiveError::NoFiles)
            } else {
                res == InteractiveAction::SelectPaths(entries)
            },
            InteractiveEvent::Selected(paths) => if paths@.len() == 0 {
                res == InteractiveAction::Fail(InteractiveError::NoPathsSelected)
            } else if repo_name(repo@).len() == 0 {
                res matches InteractiveAction::Fail(InteractiveError::RepoName(AddError::RepoName { repo: r }))
                    && r@ == repo@
            } else {
                res matches InteractiveAction::AskOutputDir { paths: p, default }
                    && p == paths && default@ == "./vendor/"@ + repo_name(repo@)
            },
            InteractiveEvent::OutputDir { paths, out } => res == (InteractiveAction::Add { paths, out }),
        },
{
    match event {
        InteractiveEvent::Listed(entries) => match require_entries(&entries) {
            Ok(()) => InteractiveAction::SelectPaths(entries),
            Err(e) => InteractiveAction::Fail(e),
        },
        InteractiveEvent::Selected(paths) => match require_selection(&paths) {
            Err(e) => InteractiveAction::Fail(e),
            Ok(()) => match default_output_dir(repo) {
                Ok(default) => InteractiveAction::AskOutputDir { paths, default },
                Err(e) => InteractiveAction::Fail(InteractiveError::RepoName(e)),
            },
        },
        InteractiveEvent::OutputDir { paths, out } => InteractiveAction::Add { paths, out },
    }
}

} // verus!
