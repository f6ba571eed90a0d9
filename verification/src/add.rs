//! `skem add`: deriving a dependency's name from its repository URL and
//! appending it to the configuration.

use vstd::prelude::*;
use vstd::string::*;
use crate::config::{Config, Dependency};
use crate::text::{after_last, lemma_after_last_component, lemma_after_last_split, concat2, ends_with, string_of_range, has_char, str_eq, to_chars,
    trim_end_char, trim_end_suffix};

verus! {

/// The name that `extract_repo_name` derives from a repository URL: trailing
/// `/` characters are trimmed, then trailing `.git` suffixes, and the part
/// after the last `/` remains.
pub open spec fn repo_name(repo: Seq<char>) -> Seq<char> {
    after_last(trim_end_suffix(trim_end_char(repo, '/'), ".git"@), '/')
}

/// Why `skem add` refused a dependency.
#[derive(Debug, PartialEq)]
pub enum AddError {
    /// No name could be derived from the repository URL.
    RepoName { repo: String },
    /// A dependency with this name is already configured.
    AlreadyExists { name: String },
}

impl AddError {
    /// The message shown to the user.
    pub fn message(&self) -> (res: String)
        ensures
            match self {
                AddError::RepoName { repo } =>
                    res@ == "Failed to extract repository name from '"@ + repo@ + "'"@,
                AddError::AlreadyExists { name } =>
                    res@ == "Dependency '"@ + name@ + "' already exists in the configuration."@,
            },
    {
        match self {
            AddError::RepoName { repo } => {
                let mut s = concat2("Failed to extract repository name from '", repo.as_str());
                s.append("'");
                s
            },
            AddError::AlreadyExists { name } => {
                let mut s = concat2("Dependency '", name.as_str());
                s.append("' already exists in the configuration.");
                s
            },
        }
    }
}

proof fn lemma_trim_suffix_not_ends(s: Seq<char>, suffix: Seq<char>)
    requires
        suffix.len() > 0,
    ensures
        !ends_with(trim_end_suffix(s, suffix), suffix),
    decreases s.len(),
{
    if ends_with(s, suffix) {
        lemma_trim_suffix_not_ends(s.subrange(0, s.len() - suffix.len()), suffix);
    }
}

/// Law: the derived name is the last `/`-separated component of the URL,
/// kept whole (dots included): `<prefix>/<n>.git`, `<prefix>/<n>` and
/// `<prefix>/<n>/` all give `n`, for any non-empty `n` without `/` that does
/// not itself end in `.git`.
pub proof fn law_repo_name_is_last_component(prefix: Seq<char>, n: Seq<char>)
    requires
        n.len() > 0,
        !has_char(n, '/'),
        !ends_with(n, ".git"@),
    ensures
        repo_name(prefix + seq!['/'] + n + ".git"@) == n,
        repo_name(prefix + seq!['/'] + n) == n,
        repo_name(prefix + seq!['/'] + n + seq!['/']) == n,
{
    reveal_strlit(".git");
    let x = prefix + seq!['/'] + n;
    assert(n[n.len() - 1] != '/');
    assert(x.last() == n.last());
    lemma_after_last_component(prefix, n);
    // `x` does not end with ".git".
    if ends_with(x, ".git"@) {
        let tail = x.subrange(x.len() - 4, x.len() as int);
        if n.len() >= 4 {
            assert(n.subrange(n.len() - 4, n.len() as int) =~= tail);
        } else {
            let k = 3 - n.len();
            assert(x[x.len() - 1 - n.len()] == '/');
            assert(tail[k] == x[x.len() - 4 + k]);
            assert(tail[k] == ".git"@[k]);
        }
    }
    assert(trim_end_suffix(x, ".git"@) == x);
    assert(trim_end_char(x, '/') == x);
    // With ".git" appended.
    let y = x + ".git"@;
    assert(y.last() == 't');
    assert(trim_end_char(y, '/') == y);
    assert(y.subrange(y.len() - 4, y.len() as int) =~= ".git"@);
    assert(y.subrange(0, y.len() - 4) =~= x);
    assert(trim_end_suffix(y, ".git"@) == x);
    // With a trailing '/'.
    let z = x + seq!['/'];
    assert(z.drop_last() =~= x);
    assert(trim_end_char(z, '/') == x);
}

/// Extract the repository name from a URL, e.g.
/// `https://github.com/example/api.git` gives `api`; fails when nothing is left.
pub fn extract_repo_name(repo: &str) -> (res: Result<String, AddError>)
    ensures
        match res {
            Ok(name) => name@ == repo_name(repo@) && name@.len() > 0,
            Err(e) => repo_name(repo@).len() == 0 && (e matches AddError::RepoName { repo: r } && r@ == repo@),
        },
        res is Ok ==> !has_char(res->Ok_0@, '/') && !ends_with(res->Ok_0@, ".git"@),
{
    let cs = to_chars(repo);
    let ghost s = cs@;
    let mut end: usize = cs.len();
    assert(s.take(s.len() as int) =~= s);
    // Trim trailing '/'.
    while end > 0 && cs[end - 1] == '/'
        invariant
            end <= s.len(),
            cs@ == s,
            trim_end_char(s, '/') == trim_end_char(s.take(end as int), '/'),
        decreases end,
    {
        assert(s.take(end as int).drop_last() =~= s.take(end - 1));
        end = end - 1;
    }
    assert(trim_end_char(s.take(end as int), '/') == s.take(end as int));
    let ghost t = s.take(end as int);
    proof {
        reveal_strlit(".git");
    }
    // Trim trailing ".git" suffixes.
    while end >= 4 && cs[end - 4] == '.' && cs[end - 3] == 'g' && cs[end - 2] == 'i' && cs[end - 1] == 't'
        invariant
            end <= s.len(),
            cs@ == s,
            ".git"@ == seq!['.', 'g', 'i', 't'],
            trim_end_suffix(t, ".git"@) == trim_end_suffix(s.take(end as int), ".git"@),
        decreases end,
    {
        assert(s.take(end as int).subrange(end - 4, end as int) =~= ".git"@);
        assert(s.take(end as int).subrange(0, end - 4) =~= s.take(end - 4));
        end = end - 4;
    }
    proof {
        if ends_with(s.take(end as int), ".git"@) {
            let w = s.take(end as int);
            assert(w.subrange(w.len() - 4, w.len() as int)[0] == w[end - 4]);
            assert(w.subrange(w.len() - 4, w.len() as int)[1] == w[end - 3]);
            assert(w.subrange(w.len() - 4, w.len() as int)[2] == w[end - 2]);
            assert(w.subrange(w.len() - 4, w.len() as int)[3] == w[end - 1]);
        }
    }
    let ghost u = s.take(end as int);
    assert(trim_end_suffix(t, ".git"@) == u);
    // The part after the last '/'.
    let mut start: usize = end;
    while start > 0 && cs[start - 1] != '/'
        invariant
            start <= end <= s.len(),
            cs@ == s,
            after_last(u, '/') == after_last(s.take(start as int), '/') + s.subrange(start as int, end as int),
        decreases start,
    {
        assert(s.take(start as int).drop_last() =~= s.take(start - 1));
        assert(s.subrange(start - 1, end as int) =~= seq![s[start - 1]] + s.subrange(start as int, end as int));
        assert(after_last(s.take(start as int), '/') == after_last(s.take(start - 1), '/').push(s[start - 1]));
        assert(after_last(s.take(start - 1), '/').push(s[start - 1]) + s.subrange(start as int, end as int)
            =~= after_last(s.take(start - 1), '/') + s.subrange(start - 1, end as int));
        start = start - 1;
    }
    assert(after_last(s.take(start as int), '/') == Seq::<char>::empty());
    assert(after_last(u, '/') =~= s.subrange(start as int, end as int));
    proof {
        let name = after_last(u, '/');
        lemma_after_last_split(u, '/');
        lemma_trim_suffix_not_ends(t, ".git"@);
        if ends_with(name, ".git"@) {
            let p = u.subrange(0, u.len() - name.len());
            assert(u.subrange(u.len() - 4, u.len() as int) =~= name.subrange(name.len() - 4, name.len() as int));
        }
    }
    if start == end {
        Err(AddError::RepoName { repo: String::from_str(repo) })
    } else {
        Ok(string_of_range(&cs, start, end))
    }
}


/// The name a new dependency gets: the given one, or the one derived from its
/// repository URL.
pub open spec fn chosen_name(name: Option<String>, repo: Seq<char>) -> Seq<char> {
    match name {
        Some(n) => n@,
        None => repo_name(repo),
    }
}

/// Whether some dependency of `deps` has the name `name`.
pub open spec fn has_dep_named(deps: Seq<Dependency>, name: Seq<char>) -> bool {
    exists|i: int| 0 <= i < deps.len() && deps[i].name@ == name
}

/// The position of the first dependency named `name`, if any.
pub fn find_dependency(config: &Config, name: &str) -> (res: Option<usize>)
    ensures
        match res {
            Some(i) => i < config.deps@.len() && config.deps@[i as int].name@ == name@
                && forall|j: int| 0 <= j < i ==> config.deps@[j].name@ != name@,
            None => !has_dep_named(config.deps@, name@),
        },
{
    let mut i: usize = 0;
    while i < config.deps.len()
        invariant
            i <= config.deps@.len(),
            forall|j: int| 0 <= j < i ==> config.deps@[j].name@ != name@,
        decreases config.deps@.len() - i,
    {
        if str_eq(config.deps[i].name.as_str(), name) {
            return Some(i);
        }
        i = i + 1;
    }
    None
}

/// Add a new dependency to a configuration (what `skem add` does to
/// `.skem.yaml`): its name is `name`, or the one derived from `repo`; it is
/// appended with no hooks, unless a dependency of that name already exists.
pub fn add_dependency(
    config: Config,
    repo: String,
    paths: Vec<String>,
    out: String,
    name: Option<String>,
    rev: Option<String>,
) -> (res: Result<Config, AddError>)
    ensures
        match res {
            Ok(c) => {
                &&& c.deps@.len() == config.deps@.len() + 1
                &&& c.deps@.drop_last() == config.deps@
                &&& c.post_hooks == config.post_hooks
                &&& c.deps@.last().name@ == chosen_name(name, repo@)
                &&& c.deps@.last().repo == repo
                &&& c.deps@.last().rev == rev
                &&& c.deps@.last().paths == paths
                &&& c.deps@.last().out == out
                &&& c.deps@.last().hooks@.len() == 0
                &&& (name is Some || repo_name(repo@).len() > 0)
                &&& !has_dep_named(config.deps@, chosen_name(name, repo@))
            },
            Err(AddError::RepoName { repo: r }) => {
                &&& name is None
                &&& repo_name(repo@).len() == 0
                &&& r@ == repo@
            },
            Err(AddError::AlreadyExists { name: n }) => {
                &&& n@ == chosen_name(name, repo@)
                &&& (name is Some || repo_name(repo@).len() > 0)
                &&& has_dep_named(config.deps@, n@)
            },
        },
        res is Err <==> (name is None && repo_name(repo@).len() == 0)
            || has_dep_named(config.deps@, chosen_name(name, repo@)),
{
    let dep_name = match name {
        Some(n) => n,
        None => match extract_repo_name(repo.as_str()) {
            Ok(n) => n,
            Err(e) => {
                return Err(e);
            },
        },
    };
    if let Some(i) = find_dependency(&config, dep_name.as_str()) {
        return Err(AddError::AlreadyExists { name: dep_name });
    }
    let dependency = Dependency { name: dep_name, repo, rev, paths, out, hooks: Vec::new() };
    let mut deps = config.deps;
    deps.push(dependency);
    proof {
        assert(deps@.drop_last() =~= config.deps@);
    }
    Ok(Config { deps, post_hooks: config.post_hooks })
}

} // verus!
