//! `skem rm`: removing a dependency from the configuration.

use vstd::prelude::*;
use vstd::string::*;
use crate::add::has_dep_named;
use crate::config::{Config, Dependency};
use crate::text::{concat2, str_eq};

verus! {

/// `deps` without the dependencies named `name`, the others in their order.
pub open spec fn without_dep(deps: Seq<Dependency>, name: Seq<char>) -> Seq<Dependency>
    decreases deps.len(),
{
    if deps.len() == 0 {
        deps
    } else if deps.last().name@ == name {
        without_dep(deps.drop_last(), name)
    } else {
        without_dep(deps.drop_last(), name).push(deps.last())
    }
}

/// Why `skem rm` refused.
#[derive(Debug, PartialEq)]
pub enum RmError {
    /// No dependency has this name.
    NotFound { name: String },
}

impl RmError {
    /// The message shown to the user.
    pub fn message(&self) -> (res: String)
        ensures
            match self {
                RmError::NotFound { name } =>
                    res@ == "Dependency '"@ + name@ + "' not found in the configuration."@,
            },
    {
        match self {
            RmError::NotFound { name } => {
                let mut s = concat2("Dependency '", name.as_str());
                s.append("' not found in the configuration.");
                s
            },
        }
    }
}

proof fn lemma_without_dep_all_kept(deps: Seq<Dependency>, name: Seq<char>)
    requires
        !has_dep_named(deps, name),
    ensures
        without_dep(deps, name) == deps,
    decreases deps.len(),
{
    if deps.len() > 0 {
        assert(!has_dep_named(deps.drop_last(), name)) by {
            if has_dep_named(deps.drop_last(), name) {
                let i = choose|i: int| 0 <= i < deps.drop_last().len() && deps.drop_last()[i].name@ == name;
                assert(deps[i].name@ == name);
            }
        }
        lemma_without_dep_all_kept(deps.drop_last(), name);
        assert(deps.last().name@ != name);
        assert(deps.drop_last().push(deps.last()) =~= deps);
    }
}

proof fn lemma_without_dep_shorter(deps: Seq<Dependency>, name: Seq<char>, i: int)
    requires
        0 <= i < deps.len(),
        deps[i].name@ == name,
    ensures
        without_dep(deps, name).len() < deps.len(),
    decreases deps.len(),
{
    lemma_without_dep_len(deps.drop_last(), name);
    if i < deps.len() - 1 {
        assert(deps.drop_last()[i] == deps[i]);
        lemma_without_dep_shorter(deps.drop_last(), name, i);
    }
}

proof fn lemma_without_dep_len(deps: Seq<Dependency>, name: Seq<char>)
    ensures
        without_dep(deps, name).len() <= deps.len(),
    decreases deps.len(),
{
    if deps.len() > 0 {
        lemma_without_dep_len(deps.drop_last(), name);
    }
}

/// Remove the dependencies named `name` from a configuration (what `skem rm`
/// does to `.skem.yaml`); fails when none has that name.
pub fn remove_dependency(config: Config, name: &str) -> (res: Result<Config, RmError>)
    ensures
        match res {
            Ok(c) => c.deps@ == without_dep(config.deps@, name@) && c.post_hooks == config.post_hooks,
            Err(RmError::NotFound { name: n }) => n@ == name@,
        },
        res is Ok <==> has_dep_named(config.deps@, name@),
{
    let ghost orig = config.deps@;
    let total = config.deps.len();
    let mut rest = config.deps;
    let mut kept: Vec<Dependency> = Vec::new();
    let mut k: usize = 0;
    let mut found = false;
    while rest.len() > 0
        invariant
            k + rest@.len() == orig.len(),
            total == orig.len(),
            rest@ == orig.skip(k as int),
            kept@ == without_dep(orig.take(k as int), name@),
            found == has_dep_named(orig.take(k as int), name@),
        decreases rest@.len(),
    {
        let d = rest.remove(0);
        proof {
            assert(d == orig[k as int]);
            assert(orig.take(k + 1).drop_last() =~= orig.take(k as int));
            assert(orig.take(k + 1).last() == d);
            assert(rest@ =~= orig.skip(k + 1));
            let before = orig.take(k as int);
            let after = orig.take(k + 1);
            if has_dep_named(before, name@) {
                let i = choose|i: int| 0 <= i < before.len() && before[i].name@ == name@;
                assert(after[i] == before[i]);
            }
            if has_dep_named(after, name@) && d.name@ != name@ {
                let i = choose|i: int| 0 <= i < after.len() && after[i].name@ == name@;
                assert(before[i] == after[i]);
            }
            if d.name@ == name@ {
                assert(after[k as int] == d);
            }
        }
        if str_eq(d.name.as_str(), name) {
            found = true;
        } else {
            kept.push(d);
        }
        k = k + 1;
    }
    assert(orig.take(k as int) =~= orig);
    if !found {
        return Err(RmError::NotFound { name: String::from_str(name) });
    }
    Ok(Config { deps: kept, post_hooks: config.post_hooks })
}

/// Law: removing a dependency that was just added gives back the configured
/// dependencies as they were before the addition.
pub proof fn law_remove_undoes_add(deps: Seq<Dependency>, added: Dependency)
    requires
        !has_dep_named(deps, added.name@),
    ensures
        without_dep(deps.push(added), added.name@) == deps,
        has_dep_named(deps.push(added), added.name@),
{
    assert(deps.push(added).drop_last() =~= deps);
    lemma_without_dep_all_kept(deps, added.name@);
    assert(deps.push(added)[deps.len() as int] == added);
}

/// Law: a successful removal leaves no dependency with the name, and fewer
/// dependencies than before.
pub proof fn law_remove_leaves_none(deps: Seq<Dependency>, name: Seq<char>)
    requires
        has_dep_named(deps, name),
    ensures
        !has_dep_named(without_dep(deps, name), name),
        without_dep(deps, name).len() < deps.len(),
{
    lemma_without_dep_absent(deps, name);
    let i = choose|i: int| 0 <= i < deps.len() && deps[i].name@ == name;
    lemma_without_dep_shorter(deps, name, i);
}

proof fn lemma_without_dep_absent(deps: Seq<Dependency>, name: Seq<char>)
    ensures
        !has_dep_named(without_dep(deps, name), name),
    decreases deps.len(),
{
    if deps.len() > 0 {
        let w = without_dep(deps.drop_last(), name);
        lemma_without_dep_absent(deps.drop_last(), name);
        if deps.last().name@ != name {
            if has_dep_named(w.push(deps.last()), name) {
                let i = choose|i: int| 0 <= i < w.push(deps.last()).len() && w.push(deps.last())[i].name@ == name;
                assert(w.push(deps.last())[i] == w[i]);
            }
        }
    }
}

} // verus!
