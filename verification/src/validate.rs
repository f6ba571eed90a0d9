//! Semantic validation of a configuration before it is synced or checked.

use vstd::prelude::*;
use vstd::string::*;
use crate::add::has_dep_named;
use crate::config::{Config, Dependency};
use crate::text::{concat2, copy_string, decimal, push_decimal, str_eq};

verus! {

/// What is wrong with a configuration.
#[derive(Clone, Copy, Debug, PartialEq, Eq, Structural)]
pub enum ValidationErrorKind {
    EmptyName,
    EmptyRepo,
    EmptyPaths,
    EmptyOut,
    DuplicateName,
}

/// The first problem found in a configuration: its kind, the position of the
/// dependency, and that dependency's name.
#[derive(Debug, PartialEq)]
pub struct ValidationError {
    pub kind: ValidationErrorKind,
    pub index: usize,
    pub name: String,
}

/// The first empty required field of a dependency, in the order name, repo,
/// paths, out.
pub open spec fn field_problem(d: Dependency) -> Option<ValidationErrorKind> {
    if d.name@.len() == 0 {
        Some(ValidationErrorKind::EmptyName)
    } else if d.repo@.len() == 0 {
        Some(ValidationErrorKind::EmptyRepo)
    } else if d.paths@.len() == 0 {
        Some(ValidationErrorKind::EmptyPaths)
    } else if d.out@.len() == 0 {
        Some(ValidationErrorKind::EmptyOut)
    } else {
        None
    }
}

/// Whether `i` is the first dependency with an empty required field.
pub open spec fn is_first_field_problem(deps: Seq<Dependency>, i: int) -> bool {
    &&& 0 <= i < deps.len()
    &&& field_problem(deps[i]) is Some
    &&& forall|j: int| 0 <= j < i ==> field_problem(deps[j]) is None
}

/// Whether the dependency at `j` repeats the name of an earlier one.
pub open spec fn repeats_name(deps: Seq<Dependency>, j: int) -> bool {
    exists|k: int| 0 <= k < j && deps[k].name@ == deps[j].name@
}

/// Whether `j` is the first dependency that repeats an earlier name.
pub open spec fn is_first_repeat(deps: Seq<Dependency>, j: int) -> bool {
    &&& 0 <= j < deps.len()
    &&& repeats_name(deps, j)
    &&& forall|m: int| 0 <= m < j ==> !repeats_name(deps, m)
}

/// The problem `validate_config` reports, with the position of the
/// dependency: first any empty field (earliest dependency first), then any
/// repeated name (earliest repetition first).
pub open spec fn validation_outcome(deps: Seq<Dependency>) -> Option<(ValidationErrorKind, int)> {
    if exists|i: int| is_first_field_problem(deps, i) {
        let i = choose|i: int| is_first_field_problem(deps, i);
        Some((field_problem(deps[i])->0, i))
    } else if exists|j: int| is_first_repeat(deps, j) {
        Some((ValidationErrorKind::DuplicateName, choose|j: int| is_first_repeat(deps, j)))
    } else {
        None
    }
}

/// A configuration is valid when every dependency has a non-empty name,
/// repo, paths and out, and no two dependencies share a name.
pub open spec fn config_valid(deps: Seq<Dependency>) -> bool {
    &&& forall|i: int| 0 <= i < deps.len() ==> field_problem(#[trigger] deps[i]) is None
    &&& forall|i: int, j: int| 0 <= i < j < deps.len() ==> deps[i].name@ != deps[j].name@
}

proof fn lemma_first_field_unique(deps: Seq<Dependency>, i: int)
    requires
        is_first_field_problem(deps, i),
    ensures
        (choose|k: int| is_first_field_problem(deps, k)) == i,
{
    let k = choose|k: int| is_first_field_problem(deps, k);
    assert(is_first_field_problem(deps, k));
    if k < i {
        assert(field_problem(deps[k]) is None);
    } else if i < k {
        assert(field_problem(deps[i]) is None);
    }
}

proof fn lemma_first_repeat_unique(deps: Seq<Dependency>, j: int)
    requires
        is_first_repeat(deps, j),
    ensures
        (choose|k: int| is_first_repeat(deps, k)) == j,
{
    let k = choose|k: int| is_first_repeat(deps, k);
    assert(is_first_repeat(deps, k));
    if k < j {
        assert(!repeats_name(deps, k));
    } else if j < k {
        assert(!repeats_name(deps, j));
    }
}

impl ValidationError {
    /// The message shown to the user.
    pub fn message(&self) -> (res: String)
        ensures
            res@ == match self.kind {
                ValidationErrorKind::EmptyName =>
                    "deps["@ + decimal(self.index as nat) + "]: name must not be empty"@,
                ValidationErrorKind::EmptyRepo =>
                    "deps["@ + decimal(self.index as nat) + "] ("@ + self.name@ + "): repo must not be empty"@,
                ValidationErrorKind::EmptyPaths =>
                    "deps["@ + decimal(self.index as nat) + "] ("@ + self.name@ + "): paths must not be empty"@,
                ValidationErrorKind::EmptyOut =>
                    "deps["@ + decimal(self.index as nat) + "] ("@ + self.name@ + "): out must not be empty"@,
                ValidationErrorKind::DuplicateName =>
                    "duplicate dependency name: "@ + self.name@,
            },
    {
        if let ValidationErrorKind::DuplicateName = self.kind {
            return concat2("duplicate dependency name: ", self.name.as_str());
        }
        let mut s = String::from_str("deps[");
        push_decimal(&mut s, self.index as u64);
        match self.kind {
            ValidationErrorKind::EmptyName => {
                s.append("]: name must not be empty");
            },
            _ => {
                s.append("] (");
                s.append(self.name.as_str());
                match self.kind {
                    ValidationErrorKind::EmptyRepo => s.append("): repo must not be empty"),
                    ValidationErrorKind::EmptyPaths => s.append("): paths must not be empty"),
                    _ => s.append("): out must not be empty"),
                }
            },
        }
        s
    }
}

fn field_check(d: &Dependency) -> (res: Option<ValidationErrorKind>)
    ensures
        res == field_problem(*d),
{
    if d.name.as_str().is_empty() {
        Some(ValidationErrorKind::EmptyName)
    } else if d.repo.as_str().is_empty() {
        Some(ValidationErrorKind::EmptyRepo)
    } else if d.paths.is_empty() {
        Some(ValidationErrorKind::EmptyPaths)
    } else if d.out.as_str().is_empty() {
        Some(ValidationErrorKind::EmptyOut)
    } else {
        None
    }
}

/// Validate a configuration: reports the first dependency with an empty
/// name, repo, paths or out, and otherwise the first repeated name.
pub fn validate_config(config: &Config) -> (res: Result<(), ValidationError>)
    ensures
        match res {
            Ok(()) => validation_outcome(config.deps@) is None,
            Err(e) => validation_outcome(config.deps@) == Some((e.kind, e.index as int))
                && e.name@ == config.deps@[e.index as int].name@,
        },
        res is Ok <==> config_valid(config.deps@),
{
    let ghost deps = config.deps@;
    let mut i: usize = 0;
    while i < config.deps.len()
        invariant
            i <= deps.len(),
            deps == config.deps@,
            forall|j: int| 0 <= j < i ==> field_problem(deps[j]) is None,
        decreases deps.len() - i,
    {
        if let Some(kind) = field_check(&config.deps[i]) {
            proof {
                assert(is_first_field_problem(deps, i as int));
                lemma_first_field_unique(deps, i as int);
                assert(!config_valid(deps));
            }
            return Err(ValidationError { kind, index: i, name: copy_string(&config.deps[i].name) });
        }
        i = i + 1;
    }
    assert(!exists|k: int| is_first_field_problem(deps, k));
    let mut j: usize = 0;
    while j < config.deps.len()
        invariant
            j <= deps.len(),
            deps == config.deps@,
            forall|i: int| 0 <= i < deps.len() ==> field_problem(deps[i]) is None,
            forall|m: int| 0 <= m < j ==> !repeats_name(deps, m),
        decreases deps.len() - j,
    {
        let mut k: usize = 0;
        while k < j
            invariant
                k <= j < deps.len(),
                deps == config.deps@,
                forall|m: int| 0 <= m < k ==> deps[m].name@ != deps[j as int].name@,
                forall|i: int| 0 <= i < deps.len() ==> field_problem(deps[i]) is None,
                forall|m: int| 0 <= m < j ==> !repeats_name(deps, m),
            decreases j - k,
        {
            if str_eq(config.deps[k].name.as_str(), config.deps[j].name.as_str()) {
                proof {
                    assert(repeats_name(deps, j as int));
                    assert(is_first_repeat(deps, j as int));
                    lemma_first_repeat_unique(deps, j as int);
                    assert(!config_valid(deps));
                }
                return Err(ValidationError {
                    kind: ValidationErrorKind::DuplicateName,
                    index: j,
                    name: copy_string(&config.deps[j].name),
                });
            }
            k = k + 1;
        }
        assert(!repeats_name(deps, j as int));
        j = j + 1;
    }
    proof {
        assert(!exists|m: int| is_first_repeat(deps, m));
        assert forall|a: int, b: int| 0 <= a < b < deps.len() implies deps[a].name@ != deps[b].name@ by {
            assert(!repeats_name(deps, b));
        }
    }
    Ok(())
}


/// Law: adding a dependency with non-empty fields and a fresh name (what
/// `add_dependency` checks) to a valid configuration keeps it valid.
pub proof fn law_add_keeps_valid(deps: Seq<Dependency>, added: Dependency)
    requires
        config_valid(deps),
        field_problem(added) is None,
        !has_dep_named(deps, added.name@),
    ensures
        config_valid(deps.push(added)),
{
    let n = deps.push(added);
    assert forall|i: int| 0 <= i < n.len() implies field_problem(#[trigger] n[i]) is None by {
        if i < deps.len() {
            assert(n[i] == deps[i]);
        }
    }
    assert forall|i: int, j: int| 0 <= i < j < n.len() implies n[i].name@ != n[j].name@ by {
        assert(n[i] == deps[i]);
        if j < deps.len() {
            assert(n[j] == deps[j]);
        } else {
            assert(n[j] == added);
        }
    }
}

} // verus!
