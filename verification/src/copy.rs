//! Path stripping: where a file of a checked-out repository lands in the
//! output directory.

use vstd::prelude::*;
use vstd::string::*;
use crate::text::{occurs_at, after_last, ends_with_char, find_chars, find_first, has_char, lemma_after_last_component,
    lemma_after_last_split,
    lemma_find_from_occurs, lemma_trim_end_char, lemma_trim_start_char, string_of_range, to_chars, trim_end_char,
    trim_start_char, views};

verus! {

/// The last component of a Unix path, as `Path::file_name` gives it: trailing
/// `/` characters and `.` components are skipped; there is none when the path
/// is empty, is `/`, or ends in `..`.
pub open spec fn file_name(p: Seq<char>) -> Option<Seq<char>>
    decreases p.len(),
{
    let q = trim_end_char(p, '/');
    if q.len() == 0 {
        None
    } else {
        let seg = after_last(q, '/');
        let rest = q.subrange(0, q.len() - seg.len());
        if seg == seq!['.'] {
            proof {
                lemma_trim_end_char(p, '/');
                lemma_after_last_split(q, '/');
            }
            file_name(rest)
        } else if seg == seq!['.', '.'] {
            None
        } else {
            Some(seg)
        }
    }
}

/// The last component of the path `p` (see `file_name`).
pub fn path_file_name(p: &Vec<char>) -> (res: Option<String>)
    ensures
        match res {
            Some(s) => file_name(p@) == Some(s@),
            None => file_name(p@) is None,
        },
{
    let mut end: usize = p.len();
    assert(p@.take(p@.len() as int) =~= p@);
    loop
        invariant
            end <= p@.len(),
            file_name(p@) == file_name(p@.take(end as int)),
        decreases end,
    {
        let ghost cur = p@.take(end as int);
        // Skip trailing '/'.
        let mut e: usize = end;
        while e > 0 && p[e - 1] == '/'
            invariant
                e <= end <= p@.len(),
                trim_end_char(cur, '/') == trim_end_char(p@.take(e as int), '/'),
            decreases e,
        {
            assert(p@.take(e as int).drop_last() =~= p@.take(e - 1));
            e = e - 1;
        }
        assert(trim_end_char(p@.take(e as int), '/') == p@.take(e as int));
        if e == 0 {
            return None;
        }
        let ghost q = p@.take(e as int);
        let mut start: usize = e;
        while start > 0 && p[start - 1] != '/'
            invariant
                start <= e <= p@.len(),
                q == p@.take(e as int),
                after_last(q, '/') == after_last(p@.take(start as int), '/') + p@.subrange(start as int, e as int),
            decreases start,
        {
            assert(p@.take(start as int).drop_last() =~= p@.take(start - 1));
            assert(after_last(p@.take(start as int), '/') == after_last(p@.take(start - 1), '/').push(p@[start - 1]));
            assert(after_last(p@.take(start - 1), '/').push(p@[start - 1]) + p@.subrange(start as int, e as int)
                =~= after_last(p@.take(start - 1), '/') + p@.subrange(start - 1, e as int));
            start = start - 1;
        }
        assert(after_last(p@.take(start as int), '/') == Seq::<char>::empty());
        let ghost seg = p@.subrange(start as int, e as int);
        assert(after_last(q, '/') =~= seg);
        assert(q.subrange(0, q.len() - seg.len()) =~= p@.take(start as int));
        let len = e - start;
        if len == 1 && p[start] == '.' {
            assert(seg =~= seq!['.']);
            end = start;
        } else if len == 2 && p[start] == '.' && p[start + 1] == '.' {
            assert(seg =~= seq!['.', '.']);
            return None;
        } else {
            assert(seg != seq!['.']) by {
                if len == 1 { assert(seg[0] == p@[start as int]); }
            }
            assert(seg != seq!['.', '.']) by {
                if len == 2 { assert(seg[0] == p@[start as int]); assert(seg[1] == p@[start + 1]); }
            }
            return Some(string_of_range(p, start, e));
        }
    }
}

/// A file name is never empty and holds no `/`.
pub proof fn lemma_file_name_is_plain(p: Seq<char>)
    ensures
        file_name(p) matches Some(n) ==> n.len() > 0 && !has_char(n, '/'),
    decreases p.len(),
{
    let q = trim_end_char(p, '/');
    lemma_trim_end_char(p, '/');
    if q.len() > 0 {
        let seg = after_last(q, '/');
        lemma_after_last_split(q, '/');
        if seg == seq!['.'] {
            lemma_file_name_is_plain(q.subrange(0, q.len() - seg.len()));
        } else if seg.len() == 0 {
            assert(q[q.len() - 1] == '/');
            assert(q.last() == '/');
        }
    }
}

/// The part of `file` after the first occurrence of `dep`, when there is one,
/// with every `/` that directly follows the occurrence skipped; when nothing
/// is left, the file name of `dep` (which may be none).
pub open spec fn strip_one(file: Seq<char>, dep: Seq<char>) -> Option<Option<Seq<char>>> {
    match find_first(file, dep) {
        None => None,
        Some(pos) => {
            let stripped = trim_start_char(file.subrange((pos + dep.len()) as int, file.len() as int), '/');
            if stripped.len() > 0 {
                Some(Some(stripped))
            } else {
                Some(file_name(dep))
            }
        },
    }
}

/// The stripped path for `file`, by the first of `deps` that occurs in it.
pub open spec fn strip_prefix(file: Seq<char>, deps: Seq<Seq<char>>) -> Option<Seq<char>>
    decreases deps.len(),
{
    if deps.len() == 0 {
        None
    } else {
        match strip_one(file, deps[0]) {
            Some(r) => r,
            None => strip_prefix(file, deps.drop_first()),
        }
    }
}

/// Law: a stripped path is relative: it is never empty and never starts
/// with `/`, so joining it to an output directory stays inside that
/// directory.
pub proof fn law_stripped_path_is_relative(file: Seq<char>, deps: Seq<Seq<char>>)
    ensures
        strip_prefix(file, deps) matches Some(r) ==> r.len() > 0 && r[0] != '/',
    decreases deps.len(),
{
    if deps.len() > 0 {
        match find_first(file, deps[0]) {
            None => {
                law_stripped_path_is_relative(file, deps.drop_first());
            },
            Some(pos) => {
                let rest = file.subrange((pos + deps[0].len()) as int, file.len() as int);
                lemma_trim_start_char(rest, '/');
                lemma_file_name_is_plain(deps[0]);
                if let Some(n) = file_name(deps[0]) {
                    assert(!has_char(n, '/'));
                    assert(n[0] != '/');
                }
            },
        }
    }
}

/// Law: the first dependency path that occurs in the file path decides the
/// result alone: those before it do not occur, and those after it are not
/// looked at.
pub proof fn law_first_occurring_decides(file: Seq<char>, deps: Seq<Seq<char>>, i: int)
    requires
        0 <= i < deps.len(),
        find_first(file, deps[i]) is Some,
        forall|j: int| 0 <= j < i ==> #[trigger] find_first(file, deps[j]) is None,
    ensures
        strip_prefix(file, deps) == strip_prefix(file, seq![deps[i]]),
    decreases i,
{
    assert(seq![deps[i]].drop_first() =~= Seq::<Seq<char>>::empty());
    if i > 0 {
        assert(find_first(file, deps[0]) is None);
        let tail = deps.drop_first();
        assert(tail[i - 1] == deps[i]);
        assert forall|j: int| 0 <= j < i - 1 implies #[trigger] find_first(file, tail[j]) is None by {
            assert(tail[j] == deps[j + 1]);
            assert(find_first(file, deps[j + 1]) is None);
        }
        law_first_occurring_decides(file, tail, i - 1);
    }
}

/// Law: a file below a directory dependency path (one ending in `/`) lands
/// at its path below that directory, when that is where the dependency path
/// first occurs in the file path.
pub proof fn law_strip_keeps_path_below_directory(head: Seq<char>, dep: Seq<char>, rest: Seq<char>)
    requires
        ends_with_char(dep, '/'),
        find_first(head + dep + rest, dep) == Some(head.len()),
        rest.len() > 0,
        rest[0] != '/',
    ensures
        strip_prefix(head + dep + rest, seq![dep]) == Some(rest),
{
    let file = head + dep + rest;
    assert(file.subrange((head.len() + dep.len()) as int, file.len() as int) =~= rest);
    assert(seq![dep].drop_first() =~= Seq::<Seq<char>>::empty());
}

/// Law: whatever the dependency path ends with, a file path that goes on
/// with `/` and a relative path after the first occurrence of the
/// dependency path is stripped to exactly that relative path.
pub proof fn law_strip_gives_path_after_match(head: Seq<char>, dep: Seq<char>, rest: Seq<char>)
    requires
        find_first(head + dep + seq!['/'] + rest, dep) == Some(head.len()),
        rest.len() > 0,
        rest[0] != '/',
    ensures
        strip_prefix(head + dep + seq!['/'] + rest, seq![dep]) == Some(rest),
{
    let file = head + dep + seq!['/'] + rest;
    let after = file.subrange((head.len() + dep.len()) as int, file.len() as int);
    assert(after =~= seq!['/'] + rest);
    assert(after[0] == '/');
    assert(after.drop_first() =~= rest);
    assert(trim_start_char(rest, '/') == rest);
    assert(trim_start_char(after, '/') == rest);
    assert(seq![dep].drop_first() =~= Seq::<Seq<char>>::empty());
}

/// Law: a dependency path that names a file, matched at the very end of
/// the file path, puts that file under its own name: `<d>/<n>` gives `n`,
/// for any name `n` without `/` other than `.` and `..`.
pub proof fn law_exact_file_keeps_its_name(head: Seq<char>, d: Seq<char>, n: Seq<char>)
    requires
        find_first(head + (d + seq!['/'] + n), d + seq!['/'] + n) == Some(head.len()),
        n.len() > 0,
        !has_char(n, '/'),
        n != seq!['.'],
        n != seq!['.', '.'],
    ensures
        strip_prefix(head + (d + seq!['/'] + n), seq![d + seq!['/'] + n]) == Some(n),
{
    let dep = d + seq!['/'] + n;
    let file = head + dep;
    assert(file.subrange((head.len() + dep.len()) as int, file.len() as int).len() == 0);
    assert(n[n.len() - 1] != '/');
    assert(dep.last() == n.last());
    assert(trim_end_char(dep, '/') == dep);
    lemma_after_last_component(d, n);
    assert(file_name(dep) == Some(n));
    assert(seq![dep].drop_first() =~= Seq::<Seq<char>>::empty());
}

/// Strip the matching prefix from a file path based on dependency paths:
/// e.g. `/tmp/repo/proto/v1/user.proto` with `proto/v1/` gives `user.proto`;
/// `None` if no dependency path occurs in the file path.
pub fn strip_path_prefix(file_path: &str, dep_paths: &Vec<String>) -> (res: Option<String>)
    ensures
        match res {
            Some(s) => strip_prefix(file_path@, views(dep_paths@)) == Some(s@),
            None => strip_prefix(file_path@, views(dep_paths@)) is None,
        },
        res matches Some(s) ==> s@.len() > 0 && s@[0] != '/',
{
    proof {
        law_stripped_path_is_relative(file_path@, views(dep_paths@));
    }
    let file = to_chars(file_path);
    let ghost all = views(dep_paths@);
    assert(all.skip(0) =~= all);
    let mut k: usize = 0;
    while k < dep_paths.len()
        invariant
            k <= dep_paths@.len(),
            all == views(dep_paths@),
            file@ == file_path@,
            strip_prefix(file@, all) == strip_prefix(file@, all.skip(k as int)),
        decreases dep_paths@.len() - k,
    {
        let dep = to_chars(dep_paths[k].as_str());
        assert(all.skip(k as int)[0] == dep@);
        assert(all.skip(k as int).drop_first() =~= all.skip(k + 1));
        if let Some(pos) = find_chars(&file, &dep) {
            let flen = file.len();
            proof {
                lemma_find_from_occurs(file@, dep@, 0);
                assert(occurs_at(file@, dep@, pos as int));
            }
            let start = pos + dep.len();
            let mut from = start;
            assert(file@.subrange(start as int, flen as int) == file@.subrange(from as int, flen as int));
            while from < flen && file[from] == '/'
                invariant
                    start <= from <= flen,
                    flen == file@.len(),
                    trim_start_char(file@.subrange(start as int, flen as int), '/')
                        == trim_start_char(file@.subrange(from as int, flen as int), '/'),
                decreases flen - from,
            {
                assert(file@.subrange(from as int, flen as int).drop_first() =~= file@.subrange(from + 1, flen as int));
                from = from + 1;
            }
            if from < flen {
                assert(file@.subrange(from as int, flen as int)[0] == file@[from as int]);
                return Some(string_of_range(&file, from, flen));
            } else {
                assert(file@.subrange(from as int, flen as int).len() == 0);
                proof {
                    lemma_file_name_is_plain(dep@);
                }
                return path_file_name(&dep);
            }
        }
        k = k + 1;
    }
    None
}

} // verus!
