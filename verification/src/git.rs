//! Reading what git commands print.

use vstd::prelude::*;
use vstd::string::*;
use crate::text::{string_of_range, to_chars};

verus! {

/// Whether `c` has the Unicode `White_Space` property (`char::is_whitespace`).
pub open spec fn is_unicode_whitespace(c: char) -> bool {
    let v = c as u32;
    ||| 0x9 <= v <= 0xD
    ||| v == 0x20
    ||| v == 0x85
    ||| v == 0xA0
    ||| v == 0x1680
    ||| 0x2000 <= v <= 0x200A
    ||| v == 0x2028
    ||| v == 0x2029
    ||| v == 0x202F
    ||| v == 0x205F
    ||| v == 0x3000
}

fn is_whitespace_char(c: char) -> (res: bool)
    ensures
        res == is_unicode_whitespace(c),
{
    let v = c as u32;
    (0x9 <= v && v <= 0xD) || v == 0x20 || v == 0x85 || v == 0xA0 || v == 0x1680
        || (0x2000 <= v && v <= 0x200A) || v == 0x2028 || v == 0x2029 || v == 0x202F
        || v == 0x205F || v == 0x3000
}

/// `s` without its leading whitespace.
pub open spec fn skip_whitespace(s: Seq<char>) -> Seq<char>
    decreases s.len(),
{
    if s.len() > 0 && is_unicode_whitespace(s[0]) {
        skip_whitespace(s.drop_first())
    } else {
        s
    }
}

/// The leading run of non-whitespace characters of `s`.
pub open spec fn leading_word(s: Seq<char>) -> Seq<char>
    decreases s.len(),
{
    if s.len() > 0 && !is_unicode_whitespace(s[0]) {
        seq![s[0]] + leading_word(s.drop_first())
    } else {
        Seq::empty()
    }
}

/// The first whitespace-separated word of `s`
/// (`s.split_whitespace().next()`), if there is one.
pub open spec fn first_word(s: Seq<char>) -> Option<Seq<char>> {
    if skip_whitespace(s).len() == 0 {
        None
    } else {
        Some(leading_word(skip_whitespace(s)))
    }
}

/// Why the output of a git command could not be read.
#[derive(Debug, PartialEq)]
pub enum GitOutputError {
    /// `git ls-remote` printed no word.
    NoOutput,
}

impl GitOutputError {
    /// The message shown to the user.
    pub fn message(&self) -> (res: String)
        ensures
            res@ == "No output from git ls-remote"@,
    {
        String::from_str("No output from git ls-remote")
    }
}

/// The commit SHA in the output of `git ls-remote <repo> <rev>`: its first
/// whitespace-separated word; an error when there is none.
pub fn parse_ls_remote(stdout: &str) -> (res: Result<String, GitOutputError>)
    ensures
        match res {
            Ok(sha) => first_word(stdout@) == Some(sha@),
            Err(e) => first_word(stdout@) is None && e == GitOutputError::NoOutput,
        },
{
    let cs = to_chars(stdout);
    let ghost s = cs@;
    let n = cs.len();
    let mut start: usize = 0;
    assert(s.skip(0) =~= s);
    while start < n && is_whitespace_char(cs[start])
        invariant
            start <= n,
            n == s.len(),
            cs@ == s,
            skip_whitespace(s) == skip_whitespace(s.skip(start as int)),
        decreases n - start,
    {
        assert(s.skip(start as int).drop_first() =~= s.skip(start + 1));
        start = start + 1;
    }
    assert(skip_whitespace(s.skip(start as int)) == s.skip(start as int));
    if start == n {
        return Err(GitOutputError::NoOutput);
    }
    let ghost t = s.skip(start as int);
    let mut end: usize = start;
    assert(s.subrange(start as int, start as int) =~= Seq::<char>::empty());
    while end < n && !is_whitespace_char(cs[end])
        invariant
            start <= end <= n,
            n == s.len(),
            cs@ == s,
            t == s.skip(start as int),
            leading_word(t) == s.subrange(start as int, end as int) + leading_word(s.skip(end as int)),
        decreases n - end,
    {
        assert(s.skip(end as int).drop_first() =~= s.skip(end + 1));
        assert(s.skip(end as int)[0] == s[end as int]);
        assert(s.subrange(start as int, end as int) + (seq![s[end as int]] + leading_word(s.skip(end + 1)))
            =~= s.subrange(start as int, end + 1) + leading_word(s.skip(end + 1)));
        end = end + 1;
    }
    proof {
        if end < n {
            assert(s.skip(end as int)[0] == s[end as int]);
        }
        assert(leading_word(s.skip(end as int)) == Seq::<char>::empty());
        assert(s.subrange(start as int, end as int) + Seq::<char>::empty() =~= s.subrange(start as int, end as int));
    }
    Ok(string_of_range(&cs, start, end))
}

} // verus!
