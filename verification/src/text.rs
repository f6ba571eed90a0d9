//! Character-level helpers on strings: conversion between `String` and
//! sequences of characters, and the few searches the rest of the library needs.

use vstd::prelude::*;
use vstd::string::*;

verus! {

/// Appends one character to a string (`String::push`).
/// Trusted: the contract claims that the string afterwards is the old
/// characters followed by `c`, as std documents.
#[verifier::external_body]
pub(crate) fn push_char(s: &mut String, c: char)
    ensures
        final(s)@ == old(s)@.push(c),
{
    s.push(c);
}

/// The characters of `s`, in order.
pub fn to_chars(s: &str) -> (res: Vec<char>)
    ensures
        res@ == s@,
{
    let mut res: Vec<char> = Vec::new();
    for c in it: s.chars()
        invariant
            res@ == it.seq().take(it.index() as int),
            it.seq() == s@,
    {
        res.push(c);
    }
    res
}


/// A string holding exactly the characters of `cs`.
pub fn from_chars(cs: &[char]) -> (res: String)
    ensures
        res@ == cs@,
{
    let mut res = String::new();
    let mut i: usize = 0;
    while i < cs.len()
        invariant
            i <= cs@.len(),
            res@ == cs@.take(i as int),
        decreases cs@.len() - i,
    {
        push_char(&mut res, cs[i]);
        assert(cs@.take(i as int).push(cs@[i as int]) =~= cs@.take(i + 1));
        i = i + 1;
    }
    assert(cs@.take(cs@.len() as int) =~= cs@);
    res
}

/// A string holding the characters of `cs` from position `from` up to `to`.
pub fn string_of_range(cs: &Vec<char>, from: usize, to: usize) -> (res: String)
    requires
        from <= to <= cs@.len(),
    ensures
        res@ == cs@.subrange(from as int, to as int),
{
    let mut res = String::new();
    let mut i: usize = from;
    while i < to
        invariant
            from <= i <= to <= cs@.len(),
            res@ == cs@.subrange(from as int, i as int),
        decreases to - i,
    {
        push_char(&mut res, cs[i]);
        assert(cs@.subrange(from as int, i as int).push(cs@[i as int]) =~= cs@.subrange(from as int, i + 1));
        i = i + 1;
    }
    res
}

/// A copy of `s`.
pub fn copy_string(s: &String) -> (res: String)
    ensures
        res == *s,
        res@ == s@,
{
    s.clone()
}

/// A copy of a vector of strings.
pub fn copy_strings(v: &Vec<String>) -> (res: Vec<String>)
    ensures
        res@ == v@,
{
    let mut res: Vec<String> = Vec::new();
    let mut i: usize = 0;
    while i < v.len()
        invariant
            i <= v@.len(),
            res@ == v@.take(i as int),
        decreases v@.len() - i,
    {
        res.push(copy_string(&v[i]));
        assert(v@.take(i as int).push(v@[i as int]) =~= v@.take(i + 1));
        i = i + 1;
    }
    assert(v@.take(v@.len() as int) =~= v@);
    res
}

/// `s` followed by `t`, as a new string.
pub fn concat2(s: &str, t: &str) -> (res: String)
    ensures
        res@ == s@ + t@,
{
    let mut res = String::from_str(s);
    res.append(t);
    res
}

/// Whether `pat` occurs in `s` starting at position `i`.
pub open spec fn occurs_at(s: Seq<char>, pat: Seq<char>, i: int) -> bool {
    0 <= i && i + pat.len() <= s.len() && s.subrange(i, i + pat.len()) == pat
}

/// The first position at or after `i` where `pat` occurs in `s`.
pub open spec fn find_from(s: Seq<char>, pat: Seq<char>, i: nat) -> Option<nat>
    decreases s.len() + 1 - i,
{
    if i + pat.len() > s.len() {
        None
    } else if occurs_at(s, pat, i as int) {
        Some(i)
    } else {
        find_from(s, pat, i + 1)
    }
}

/// The first position where `pat` occurs in `s` (what `str::find` gives,
/// counted in characters).
pub open spec fn find_first(s: Seq<char>, pat: Seq<char>) -> Option<nat> {
    find_from(s, pat, 0)
}

/// `s` with every trailing `c` removed.
pub open spec fn trim_end_char(s: Seq<char>, c: char) -> Seq<char>
    decreases s.len(),
{
    if s.len() > 0 && s.last() == c {
        trim_end_char(s.drop_last(), c)
    } else {
        s
    }
}

/// `s` with every leading `c` removed.
pub open spec fn trim_start_char(s: Seq<char>, c: char) -> Seq<char>
    decreases s.len(),
{
    if s.len() > 0 && s[0] == c {
        trim_start_char(s.drop_first(), c)
    } else {
        s
    }
}

/// Whether `s` ends with `suffix`.
pub open spec fn ends_with(s: Seq<char>, suffix: Seq<char>) -> bool {
    suffix.len() <= s.len() && s.subrange(s.len() - suffix.len(), s.len() as int) == suffix
}

/// `s` with `suffix` removed from its end as many times as it occurs there
/// (what `str::trim_end_matches` does with a non-empty string pattern).
pub open spec fn trim_end_suffix(s: Seq<char>, suffix: Seq<char>) -> Seq<char>
    decreases s.len(),
{
    if suffix.len() > 0 && ends_with(s, suffix) {
        trim_end_suffix(s.subrange(0, s.len() - suffix.len()), suffix)
    } else {
        s
    }
}

/// Whether `c` occurs in `s`.
pub open spec fn has_char(s: Seq<char>, c: char) -> bool {
    exists|i: int| 0 <= i < s.len() && s[i] == c
}

/// The part of `s` after its last `c`, or all of `s` when `c` does not occur.
pub open spec fn after_last(s: Seq<char>, c: char) -> Seq<char>
    decreases s.len(),
{
    if s.len() == 0 {
        s
    } else if s.last() == c {
        Seq::empty()
    } else {
        after_last(s.drop_last(), c).push(s.last())
    }
}

/// The elements of `items` joined by `sep`.
pub open spec fn join(items: Seq<Seq<char>>, sep: Seq<char>) -> Seq<char>
    decreases items.len(),
{
    if items.len() == 0 {
        Seq::empty()
    } else if items.len() == 1 {
        items[0]
    } else {
        join(items.drop_last(), sep) + sep + items.last()
    }
}

/// The views of a vector of strings.
pub open spec fn views(v: Seq<String>) -> Seq<Seq<char>> {
    v.map_values(|s: String| s@)
}

/// The strings of `items` joined by `sep` (`[String]::join`).
pub fn join_strings(items: &Vec<String>, sep: &str) -> (res: String)
    ensures
        res@ == join(views(items@), sep@),
{
    let mut res = String::new();
    let ghost all = views(items@);
    let mut i: usize = 0;
    while i < items.len()
        invariant
            i <= items@.len(),
            all == views(items@),
            res@ == join(all.take(i as int), sep@),
        decreases items@.len() - i,
    {
        if i != 0 {
            res.append(sep);
        }
        res.append(items[i].as_str());
        assert(all.take(i + 1).drop_last() =~= all.take(i as int));
        i = i + 1;
    }
    assert(all.take(items@.len() as int) =~= all);
    res
}

/// The decimal digits of `n`.
pub open spec fn decimal(n: nat) -> Seq<char>
    decreases n,
{
    if n < 10 {
        seq![digit_char(n)]
    } else {
        decimal(n / 10).push(digit_char(n % 10))
    }
}

/// The character of a decimal digit.
pub open spec fn digit_char(d: nat) -> char {
    if d == 0 { '0' }
    else if d == 1 { '1' }
    else if d == 2 { '2' }
    else if d == 3 { '3' }
    else if d == 4 { '4' }
    else if d == 5 { '5' }
    else if d == 6 { '6' }
    else if d == 7 { '7' }
    else if d == 8 { '8' }
    else { '9' }
}

fn digit(d: u64) -> (c: char)
    requires
        d < 10,
    ensures
        c == digit_char(d as nat),
{
    if d == 0 { '0' }
    else if d == 1 { '1' }
    else if d == 2 { '2' }
    else if d == 3 { '3' }
    else if d == 4 { '4' }
    else if d == 5 { '5' }
    else if d == 6 { '6' }
    else if d == 7 { '7' }
    else if d == 8 { '8' }
    else { '9' }
}

/// Appends the decimal digits of `n` to `s` (as `{}` formats an unsigned integer).
pub fn push_decimal(s: &mut String, n: u64)
    ensures
        final(s)@ == old(s)@ + decimal(n as nat),
    decreases n,
{
    if n < 10 {
        push_char(s, digit(n));
        assert(old(s)@.push(digit_char(n as nat)) =~= old(s)@ + decimal(n as nat));
    } else {
        push_decimal(s, n / 10);
        push_char(s, digit(n % 10));
        assert(old(s)@ + decimal((n / 10) as nat) + seq![digit_char((n % 10) as nat)]
            =~= old(s)@ + decimal(n as nat));
    }
}


/// Whether two character vectors hold the same characters.
pub fn chars_equal(a: &Vec<char>, b: &Vec<char>) -> (res: bool)
    ensures
        res == (a@ == b@),
{
    if a.len() != b.len() {
        return false;
    }
    let mut i: usize = 0;
    while i < a.len()
        invariant
            i <= a@.len(),
            a@.len() == b@.len(),
            forall|j: int| 0 <= j < i ==> a@[j] == b@[j],
        decreases a@.len() - i,
    {
        if a[i] != b[i] {
            return false;
        }
        i = i + 1;
    }
    assert(a@ =~= b@);
    true
}

/// Whether two strings hold the same characters (`==` on `str`).
pub fn str_eq(a: &str, b: &str) -> (res: bool)
    ensures
        res == (a@ == b@),
{
    let ca = to_chars(a);
    let cb = to_chars(b);
    chars_equal(&ca, &cb)
}

/// `s` is what precedes its part after the last `c`, then that part; the part
/// holds no `c`, and is preceded by `c` when it is not all of `s`.
pub proof fn lemma_after_last_split(s: Seq<char>, c: char)
    ensures
        s == s.subrange(0, s.len() - after_last(s, c).len()) + after_last(s, c),
        !has_char(after_last(s, c), c),
        after_last(s, c).len() < s.len() ==> s[s.len() - after_last(s, c).len() - 1] == c,
    decreases s.len(),
{
    if s.len() > 0 && s.last() != c {
        lemma_after_last_split(s.drop_last(), c);
        let a = after_last(s.drop_last(), c);
        let d = s.drop_last();
        assert(d == d.subrange(0, d.len() - a.len()) + a);
        assert(after_last(s, c) == a.push(s.last()));
        assert(s.subrange(0, s.len() - a.len() - 1) =~= d.subrange(0, d.len() - a.len()));
        let p = d.subrange(0, d.len() - a.len());
        assert(s =~= d.push(s.last()));
        assert((p + a).push(s.last()) =~= p + a.push(s.last()));
        if a.len() < d.len() {
            assert(s[s.len() - a.len() - 2] == d[d.len() - a.len() - 1]);
        }
        assert forall|i: int| 0 <= i < a.push(s.last()).len() implies a.push(s.last())[i] != c by {
            if i < a.len() {
                assert(a.push(s.last())[i] == a[i]);
            }
        }
    } else if s.len() > 0 {
        assert(s =~= s.subrange(0, s.len() as int) + Seq::<char>::empty());
    } else {
        assert(s =~= s.subrange(0, 0) + s);
    }
}

/// The part after the last `/` of `prefix + "/" + n`, when `n` holds no `/`,
/// is `n`.
pub proof fn lemma_after_last_component(prefix: Seq<char>, n: Seq<char>)
    requires
        !has_char(n, '/'),
    ensures
        after_last(prefix + seq!['/'] + n, '/') == n,
    decreases n.len(),
{
    let x = prefix + seq!['/'] + n;
    if n.len() == 0 {
        assert(x.last() == '/');
    } else {
        assert(x.last() == n.last());
        assert(n[n.len() - 1] != '/');
        assert(x.drop_last() =~= prefix + seq!['/'] + n.drop_last());
        assert forall|i: int| 0 <= i < n.drop_last().len() implies n.drop_last()[i] != '/' by {
            assert(n.drop_last()[i] == n[i]);
        }
        lemma_after_last_component(prefix, n.drop_last());
        assert(n.drop_last().push(n.last()) =~= n);
    }
}

/// Trimming trailing `c` characters gives a prefix that does not end with `c`.
pub proof fn lemma_trim_end_char(s: Seq<char>, c: char)
    ensures
        trim_end_char(s, c).len() <= s.len(),
        trim_end_char(s, c) == s.take(trim_end_char(s, c).len() as int),
        trim_end_char(s, c).len() > 0 ==> trim_end_char(s, c).last() != c,
    decreases s.len(),
{
    if s.len() > 0 && s.last() == c {
        lemma_trim_end_char(s.drop_last(), c);
        let t = trim_end_char(s.drop_last(), c);
        assert(s.drop_last().take(t.len() as int) =~= s.take(t.len() as int));
    } else {
        assert(s.take(s.len() as int) =~= s);
    }
}

/// Trimming leading `c` characters gives a suffix that does not start with `c`.
pub proof fn lemma_trim_start_char(s: Seq<char>, c: char)
    ensures
        trim_start_char(s, c).len() <= s.len(),
        trim_start_char(s, c) == s.skip(s.len() - trim_start_char(s, c).len()),
        trim_start_char(s, c).len() > 0 ==> trim_start_char(s, c)[0] != c,
    decreases s.len(),
{
    if s.len() > 0 && s[0] == c {
        lemma_trim_start_char(s.drop_first(), c);
        let t = trim_start_char(s.drop_first(), c);
        assert(s.drop_first().skip(s.drop_first().len() - t.len()) =~= s.skip(s.len() - t.len()));
    } else {
        assert(s.skip(0) =~= s);
    }
}

/// The digits of an integer as `{}` and `{:?}` format it: a `-` before
/// negative numbers.
pub open spec fn signed_decimal(n: int) -> Seq<char> {
    if n < 0 {
        seq!['-'] + decimal((-n) as nat)
    } else {
        decimal(n as nat)
    }
}

/// Appends the decimal form of a signed integer to `s`.
pub fn push_signed_decimal(s: &mut String, n: i32)
    ensures
        final(s)@ == old(s)@ + signed_decimal(n as int),
{
    if n < 0 {
        push_char(s, '-');
        let m: i64 = -(n as i64);
        push_decimal(s, m as u64);
        assert(old(s)@.push('-') + decimal(m as nat) =~= old(s)@ + (seq!['-'] + decimal((-n) as nat)));
    } else {
        push_decimal(s, n as u64);
    }
}

/// The text that `{:?}` gives for a list of strings; std's `Debug` output
/// (quoted, escaped items between brackets) is not spelled out here.
pub uninterp spec fn debug_string_list(items: Seq<Seq<char>>) -> Seq<char>;

/// A character that `{:?}` of a string shows as itself: printable ASCII
/// other than `"` and `\`.
pub open spec fn plain_char(c: char) -> bool {
    0x20 <= (c as u32) <= 0x7E && c != '"' && c != '\\'
}

/// Whether every character of every item is plain.
pub open spec fn plain_strings(items: Seq<Seq<char>>) -> bool {
    forall|i: int, j: int| 0 <= i < items.len() && 0 <= j < items[i].len() ==> plain_char(#[trigger] items[i][j])
}

/// The items in double quotes, separated by `, `, between brackets: the
/// `{:?}` text of a list of plain strings.
pub open spec fn quoted_list(items: Seq<Seq<char>>) -> Seq<char> {
    seq!['['] + join(items.map_values(|s: Seq<char>| seq!['"'] + s + seq!['"']), ", "@) + seq![']']
}

/// `format!("{:?}", items)` for a list of strings.
/// Trusted: the result is std's `Debug` text of the list, which depends on the
/// strings alone and is named; for strings of plain characters, which `Debug`
/// leaves unescaped, the contract also spells it out. For other strings the
/// escaping is not spelled out.
#[verifier::external_body]
pub(crate) fn debug_list(items: &Vec<String>) -> (res: String)
    ensures
        res@ == debug_string_list(views(items@)),
        plain_strings(views(items@)) ==> res@ == quoted_list(views(items@)),
{
    format!("{:?}", items)
}

/// What `find_from` finds is an occurrence at or after `i`.
pub proof fn lemma_find_from_occurs(s: Seq<char>, pat: Seq<char>, i: nat)
    ensures
        find_from(s, pat, i) matches Some(j) ==> j >= i && occurs_at(s, pat, j as int),
    decreases s.len() + 1 - i,
{
    if i + pat.len() <= s.len() && !occurs_at(s, pat, i as int) {
        lemma_find_from_occurs(s, pat, i + 1);
    }
}

/// Whether `s` is non-empty and ends with `c`.
pub open spec fn ends_with_char(s: Seq<char>, c: char) -> bool {
    s.len() > 0 && s.last() == c
}

/// The first position where `pat` occurs in `s`, counted in characters.
pub fn find_chars(s: &Vec<char>, pat: &Vec<char>) -> (res: Option<usize>)
    ensures
        match res {
            Some(i) => find_first(s@, pat@) == Some(i as nat),
            None => find_first(s@, pat@) is None,
        },
{
    if pat.len() > s.len() {
        return None;
    }
    let n = s.len();
    let last = s.len() - pat.len();
    let mut i: usize = 0;
    while i <= last
        invariant
            n == s@.len(),
            last + pat@.len() == n,
            pat@.len() <= s@.len(),
            i <= last + 1,
            find_first(s@, pat@) == find_from(s@, pat@, i as nat),
        decreases s@.len() + 1 - i,
    {
        let mut k: usize = 0;
        let mut matched = true;
        while k < pat.len()
            invariant
                n == s@.len(),
                i + pat@.len() <= s@.len(),
                k <= pat@.len(),
                matched == (forall|m: int| 0 <= m < k ==> s@[i + m] == pat@[m]),
            decreases pat@.len() - k,
        {
            if s[i + k] != pat[k] {
                matched = false;
            }
            k = k + 1;
        }
        proof {
            if matched {
                assert(s@.subrange(i as int, i + pat@.len()) =~= pat@);
            } else {
                let m = choose|m: int| 0 <= m < pat@.len() && s@[i + m] != pat@[m];
                assert(s@.subrange(i as int, i + pat@.len())[m] != pat@[m]);
            }
        }
        if matched {
            return Some(i);
        }
        i = i + 1;
    }
    None
}

} // verus!
