//! Strings as sequences of characters: conversion between `str` and
//! `Vec<char>`, and literal substring replacement.

use vstd::prelude::*;

verus! {

/// `String::push` appends exactly one character to the end of the string.
pub assume_specification[ String::push ](s: &mut String, c: char)
    ensures
        final(s)@ == old(s)@.push(c),
;

/// The views of a sequence of strings, element by element.
pub open spec fn views(lines: Seq<String>) -> Seq<Seq<char>> {
    Seq::new(lines.len(), |i: int| lines[i]@)
}

/// The views of a sequence of character vectors, element by element.
pub open spec fn char_views(lines: Seq<Vec<char>>) -> Seq<Seq<char>> {
    Seq::new(lines.len(), |i: int| lines[i]@)
}

/// Whether `pat` occurs in `s` at index `at`.
pub open spec fn occurs(s: Seq<char>, at: int, pat: Seq<char>) -> bool {
    0 <= at && at + pat.len() <= s.len() && s.subrange(at, at + pat.len()) == pat
}

/// `s` with every occurrence of `pat` replaced by `with`, scanning from the
/// left; occurrences do not overlap and the replacement text is not scanned
/// again. An empty pattern occurs nowhere.
pub open spec fn replace_all(s: Seq<char>, pat: Seq<char>, with: Seq<char>) -> Seq<char>
    decreases s.len(),
{
    if pat.len() == 0 || s.len() < pat.len() {
        s
    } else if s.subrange(0, pat.len() as int) == pat {
        with + replace_all(s.subrange(pat.len() as int, s.len() as int), pat, with)
    } else {
        seq![s[0]] + replace_all(s.subrange(1, s.len() as int), pat, with)
    }
}

/// A text in which the pattern occurs nowhere stays as it is.
pub proof fn lemma_replace_all_without_occurrence(s: Seq<char>, pat: Seq<char>, with: Seq<char>)
    requires
        forall|at: int| !occurs(s, at, pat),
    ensures
        replace_all(s, pat, with) == s,
    decreases s.len(),
{
    if pat.len() > 0 && s.len() >= pat.len() {
        let tail = s.subrange(1, s.len() as int);
        assert forall|at: int| !occurs(tail, at, pat) by {
            if 0 <= at && at + pat.len() <= tail.len() {
                assert(tail.subrange(at, at + pat.len()) =~= s.subrange(
                    at + 1,
                    at + 1 + pat.len(),
                ));
                assert(!occurs(s, at + 1, pat));
            }
        }
        lemma_replace_all_without_occurrence(tail, pat, with);
        assert(!occurs(s, 0, pat));
        assert(seq![s[0]] + tail =~= s);
    }
}

/// The characters of `s`, in order.
pub fn to_chars(s: &str) -> (v: Vec<char>)
    ensures
        v@ == s@,
{
    let mut v: Vec<char> = Vec::new();
    for c in it: s.chars()
        invariant
            it.seq() == s@,
            v@ == it.seq().take(it.index()),
    {
        v.push(c);
    }
    v
}

/// The string made of the characters of `v`, in order.
pub fn from_chars(v: &Vec<char>) -> (s: String)
    ensures
        s@ == v@,
{
    let mut s = String::new();
    let mut i: usize = 0;
    while i < v.len()
        invariant
            i <= v.len(),
            s@ == v@.take(i as int),
        decreases v.len() - i,
    {
        s.push(v[i]);
        i += 1;
    }
    s
}

/// The strings made of the character vectors of `lines`, in order.
pub fn strings_from(lines: &Vec<Vec<char>>) -> (out: Vec<String>)
    ensures
        views(out@) == char_views(lines@),
{
    let mut out: Vec<String> = Vec::new();
    let mut i: usize = 0;
    while i < lines.len()
        invariant
            i <= lines.len(),
            views(out@) == char_views(lines@).take(i as int),
        decreases lines.len() - i,
    {
        let ghost before = views(out@);
        let line = from_chars(&lines[i]);
        out.push(line);
        assert(views(out@) =~= before.push(line@));
        assert(char_views(lines@).take(i + 1) =~= char_views(lines@).take(i as int).push(line@));
        i += 1;
    }
    assert(char_views(lines@).take(lines.len() as int) =~= char_views(lines@));
    out
}

/// Appends the characters of `tail` to `out`.
pub fn extend_chars(out: &mut Vec<char>, tail: &Vec<char>)
    ensures
        final(out)@ == old(out)@ + tail@,
{
    let mut i: usize = 0;
    while i < tail.len()
        invariant
            i <= tail.len(),
            out@ == old(out)@ + tail@.take(i as int),
        decreases tail.len() - i,
    {
        out.push(tail[i]);
        i += 1;
    }
}

/// Whether `pat` occurs in `s` at index `at`.
pub fn occurs_at(s: &Vec<char>, at: usize, pat: &Vec<char>) -> (b: bool)
    ensures
        b == occurs(s@, at as int, pat@),
{
    if at > s.len() || pat.len() > s.len() - at {
        return false;
    }
    let mut j: usize = 0;
    while j < pat.len()
        invariant
            at + pat.len() <= s.len(),
            j <= pat.len(),
            forall|k: int| 0 <= k < j ==> s@[at + k] == pat@[k],
        decreases pat.len() - j,
    {
        if s[at + j] != pat[j] {
            assert(s@.subrange(at as int, at + pat.len())[j as int] != pat@[j as int]);
            return false;
        }
        j += 1;
    }
    assert(s@.subrange(at as int, at + pat.len()) =~= pat@);
    true
}

/// Replaces every occurrence of `pat` in `s` by `with`, from the left. An
/// empty pattern occurs nowhere.
pub fn replace_chars(s: &Vec<char>, pat: &Vec<char>, with: &Vec<char>) -> (out: Vec<char>)
    ensures
        out@ == replace_all(s@, pat@, with@),
{
    let n = s.len();
    let m = pat.len();
    let mut out: Vec<char> = Vec::new();
    let mut i: usize = 0;
    assert(s@.subrange(0, n as int) =~= s@);
    while i < n
        invariant
            n == s.len(),
            m == pat.len(),
            i <= n,
            out@ + replace_all(s@.subrange(i as int, n as int), pat@, with@) == replace_all(
                s@,
                pat@,
                with@,
            ),
        decreases n - i,
    {
        let ghost rest = s@.subrange(i as int, n as int);
        if m > 0 && occurs_at(s, i, pat) {
            assert(rest.subrange(0, m as int) =~= s@.subrange(i as int, i + m));
            assert(rest.subrange(m as int, rest.len() as int) =~= s@.subrange(i + m, n as int));
            let ghost before = out@;
            extend_chars(&mut out, with);
            assert(out@ + replace_all(s@.subrange(i + m, n as int), pat@, with@) =~= before
                + replace_all(rest, pat@, with@));
            i += m;
        } else {
            assert(rest.subrange(1, rest.len() as int) =~= s@.subrange(i + 1, n as int));
            assert(rest.len() >= m ==> rest.subrange(0, m as int) =~= s@.subrange(
                i as int,
                i + m,
            ));
            let ghost before = out@;
            out.push(s[i]);
            assert(out@ + replace_all(s@.subrange(i + 1, n as int), pat@, with@) =~= before
                + replace_all(rest, pat@, with@)) by {
                if m == 0 || rest.len() < m {
                    let tail = s@.subrange(i + 1, n as int);
                    assert(replace_all(tail, pat@, with@) == tail);
                    assert(replace_all(rest, pat@, with@) == rest);
                }
            }
            i += 1;
        }
    }
    assert(out@ + Seq::<char>::empty() =~= out@);
    out
}

} // verus!
