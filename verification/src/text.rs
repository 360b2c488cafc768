//! Character-level text utilities shared by the parsing and encoding
//! modules: conversion between `String` and `Vec<char>`, prefix tests,
//! searching, and slicing, each with an exact contract over `Seq<char>`.

use vstd::prelude::*;
use vstd::std_specs::iter::IteratorSpec;

verus! {

/// Collects the characters of a string slice into a vector, in order.
pub fn chars_of(s: &str) -> (r: Vec<char>)
    ensures
        r@ == s@,
{
    broadcast use vstd::string::group_string_axioms;
    broadcast use vstd::string::next_postcondition;
    broadcast use vstd::string::axiom_spec_iter;

    let mut it = s.chars();
    let mut v: Vec<char> = Vec::new();
    loop
        invariant
            it.obeys_prophetic_iter_laws(),
            it.decrease() is Some,
            v@ + vstd::std_specs::iter::IteratorSpec::remaining(&it) == s@,
        decreases it.decrease()->0,
    {
        match it.next() {
            Some(c) => {
                v.push(c);
            },
            None => {
                return v;
            },
        }
    }
}

/// Relies on `String`'s `FromIterator<char>`: collecting yields exactly
/// the characters of the vector, in order.
#[verifier::external_body]
pub fn string_from_chars(v: &Vec<char>) -> (s: String)
    ensures
        s@ == v@,
{
    v.iter().collect()
}

/// True when `v` begins with `p`.
pub open spec fn spec_starts_with(v: Seq<char>, p: Seq<char>) -> bool {
    p.len() <= v.len() && v.subrange(0, p.len() as int) == p
}

pub fn starts_with_chars(v: &Vec<char>, p: &Vec<char>) -> (r: bool)
    ensures
        r == spec_starts_with(v@, p@),
{
    if p.len() > v.len() {
        assert(!spec_starts_with(v@, p@));
        return false;
    }
    let mut i: usize = 0;
    while i < p.len()
        invariant
            i <= p.len() <= v.len(),
            forall|j: int| 0 <= j < i ==> v@[j] == p@[j],
        decreases p.len() - i,
    {
        if v[i] != p[i] {
            assert(v@.subrange(0, p@.len() as int)[i as int] != p@[i as int]);
            return false;
        }
        i = i + 1;
    }
    assert(v@.subrange(0, p@.len() as int) =~= p@);
    true
}

pub fn eq_chars(a: &Vec<char>, b: &Vec<char>) -> (r: bool)
    ensures
        r == (a@ == b@),
{
    if a.len() != b.len() {
        return false;
    }
    let mut i: usize = 0;
    while i < a.len()
        invariant
            i <= a.len() == b.len(),
            forall|j: int| 0 <= j < i ==> a@[j] == b@[j],
        decreases a.len() - i,
    {
        if a[i] != b[i] {
            return false;
        }
        i = i + 1;
    }
    assert(a@ =~= b@);
    true
}

/// Copies the characters of `v` in positions `from..to` into a new vector.
pub fn subvec(v: &Vec<char>, from: usize, to: usize) -> (r: Vec<char>)
    requires
        from <= to <= v@.len(),
    ensures
        r@ == v@.subrange(from as int, to as int),
{
    let mut r: Vec<char> = Vec::new();
    let mut i: usize = from;
    while i < to
        invariant
            from <= i <= to <= v@.len(),
            r@ == v@.subrange(from as int, i as int),
        decreases to - i,
    {
        r.push(v[i]);
        assert(r@ =~= v@.subrange(from as int, (i + 1) as int));
        i = i + 1;
    }
    r
}

/// Appends the characters of `src` to `dst`.
pub fn append_chars(dst: &mut Vec<char>, src: &Vec<char>)
    ensures
        final(dst)@ == old(dst)@ + src@,
{
    let mut i: usize = 0;
    while i < src.len()
        invariant
            i <= src@.len(),
            dst@ == old(dst)@ + src@.subrange(0, i as int),
        decreases src.len() - i,
    {
        dst.push(src[i]);
        assert(dst@ =~= old(dst)@ + src@.subrange(0, (i + 1) as int));
        i = i + 1;
    }
    assert(dst@ =~= old(dst)@ + src@);
}

/// Index of the first occurrence of `c` in `v` at or after `from`.
pub open spec fn spec_find_char(v: Seq<char>, c: char, from: int) -> Option<int>
    decreases v.len() - from,
{
    if from < 0 || from >= v.len() {
        None
    } else if v[from] == c {
        Some(from)
    } else {
        spec_find_char(v, c, from + 1)
    }
}

pub fn find_char(v: &Vec<char>, c: char, from: usize) -> (r: Option<usize>)
    ensures
        match r {
            Some(i) => from <= i < v@.len() && spec_find_char(v@, c, from as int) == Some(i as int),
            None => spec_find_char(v@, c, from as int) is None,
        },
{
    let mut i: usize = from;
    while i < v.len()
        invariant
            from <= i,
            spec_find_char(v@, c, from as int) == spec_find_char(v@, c, i as int),
        decreases v.len() - i,
    {
        if v[i] == c {
            return Some(i);
        }
        i = i + 1;
    }
    None
}

/// Lexicographic order on character sequences, by code point.
pub open spec fn lex_le(a: Seq<char>, b: Seq<char>) -> bool
    decreases a.len(),
{
    if a.len() == 0 {
        true
    } else if b.len() == 0 {
        false
    } else if (a[0] as u32) == (b[0] as u32) {
        lex_le(a.drop_first(), b.drop_first())
    } else {
        (a[0] as u32) < (b[0] as u32)
    }
}

/// Any two character sequences are ordered one way or the other.
pub proof fn lemma_lex_le_total(a: Seq<char>, b: Seq<char>)
    ensures
        lex_le(a, b) || lex_le(b, a),
    decreases a.len(),
{
    if a.len() > 0 && b.len() > 0 && (a[0] as u32) == (b[0] as u32) {
        lemma_lex_le_total(a.drop_first(), b.drop_first());
    }
}

pub fn lex_le_chars(a: &Vec<char>, b: &Vec<char>) -> (r: bool)
    ensures
        r == lex_le(a@, b@),
{
    let mut i: usize = 0;
    proof {
        assert(a@.skip(0) =~= a@);
        assert(b@.skip(0) =~= b@);
    }
    loop
        invariant
            i <= a@.len(),
            i <= b@.len(),
            lex_le(a@, b@) == lex_le(a@.skip(i as int), b@.skip(i as int)),
        decreases a@.len() - i,
    {
        if i >= a.len() {
            assert(a@.skip(i as int).len() == 0);
            return true;
        }
        if i >= b.len() {
            assert(b@.skip(i as int).len() == 0 && a@.skip(i as int).len() > 0);
            return false;
        }
        let ca = a[i];
        let cb = b[i];
        assert(a@.skip(i as int)[0] == a@[i as int]);
        assert(b@.skip(i as int)[0] == b@[i as int]);
        if (ca as u32) == (cb as u32) {
            assert(a@.skip(i as int).drop_first() =~= a@.skip(i as int + 1));
            assert(b@.skip(i as int).drop_first() =~= b@.skip(i as int + 1));
            i = i + 1;
        } else {
            return (ca as u32) < (cb as u32);
        }
    }
}

/// What `spec_find_char` returns is the first hit: nothing before it
/// matches, and the hit itself does.
pub proof fn lemma_find_char_properties(v: Seq<char>, c: char, from: int)
    requires
        0 <= from <= v.len(),
    ensures
        match spec_find_char(v, c, from) {
            Some(i) => from <= i < v.len() && v[i] == c && forall|j: int|
                from <= j < i ==> v[j] != c,
            None => forall|j: int| from <= j < v.len() ==> v[j] != c,
        },
    decreases v.len() - from,
{
    if from < v.len() && v[from] != c {
        lemma_find_char_properties(v, c, from + 1);
    }
}

/// Searching a suffix finds the same position, shifted.
pub proof fn lemma_find_char_skip(s: Seq<char>, c: char, k: int, j: int)
    requires
        0 <= k <= s.len(),
        0 <= j,
    ensures
        spec_find_char(s.skip(k), c, j) == match spec_find_char(s, c, k + j) {
            Some(i) => Some(i - k),
            None => None::<int>,
        },
    decreases s.len() - j - k,
{
    if k + j < s.len() {
        assert(s.skip(k)[j] == s[k + j]);
        if s[k + j] != c {
            lemma_find_char_skip(s, c, k, j + 1);
        }
    }
}

/// Index of the first occurrence of `pat` in `v` at or after `from`.
pub open spec fn spec_find_seq(v: Seq<char>, pat: Seq<char>, from: int) -> Option<int>
    decreases v.len() - from,
{
    if from < 0 || from + pat.len() > v.len() {
        None
    } else if v.subrange(from, from + pat.len() as int) == pat {
        Some(from)
    } else if from >= v.len() {
        None
    } else {
        spec_find_seq(v, pat, from + 1)
    }
}

fn match_at(v: &Vec<char>, pat: &Vec<char>, at: usize) -> (r: bool)
    requires
        at + pat@.len() <= v@.len(),
    ensures
        r == (v@.subrange(at as int, at as int + pat@.len() as int) == pat@),
{
    let n = v.len();
    let mut i: usize = 0;
    while i < pat.len()
        invariant
            i <= pat@.len(),
            n == v@.len(),
            at + pat@.len() <= v@.len(),
            forall|j: int| 0 <= j < i ==> v@[at + j] == pat@[j],
        decreases pat.len() - i,
    {
        proof {
            assert(at + i < n);
        }
        if v[at + i] != pat[i] {
            assert(v@.subrange(at as int, at as int + pat@.len() as int)[i as int] != pat@[i as int]);
            return false;
        }
        i = i + 1;
    }
    assert(v@.subrange(at as int, at as int + pat@.len() as int) =~= pat@);
    true
}

pub fn find_seq(v: &Vec<char>, pat: &Vec<char>, from: usize) -> (r: Option<usize>)
    requires
        from <= v@.len(),
    ensures
        match r {
            Some(i) => from <= i && i + pat@.len() <= v@.len() && spec_find_seq(
                v@,
                pat@,
                from as int,
            ) == Some(i as int),
            None => spec_find_seq(v@, pat@, from as int) is None,
        },
{
    let n = v.len();
    let m = pat.len();
    if m == 0 {
        proof {
            assert(v@.subrange(from as int, from as int) =~= pat@);
        }
        return Some(from);
    }
    let mut i: usize = from;
    while i <= n && n - i >= m
        invariant
            from <= i,
            i <= n + 1,
            n == v@.len(),
            m == pat@.len(),
            m >= 1,
            spec_find_seq(v@, pat@, from as int) == spec_find_seq(v@, pat@, i as int),
        decreases n + 1 - i,
    {
        if match_at(v, pat, i) {
            return Some(i);
        }
        i = i + 1;
    }
    None
}

/// A position that matches, with nothing matching before it, is what
/// `spec_find_char` returns.
pub proof fn lemma_find_char_unique(v: Seq<char>, c: char, from: int, i: int)
    requires
        0 <= from <= i < v.len(),
        v[i] == c,
        forall|j: int| from <= j < i ==> v[j] != c,
    ensures
        spec_find_char(v, c, from) == Some(i),
    decreases i - from,
{
    if from < i {
        lemma_find_char_unique(v, c, from + 1, i);
    }
}

} // verus!
