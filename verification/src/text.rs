//! Character-level helpers: conversion between strings and vectors of
//! characters, literal substring replacement, and the entity unescaper.

use vstd::prelude::*;

verus! {

/// `String::push` of the standard library appends the character to the end
/// of the string. Not proved: taken from its documentation.
pub assume_specification[ String::push ](s: &mut String, ch: char)
    ensures
        final(s)@ == old(s)@.push(ch),
;

/// The characters of `s`, in order.
pub fn chars_of(s: &str) -> (v: Vec<char>)
    ensures
        v@ == s@,
{
    let mut v: Vec<char> = Vec::new();
    for c in it: s.chars()
        invariant
            v@ == it.seq().take(it.index() as int),
    {
        v.push(c);
    }
    v
}

/// The string made of the characters of `v`, in order.
pub fn string_of(v: &Vec<char>) -> (s: String)
    ensures
        s@ == v@,
{
    let mut s = String::new();
    let mut i: usize = 0;
    while i < v.len()
        invariant
            i <= v.len(),
            s@ == v@.take(i as int),
        decreases v.len() - i,
    {
        s.push(v[i]);
        i += 1;
    }
    s
}

/// Appends the characters of `more` to `out`.
pub fn append_chars(out: &mut Vec<char>, more: &Vec<char>)
    ensures
        final(out)@ == old(out)@ + more@,
{
    let mut j: usize = 0;
    while j < more.len()
        invariant
            j <= more.len(),
            out@ == old(out)@ + more@.take(j as int),
        decreases more.len() - j,
    {
        out.push(more[j]);
        j += 1;
    }
}

/// Whether `pat` occurs in `s` starting at offset `i`.
pub open spec fn occurs_at(s: Seq<char>, pat: Seq<char>, i: int) -> bool {
    0 <= i && i + pat.len() <= s.len() && s.subrange(i, i + pat.len()) == pat
}

/// `s` with every occurrence of `from` replaced by `to`, found in a single
/// scan from left to right: an occurrence is replaced where the scan meets
/// it, the scan goes on behind it, and what was put in is not scanned again.
/// An empty pattern occurs nowhere.
pub open spec fn replaced(s: Seq<char>, from: Seq<char>, to: Seq<char>) -> Seq<char>
    decreases s.len(),
{
    if from.len() == 0 || s.len() < from.len() {
        s
    } else if occurs_at(s, from, 0) {
        to + replaced(s.skip(from.len() as int), from, to)
    } else {
        seq![s[0]] + replaced(s.skip(1), from, to)
    }
}

/// The text with the four escaped entities turned back into their
/// characters: one pass for `&amp;`, then one for `&quot;`, one for `&lt;`
/// and one for `&gt;`, each over the result of the pass before it.
pub open spec fn unescaped(s: Seq<char>) -> Seq<char> {
    replaced(
        replaced(replaced(replaced(s, "&amp;"@, "&"@), "&quot;"@, "\""@), "&lt;"@, "<"@),
        "&gt;"@,
        ">"@,
    )
}

fn matches_at(s: &Vec<char>, pat: &Vec<char>, i: usize) -> (b: bool)
    requires
        i <= s.len(),
    ensures
        b == occurs_at(s@, pat@, i as int),
{
    if pat.len() > s.len() - i {
        return false;
    }
    let mut j: usize = 0;
    while j < pat.len()
        invariant
            j <= pat.len(),
            i + pat.len() <= s.len(),
            forall|k: int| 0 <= k < j ==> s@[i + k] == pat@[k],
        decreases pat.len() - j,
    {
        if s[i + j] != pat[j] {
            return false;
        }
        j += 1;
    }
    assert(s@.subrange(i as int, i + pat.len()) =~= pat@);
    true
}

fn replace_chars(s: &Vec<char>, from: &Vec<char>, to: &Vec<char>) -> (r: Vec<char>)
    ensures
        r@ == replaced(s@, from@, to@),
{
    let mut out: Vec<char> = Vec::new();
    if from.len() == 0 {
        append_chars(&mut out, s);
        return out;
    }
    let mut i: usize = 0;
    assert(s@.skip(0) =~= s@);
    while i < s.len()
        invariant
            i <= s.len(),
            from.len() > 0,
            out@ + replaced(s@.skip(i as int), from@, to@) == replaced(s@, from@, to@),
        decreases s.len() - i,
    {
        let ghost rest = s@.skip(i as int);
        proof {
            // the pattern occurs at the head of what is left where it occurs at `i`
            if i + from.len() <= s.len() {
                assert(rest.subrange(0, from.len() as int) =~= s@.subrange(
                    i as int,
                    i + from.len(),
                ));
            }
        }
        if matches_at(s, from, i) {
            assert(rest.skip(from.len() as int) =~= s@.skip(i + from.len()));
            append_chars(&mut out, to);
            i += from.len();
        } else {
            assert(rest.skip(1) =~= s@.skip(i + 1));
            out.push(s[i]);
            i += 1;
        }
    }
    out
}

/// Replaces every occurrence of `from` in `s` by `to`, in one scan from
/// left to right.
pub fn replace(s: &str, from: &str, to: &str) -> (r: String)
    ensures
        r@ == replaced(s@, from@, to@),
{
    let out = replace_chars(&chars_of(s), &chars_of(from), &chars_of(to));
    string_of(&out)
}

/// Turns the escaped entities `&amp;`, `&quot;`, `&lt;` and `&gt;` back into
/// `&`, `"`, `<` and `>`. There is one pass per entity, in that order, and no
/// pass is repeated: `&amp;lt;` comes out as `<`, because the pass for `&lt;`
/// runs after the pass for `&amp;`, while `&lt;amp;` comes out as `<amp;`.
pub fn unescape(s: &str) -> (r: String)
    ensures
        r@ == unescaped(s@),
{
    let v0 = chars_of(s);
    let v1 = replace_chars(&v0, &chars_of("&amp;"), &chars_of("&"));
    let v2 = replace_chars(&v1, &chars_of("&quot;"), &chars_of("\""));
    let v3 = replace_chars(&v2, &chars_of("&lt;"), &chars_of("<"));
    let v4 = replace_chars(&v3, &chars_of("&gt;"), &chars_of(">"));
    string_of(&v4)
}

/// A pattern occurs nowhere in a text that lacks the pattern's first
/// character, so replacing it leaves the text as it is.
pub proof fn lemma_replaced_without_head(s: Seq<char>, from: Seq<char>, to: Seq<char>)
    requires
        from.len() > 0,
        !s.contains(from[0]),
    ensures
        replaced(s, from, to) == s,
    decreases s.len(),
{
    if s.len() >= from.len() {
        assert(forall|c: char| s.skip(1).contains(c) ==> s.contains(c));
        lemma_replaced_without_head(s.skip(1), from, to);
    }
}

/// Unescaping leaves a text without an ampersand unchanged.
pub proof fn lemma_unescaped_without_ampersand(s: Seq<char>)
    requires
        !s.contains('&'),
    ensures
        unescaped(s) == s,
{
    reveal_strlit("&amp;");
    reveal_strlit("&quot;");
    reveal_strlit("&lt;");
    reveal_strlit("&gt;");
    lemma_replaced_without_head(s, "&amp;"@, "&"@);
    lemma_replaced_without_head(s, "&quot;"@, "\""@);
    lemma_replaced_without_head(s, "&lt;"@, "<"@);
    lemma_replaced_without_head(s, "&gt;"@, ">"@);
}

/// The decimal digit for `d`.
pub open spec fn digit(d: nat) -> char {
    if d == 0 {
        '0'
    } else if d == 1 {
        '1'
    } else if d == 2 {
        '2'
    } else if d == 3 {
        '3'
    } else if d == 4 {
        '4'
    } else if d == 5 {
        '5'
    } else if d == 6 {
        '6'
    } else if d == 7 {
        '7'
    } else if d == 8 {
        '8'
    } else {
        '9'
    }
}

/// The number in decimal digits, without leading zeros.
pub open spec fn decimal(n: nat) -> Seq<char>
    decreases n,
{
    if n < 10 {
        seq![digit(n)]
    } else {
        decimal(n / 10).push(digit(n % 10))
    }
}

fn digit_of(d: usize) -> (c: char)
    requires
        d < 10,
    ensures
        c == digit(d as nat),
{
    match d {
        0 => '0',
        1 => '1',
        2 => '2',
        3 => '3',
        4 => '4',
        5 => '5',
        6 => '6',
        7 => '7',
        8 => '8',
        _ => '9',
    }
}

/// Appends the number to `out`, in decimal digits.
pub fn append_decimal(out: &mut String, n: usize)
    ensures
        final(out)@ == old(out)@ + decimal(n as nat),
    decreases n,
{
    if n >= 10 {
        append_decimal(out, n / 10);
    }
    out.push(digit_of(n % 10));
}

} // verus!
