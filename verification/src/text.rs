//! Text primitives on characters: conversion between strings and character
//! vectors, trimming, prefixes, splitting.
//!
//! A string is modelled by the sequence of its characters. The executable
//! functions work on character slices, so that cutting a piece out of a line
//! is cutting a subrange out of a sequence.
use vstd::prelude::*;
use vstd::slice::slice_subrange;

verus! {

/// `String::push` of the standard library: the character is appended.
pub assume_specification[ String::push ](s: &mut String, c: char)
    ensures
        final(s)@ == old(s)@.push(c),
;

/// The characters with the Unicode `White_Space` property.
pub open spec fn is_white_space(c: char) -> bool {
    ||| '\u{9}' <= c <= '\u{d}'
    ||| c == ' '
    ||| c == '\u{85}'
    ||| c == '\u{a0}'
    ||| c == '\u{1680}'
    ||| '\u{2000}' <= c <= '\u{200a}'
    ||| c == '\u{2028}'
    ||| c == '\u{2029}'
    ||| c == '\u{202f}'
    ||| c == '\u{205f}'
    ||| c == '\u{3000}'
}

/// Whether `c` is white space.
pub fn white_space(c: char) -> (r: bool)
    ensures
        r == is_white_space(c),
{
    ('\u{9}' <= c && c <= '\u{d}') || c == ' ' || c == '\u{85}' || c == '\u{a0}' || c == '\u{1680}'
        || ('\u{2000}' <= c && c <= '\u{200a}') || c == '\u{2028}' || c == '\u{2029}' || c
        == '\u{202f}' || c == '\u{205f}' || c == '\u{3000}'
}

/// The characters of `s`.
pub fn chars_of(s: &str) -> (v: Vec<char>)
    ensures
        v@ == s@,
{
    let mut v: Vec<char> = Vec::new();
    for c in it: s.chars()
        invariant
            v@ == it.seq().take(it.index() as int),
            it.seq() == s@,
    {
        v.push(c);
    }
    assert(s@.take(s@.len() as int) =~= s@);
    v
}

/// The string made of the characters `v`.
pub fn string_of(v: &[char]) -> (s: String)
    ensures
        s@ == v@,
{
    let mut s: String = String::new();
    let mut i: usize = 0;
    while i < v.len()
        invariant
            i <= v.len(),
            s@ == v@.take(i as int),
        decreases v.len() - i,
    {
        s.push(v[i]);
        i += 1;
        assert(v@.take(i as int) =~= v@.take(i - 1).push(v@[i - 1]));
    }
    assert(v@.take(v@.len() as int) =~= v@);
    s
}

/// Whether two strings hold the same characters.
pub fn same_text(a: &str, b: &str) -> (r: bool)
    ensures
        r == (a@ == b@),
{
    let x: Vec<char> = chars_of(a);
    let y: Vec<char> = chars_of(b);
    same_chars(x.as_slice(), y.as_slice())
}

/// Whether two character slices are equal.
pub fn same_chars(x: &[char], y: &[char]) -> (r: bool)
    ensures
        r == (x@ == y@),
{
    if x.len() != y.len() {
        return false;
    }
    let mut i: usize = 0;
    while i < x.len()
        invariant
            i <= x.len(),
            x.len() == y.len(),
            x@.take(i as int) == y@.take(i as int),
        decreases x.len() - i,
    {
        if x[i] != y[i] {
            assert(x@[i as int] != y@[i as int]);
            return false;
        }
        i += 1;
        assert(x@.take(i as int) =~= x@.take(i - 1).push(x@[i - 1]));
        assert(y@.take(i as int) =~= y@.take(i - 1).push(y@[i - 1]));
    }
    assert(x@.take(i as int) =~= x@);
    assert(y@.take(i as int) =~= y@);
    true
}

/// `s` without its leading white space.
pub open spec fn trim_start(s: Seq<char>) -> Seq<char>
    decreases s.len(),
{
    if s.len() > 0 && is_white_space(s[0]) {
        trim_start(s.drop_first())
    } else {
        s
    }
}

/// `s` without its trailing white space.
pub open spec fn trim_end(s: Seq<char>) -> Seq<char>
    decreases s.len(),
{
    if s.len() > 0 && is_white_space(s.last()) {
        trim_end(s.drop_last())
    } else {
        s
    }
}

/// `s` without the white space at both ends.
pub open spec fn trim(s: Seq<char>) -> Seq<char> {
    trim_end(trim_start(s))
}

/// `s` without trailing copies of `c`.
pub open spec fn trim_end_char(s: Seq<char>, c: char) -> Seq<char>
    decreases s.len(),
{
    if s.len() > 0 && s.last() == c {
        trim_end_char(s.drop_last(), c)
    } else {
        s
    }
}

/// Cuts the leading white space off.
pub fn trim_start_of<'a>(s: &'a [char]) -> (r: &'a [char])
    ensures
        r@ == trim_start(s@),
{
    let mut i: usize = 0;
    assert(s@.skip(0) =~= s@);
    while i < s.len() && white_space(s[i])
        invariant
            i <= s.len(),
            trim_start(s@.skip(i as int)) == trim_start(s@),
        decreases s.len() - i,
    {
        assert(s@.skip(i as int).drop_first() =~= s@.skip(i + 1));
        i += 1;
    }
    assert(s@.subrange(i as int, s@.len() as int) =~= s@.skip(i as int));
    slice_subrange(s, i, s.len())
}

/// Cuts the trailing white space off.
pub fn trim_end_of<'a>(s: &'a [char]) -> (r: &'a [char])
    ensures
        r@ == trim_end(s@),
{
    let mut n: usize = s.len();
    assert(s@.take(n as int) =~= s@);
    while n > 0 && white_space(s[n - 1])
        invariant
            n <= s.len(),
            trim_end(s@.take(n as int)) == trim_end(s@),
        decreases n,
    {
        assert(s@.take(n as int).drop_last() =~= s@.take(n - 1));
        n -= 1;
    }
    assert(s@.subrange(0, n as int) =~= s@.take(n as int));
    slice_subrange(s, 0, n)
}

/// Cuts the white space at both ends off.
pub fn trim_of<'a>(s: &'a [char]) -> (r: &'a [char])
    ensures
        r@ == trim(s@),
{
    trim_end_of(trim_start_of(s))
}

/// Cuts trailing copies of `c` off.
pub fn trim_end_char_of<'a>(s: &'a [char], c: char) -> (r: &'a [char])
    ensures
        r@ == trim_end_char(s@, c),
{
    let mut n: usize = s.len();
    assert(s@.take(n as int) =~= s@);
    while n > 0 && s[n - 1] == c
        invariant
            n <= s.len(),
            trim_end_char(s@.take(n as int), c) == trim_end_char(s@, c),
        decreases n,
    {
        assert(s@.take(n as int).drop_last() =~= s@.take(n - 1));
        n -= 1;
    }
    assert(s@.subrange(0, n as int) =~= s@.take(n as int));
    slice_subrange(s, 0, n)
}

/// Whether the text `s` is blank: empty or white space only.
pub fn is_blank(s: &str) -> (r: bool)
    ensures
        r == (trim(s@).len() == 0),
{
    let v: Vec<char> = chars_of(s);
    trim_of(v.as_slice()).len() == 0
}

/// What follows the prefix `p` in `s`, where `s` starts with it.
pub open spec fn strip_prefix(s: Seq<char>, p: Seq<char>) -> Option<Seq<char>> {
    if p.is_prefix_of(s) {
        Some(s.skip(p.len() as int))
    } else {
        None
    }
}

/// The view of an optional slice.
pub open spec fn opt_view(r: Option<&[char]>) -> Option<Seq<char>> {
    match r {
        Some(x) => Some(x@),
        None => None,
    }
}

/// Strips the prefix `p` off.
pub fn strip_prefix_of<'a>(s: &'a [char], p: &str) -> (r: Option<&'a [char]>)
    ensures
        opt_view(r) == strip_prefix(s@, p@),
{
    let q: Vec<char> = chars_of(p);
    if q.len() > s.len() {
        return None;
    }
    if same_chars(slice_subrange(s, 0, q.len()), q.as_slice()) {
        assert(s@.subrange(p@.len() as int, s@.len() as int) =~= s@.skip(p@.len() as int));
        Some(slice_subrange(s, q.len(), s.len()))
    } else {
        None
    }
}

/// The index of the first `c` in `s`, or the length of `s`.
pub open spec fn first_index(s: Seq<char>, c: char) -> int
    decreases s.len(),
{
    if s.len() == 0 || s[0] == c {
        0
    } else {
        1 + first_index(s.drop_first(), c)
    }
}

/// The index of the last `c` in `s`, or -1.
pub open spec fn last_index(s: Seq<char>, c: char) -> int
    decreases s.len(),
{
    if s.len() == 0 {
        -1
    } else if s.last() == c {
        s.len() - 1
    } else {
        last_index(s.drop_last(), c)
    }
}

/// The texts before and after the first `c`.
pub open spec fn split_once(s: Seq<char>, c: char) -> Option<(Seq<char>, Seq<char>)> {
    let i = first_index(s, c);
    if i < s.len() {
        Some((s.take(i), s.skip(i + 1)))
    } else {
        None
    }
}

/// The texts before and after the last `c`.
pub open spec fn rsplit_once(s: Seq<char>, c: char) -> Option<(Seq<char>, Seq<char>)> {
    let i = last_index(s, c);
    if i >= 0 {
        Some((s.take(i), s.skip(i + 1)))
    } else {
        None
    }
}

/// What `first_index` says: no `c` before it, and a `c` at it if it is in range.
pub proof fn lemma_first_index(s: Seq<char>, c: char)
    ensures
        0 <= first_index(s, c) <= s.len(),
        first_index(s, c) < s.len() ==> s[first_index(s, c)] == c,
        forall|j: int| 0 <= j < first_index(s, c) ==> s[j] != c,
    decreases s.len(),
{
    if s.len() == 0 || s[0] == c {
    } else {
        lemma_first_index(s.drop_first(), c);
        assert forall|j: int| 0 <= j < first_index(s, c) implies s[j] != c by {
            if j > 0 {
                assert(s[j] == s.drop_first()[j - 1]);
            }
        }
    }
}

/// `first_index` is the only index with that property.
pub proof fn lemma_first_index_at(s: Seq<char>, c: char, i: int)
    requires
        0 <= i < s.len(),
        s[i] == c,
        forall|j: int| 0 <= j < i ==> s[j] != c,
    ensures
        first_index(s, c) == i,
{
    lemma_first_index(s, c);
    let k = first_index(s, c);
    if k < i {
        assert(s[k] != c);
    } else if i < k {
        assert(s[i] != c);
    }
}

/// Splits at the first `c`.
pub fn split_once_of<'a>(s: &'a [char], c: char) -> (r: Option<(&'a [char], &'a [char])>)
    ensures
        match r {
            Some(p) => split_once(s@, c) == Some((p.0@, p.1@)),
            None => split_once(s@, c) is None,
        },
{
    let mut i: usize = 0;
    assert(s@.skip(0) =~= s@);
    while i < s.len()
        invariant
            i <= s.len(),
            first_index(s@, c) == i + first_index(s@.skip(i as int), c),
        decreases s.len() - i,
    {
        if s[i] == c {
            assert(s@.subrange(0, i as int) =~= s@.take(i as int));
            assert(s@.subrange(i + 1, s@.len() as int) =~= s@.skip(i + 1));
            return Some((slice_subrange(s, 0, i), slice_subrange(s, i + 1, s.len())));
        }
        assert(s@.skip(i as int).drop_first() =~= s@.skip(i + 1));
        i += 1;
    }
    None
}

/// Splits at the last `c`.
pub fn rsplit_once_of<'a>(s: &'a [char], c: char) -> (r: Option<(&'a [char], &'a [char])>)
    ensures
        match r {
            Some(p) => rsplit_once(s@, c) == Some((p.0@, p.1@)),
            None => rsplit_once(s@, c) is None,
        },
{
    let mut n: usize = s.len();
    assert(s@.take(n as int) =~= s@);
    while n > 0
        invariant
            n <= s.len(),
            last_index(s@, c) == last_index(s@.take(n as int), c),
        decreases n,
    {
        if s[n - 1] == c {
            assert(s@.take(n as int).last() == c);
            assert(s@.subrange(0, n - 1) =~= s@.take(n - 1));
            assert(s@.subrange(n as int, s@.len() as int) =~= s@.skip(n as int));
            return Some((slice_subrange(s, 0, n - 1), slice_subrange(s, n, s.len())));
        }
        assert(s@.take(n as int).drop_last() =~= s@.take(n - 1));
        n -= 1;
    }
    None
}

/// The number of leading characters that are not white space.
pub open spec fn word_len(s: Seq<char>) -> int
    decreases s.len(),
{
    if s.len() == 0 || is_white_space(s[0]) {
        0
    } else {
        1 + word_len(s.drop_first())
    }
}

/// Bounds of `word_len`, and that the word it measures is maximal.
pub proof fn lemma_word_len(s: Seq<char>)
    ensures
        0 <= word_len(s) <= s.len(),
        forall|j: int| 0 <= j < word_len(s) ==> !is_white_space(s[j]),
        word_len(s) < s.len() ==> is_white_space(s[word_len(s)]),
        s.len() > 0 && !is_white_space(s[0]) ==> word_len(s) > 0,
    decreases s.len(),
{
    if s.len() == 0 || is_white_space(s[0]) {
    } else {
        lemma_word_len(s.drop_first());
        assert forall|j: int| 0 <= j < word_len(s) implies !is_white_space(s[j]) by {
            if j > 0 {
                assert(s[j] == s.drop_first()[j - 1]);
            }
        }
    }
}

/// Leading white space is gone after `trim_start`, which only shortens.
pub proof fn lemma_trim_start(s: Seq<char>)
    ensures
        trim_start(s).len() <= s.len(),
        trim_start(s).len() > 0 ==> !is_white_space(trim_start(s)[0]),
        trim_start(s) == s.skip(s.len() - trim_start(s).len()),
    decreases s.len(),
{
    if s.len() > 0 && is_white_space(s[0]) {
        lemma_trim_start(s.drop_first());
        let t = trim_start(s);
        assert(s.skip(s.len() - t.len()) =~= s.drop_first().skip(s.drop_first().len() - t.len()));
    } else {
        assert(s.skip(0) =~= s);
    }
}

/// The maximal runs of characters that are not white space, in order.
pub open spec fn words(s: Seq<char>) -> Seq<Seq<char>>
    decreases s.len(),
    via words_decreases
{
    let t = trim_start(s);
    if t.len() == 0 {
        Seq::empty()
    } else {
        seq![t.take(word_len(t))] + words(t.skip(word_len(t)))
    }
}

#[via_fn]
proof fn words_decreases(s: Seq<char>) {
    lemma_trim_start(s);
    lemma_word_len(trim_start(s));
}

/// The views of a vector of strings.
pub open spec fn views(v: Seq<String>) -> Seq<Seq<char>> {
    v.map_values(|x: String| x@)
}

/// The words of `s`.
pub fn words_of(s: &[char]) -> (r: Vec<String>)
    ensures
        views(r@) == words(s@),
{
    let mut r: Vec<String> = Vec::new();
    let mut rest: &[char] = s;
    assert(views(r@) =~= Seq::empty());
    assert(views(r@) + words(s@) =~= words(s@));
    loop
        invariant
            views(r@) + words(rest@) == words(s@),
        decreases rest@.len(),
    {
        proof {
            lemma_trim_start(rest@);
        }
        let t: &[char] = trim_start_of(rest);
        if t.len() == 0 {
            assert(views(r@) + words(rest@) =~= views(r@));
            return r;
        }
        proof {
            lemma_word_len(t@);
        }
        let mut n: usize = 0;
        assert(t@.skip(0) =~= t@);
        while n < t.len() && !white_space(t[n])
            invariant
                n <= t.len(),
                word_len(t@) == n + word_len(t@.skip(n as int)),
            decreases t.len() - n,
        {
            assert(t@.skip(n as int).drop_first() =~= t@.skip(n + 1));
            n += 1;
        }
        assert(t@.subrange(0, n as int) =~= t@.take(n as int));
        assert(t@.subrange(n as int, t@.len() as int) =~= t@.skip(n as int));
        let ghost before = views(r@);
        let word: String = string_of(slice_subrange(t, 0, n));
        r.push(word);
        assert(views(r@) =~= before.push(t@.take(n as int)));
        let ghost tail = words(t@.skip(n as int));
        assert(before + (seq![t@.take(n as int)] + tail) =~= views(r@) + tail);
        rest = slice_subrange(t, n, t.len());
    }
}

/// Whether `c` occurs in `s`.
pub fn contains_char(s: &[char], c: char) -> (r: bool)
    ensures
        r == s@.contains(c),
{
    let mut i: usize = 0;
    while i < s.len()
        invariant
            i <= s.len(),
            forall|j: int| 0 <= j < i ==> s@[j] != c,
        decreases s.len() - i,
    {
        if s[i] == c {
            assert(s@[i as int] == c);
            return true;
        }
        i += 1;
    }
    false
}

/// `parts` in order, with `sep` between neighbours.
pub open spec fn join(parts: Seq<Seq<char>>, sep: Seq<char>) -> Seq<char>
    decreases parts.len(),
{
    if parts.len() == 0 {
        Seq::empty()
    } else if parts.len() == 1 {
        parts[0]
    } else {
        join(parts.drop_last(), sep) + sep + parts.last()
    }
}

/// Joins strings with `sep` between neighbours.
pub fn join_of(parts: &[String], sep: &str) -> (r: String)
    ensures
        r@ == join(views(parts@), sep@),
{
    let mut r: String = String::new();
    let ghost all = views(parts@);
    let mut i: usize = 0;
    while i < parts.len()
        invariant
            i <= parts.len(),
            all == views(parts@),
            r@ == join(all.take(i as int), sep@),
        decreases parts.len() - i,
    {
        if i > 0 {
            r.append(sep);
        }
        r.append(parts[i].as_str());
        proof {
            let next = all.take(i + 1);
            assert(next.drop_last() =~= all.take(i as int));
            assert(next.last() == parts@[i as int]@);
            if i == 0 {
                assert(r@ =~= next[0]);
            }
        }
        i += 1;
    }
    assert(all.take(i as int) =~= all);
    r
}

/// `s` without one carriage return at its end.
pub open spec fn strip_cr(s: Seq<char>) -> Seq<char> {
    if s.len() > 0 && s.last() == '\r' {
        s.drop_last()
    } else {
        s
    }
}

/// The lines of a text: cut at each newline, the end of a line being a newline
/// or a carriage return and a newline. What follows the last newline is a line
/// of its own if it is not empty.
pub open spec fn lines(s: Seq<char>) -> Seq<Seq<char>>
    decreases s.len(),
    via lines_decreases
{
    let i = first_index(s, '\n');
    if s.len() == 0 {
        Seq::empty()
    } else if i < s.len() {
        seq![strip_cr(s.take(i))] + lines(s.skip(i + 1))
    } else {
        seq![s]
    }
}

#[via_fn]
proof fn lines_decreases(s: Seq<char>) {
    lemma_first_index(s, '\n');
}

/// The first line of a text that starts with a complete line.
pub proof fn lemma_lines_cons(line: Seq<char>, rest: Seq<char>)
    requires
        !line.contains('\n'),
    ensures
        lines(line + seq!['\n'] + rest) == seq![strip_cr(line)] + lines(rest),
{
    let s = line + seq!['\n'] + rest;
    let n = line.len() as int;
    assert(s[n] == '\n');
    assert forall|j: int| 0 <= j < n implies s[j] != '\n' by {
        assert(s[j] == line[j]);
        assert(line.contains(line[j]));
    }
    lemma_first_index_at(s, '\n', n);
    assert(s.take(n) =~= line);
    assert(s.skip(n + 1) =~= rest);
}

/// Cuts a text into lines.
pub fn lines_of(s: &[char]) -> (r: Vec<String>)
    ensures
        views(r@) == lines(s@),
{
    let mut r: Vec<String> = Vec::new();
    let mut rest: &[char] = s;
    assert(views(r@) =~= Seq::empty());
    assert(views(r@) + lines(s@) =~= lines(s@));
    loop
        invariant
            views(r@) + lines(rest@) == lines(s@),
        decreases rest@.len(),
    {
        let ghost before = views(r@);
        proof {
            lemma_first_index(rest@, '\n');
        }
        if rest.len() == 0 {
            assert(before + lines(rest@) =~= before);
            return r;
        }
        match split_once_of(rest, '\n') {
            None => {
                r.push(string_of(rest));
                assert(views(r@) =~= before + seq![rest@]);
                return r;
            },
            Some((line, tail)) => {
                let n: usize = line.len();
                let cut: &[char] = if n > 0 && line[n - 1] == '\r' {
                    slice_subrange(line, 0, n - 1)
                } else {
                    line
                };
                assert(cut@ =~= strip_cr(line@));
                r.push(string_of(cut));
                assert(views(r@) =~= before.push(strip_cr(line@)));
                assert(before + (seq![strip_cr(line@)] + lines(tail@)) =~= views(r@) + lines(tail@));
                rest = tail;
            },
        }
    }
}

/// What a prefix leaves of a text that was put together with it.
pub proof fn lemma_strip_prefix_of_concat(p: Seq<char>, s: Seq<char>)
    ensures
        strip_prefix(p + s, p) == Some(s),
{
    assert((p + s).take(p.len() as int) =~= p);
    assert((p + s).skip(p.len() as int) =~= s);
}

/// Splitting at a mark that the text in front of it does not hold.
pub proof fn lemma_split_once_of_concat(a: Seq<char>, c: char, b: Seq<char>)
    requires
        !a.contains(c),
    ensures
        split_once(a + seq![c] + b, c) == Some((a, b)),
{
    let s = a + seq![c] + b;
    let n = a.len() as int;
    assert(s[n] == c);
    assert forall|j: int| 0 <= j < n implies s[j] != c by {
        assert(s[j] == a[j]);
        assert(a.contains(a[j]));
    }
    lemma_first_index_at(s, c, n);
    assert(s.take(n) =~= a);
    assert(s.skip(n + 1) =~= b);
}

/// A text without white space at either end is its own trim.
pub proof fn lemma_trim_plain(s: Seq<char>)
    requires
        s.len() > 0 ==> !is_white_space(s[0]) && !is_white_space(s.last()),
    ensures
        trim(s) == s,
{
}

/// The quoted form of a string that `Debug` writes.
pub uninterp spec fn quoted(s: Seq<char>) -> Seq<char>;

/// The `Debug` implementation of `str`, through `format`: the string in
/// quotation marks, with the characters escaped that the standard library
/// escapes there. Only that the result depends on the string alone is claimed.
#[verifier::external_body]
pub(crate) fn quoted_text(s: &str) -> (r: String)
    ensures
        r@ == quoted(s@),
{
    format!("{s:?}")
}

// ---------------------------------------------------------------------------
// What cutting does
// ---------------------------------------------------------------------------

/// Whether a text holds no white space.
pub open spec fn solid(s: Seq<char>) -> bool {
    forall|i: int| 0 <= i < s.len() ==> !is_white_space(#[trigger] s[i])
}

/// Whether a text holds nothing but white space.
pub open spec fn hollow(s: Seq<char>) -> bool {
    forall|i: int| 0 <= i < s.len() ==> is_white_space(#[trigger] s[i])
}

/// Behind the last of a character: a text with a tail that does not hold it is cut
/// in front of the tail.
pub proof fn law_cut_at_the_last(a: Seq<char>, c: char, b: Seq<char>)
    requires
        !b.contains(c),
    ensures
        rsplit_once(a + seq![c] + b, c) == Some((a, b)),
        rsplit_once(b, c) is None,
{
    lemma_last_index(a, c, b);
    lemma_absent(b, c);
    let s = a + seq![c] + b;
    assert(s.take(a.len() as int) =~= a);
    assert(s.skip(a.len() as int + 1) =~= b);
}

proof fn lemma_last_index(a: Seq<char>, c: char, b: Seq<char>)
    requires
        !b.contains(c),
    ensures
        last_index(a + seq![c] + b, c) == a.len(),
    decreases b.len(),
{
    let s = a + seq![c] + b;
    if b.len() > 0 {
        let front = b.drop_last();
        assert(b.contains(b.last()));
        assert forall|i: int| 0 <= i < front.len() implies front[i] != c by {
            assert(b.contains(b[i]));
        }
        lemma_last_index(a, c, front);
        assert(s.drop_last() =~= a + seq![c] + front);
    }
}

pub proof fn lemma_absent(b: Seq<char>, c: char)
    requires
        !b.contains(c),
    ensures
        last_index(b, c) == -1,
    decreases b.len(),
{
    if b.len() > 0 {
        let front = b.drop_last();
        assert(b.contains(b.last()));
        assert forall|i: int| 0 <= i < front.len() implies front[i] != c by {
            assert(b.contains(b[i]));
        }
        lemma_absent(front, c);
    }
}

/// Trimming takes the white space off both ends, and nothing else.
pub proof fn law_trimming(a: Seq<char>, s: Seq<char>, b: Seq<char>)
    requires
        hollow(a),
        hollow(b),
        s.len() > 0,
        !is_white_space(s[0]),
        !is_white_space(s.last()),
    ensures
        trim(a + s + b) == s,
{
    lemma_trimmed_start(a, s + b);
    assert(a + s + b =~= a + (s + b));
    lemma_trimmed_end(s, b);
}

proof fn lemma_trimmed_start(a: Seq<char>, s: Seq<char>)
    requires
        hollow(a),
        s.len() > 0,
        !is_white_space(s[0]),
    ensures
        trim_start(a + s) == s,
    decreases a.len(),
{
    if a.len() > 0 {
        let rest = a.drop_first();
        assert(is_white_space(a[0]));
        assert forall|i: int| 0 <= i < rest.len() implies is_white_space(#[trigger] rest[i]) by {
            assert(rest[i] == a[i + 1]);
        }
        lemma_trimmed_start(rest, s);
        assert((a + s).drop_first() =~= rest + s);
    } else {
        assert(a + s =~= s);
    }
}

proof fn lemma_trimmed_end(s: Seq<char>, b: Seq<char>)
    requires
        hollow(b),
        s.len() > 0,
        !is_white_space(s.last()),
    ensures
        trim_end(s + b) == s,
    decreases b.len(),
{
    if b.len() > 0 {
        let front = b.drop_last();
        assert(is_white_space(b[b.len() - 1]));
        assert forall|i: int| 0 <= i < front.len() implies is_white_space(
            #[trigger] front[i],
        ) by {
            assert(front[i] == b[i]);
        }
        lemma_trimmed_end(s, front);
        assert((s + b).drop_last() =~= s + front);
    } else {
        assert(s + b =~= s);
    }
}

/// A text of a word, white space and further words has that word first; a text
/// without anything else has no words.
pub proof fn law_words_come_in_order(a: Seq<char>, word: Seq<char>, rest: Seq<char>)
    requires
        hollow(a),
        solid(word),
        rest.len() == 0 || is_white_space(rest[0]),
    ensures
        words(a).len() == 0,
        word.len() > 0 ==> words(a + word + rest) == seq![word] + words(rest),
{
    lemma_hollow_trimmed(a);
    if word.len() > 0 {
        assert(a + word + rest =~= a + (word + rest));
        assert((word + rest)[0] == word[0]);
        lemma_trimmed_start(a, word + rest);
        lemma_word_measured(word, rest);
        let t = word + rest;
        assert(t.take(word.len() as int) =~= word);
        assert(t.skip(word.len() as int) =~= rest);
    }
}

pub proof fn lemma_hollow_trimmed(a: Seq<char>)
    requires
        hollow(a),
    ensures
        trim_start(a).len() == 0,
        trim(a).len() == 0,
    decreases a.len(),
{
    if a.len() > 0 {
        let rest = a.drop_first();
        assert(is_white_space(a[0]));
        assert forall|i: int| 0 <= i < rest.len() implies is_white_space(#[trigger] rest[i]) by {
            assert(rest[i] == a[i + 1]);
        }
        lemma_hollow_trimmed(rest);
    }
}

proof fn lemma_word_measured(word: Seq<char>, rest: Seq<char>)
    requires
        solid(word),
        rest.len() == 0 || is_white_space(rest[0]),
    ensures
        word_len(word + rest) == word.len(),
    decreases word.len(),
{
    let t = word + rest;
    if word.len() > 0 {
        let behind = word.drop_first();
        assert(!is_white_space(word[0]));
        assert forall|i: int| 0 <= i < behind.len() implies !is_white_space(
            #[trigger] behind[i],
        ) by {
            assert(behind[i] == word[i + 1]);
        }
        lemma_word_measured(behind, rest);
        assert(t.drop_first() =~= behind + rest);
    } else {
        assert(t =~= rest);
    }
}

/// A text of lines, each with its newline, has these lines.
pub proof fn law_lines_come_in_order(line: Seq<char>, rest: Seq<char>)
    requires
        !line.contains('\n'),
        line.len() == 0 || line.last() != '\r',
    ensures
        lines(line.push('\n') + rest) == seq![line] + lines(rest),
        line.len() > 0 ==> lines(line) == seq![line],
        lines(line + seq!['\r', '\n'] + rest) == seq![line] + lines(rest),
{
    let s = line.push('\n') + rest;
    assert(s =~= line + seq!['\n'] + rest);
    lemma_split_once_of_concat(line, '\n', rest);
    lemma_first_index_of(line, rest);
    assert(s.take(line.len() as int) =~= line);
    assert(s.skip(line.len() as int + 1) =~= rest);
    let back = line.push('\r');
    assert forall|i: int| 0 <= i < back.len() implies back[i] != '\n' by {
        if i < line.len() {
            assert(line.contains(line[i]));
        }
    }
    lemma_first_index_of(back, rest);
    let t = line + seq!['\r', '\n'] + rest;
    assert(t =~= back + seq!['\n'] + rest);
    assert(t.take(back.len() as int) =~= back);
    assert(t.skip(back.len() as int + 1) =~= rest);
    assert(back.drop_last() =~= line);
    lemma_first_index(line, '\n');
    if first_index(line, '\n') < line.len() {
        assert(line.contains(line[first_index(line, '\n')]));
    }
}

proof fn lemma_first_index_of(line: Seq<char>, rest: Seq<char>)
    requires
        !line.contains('\n'),
    ensures
        first_index(line + seq!['\n'] + rest, '\n') == line.len(),
    decreases line.len(),
{
    let s = line + seq!['\n'] + rest;
    if line.len() > 0 {
        let behind = line.drop_first();
        assert(line.contains(line[0]));
        assert forall|i: int| 0 <= i < behind.len() implies behind[i] != '\n' by {
            assert(line.contains(line[i + 1]));
        }
        lemma_first_index_of(behind, rest);
        assert(s.drop_first() =~= behind + seq!['\n'] + rest);
    }
}

/// Joined texts stand in order, with the separator between two and nowhere else.
pub proof fn law_joining(parts: Seq<Seq<char>>, last: Seq<char>, sep: Seq<char>)
    ensures
        join(Seq::empty(), sep) == Seq::<char>::empty(),
        join(seq![last], sep) == last,
        parts.len() > 0 ==> join(parts.push(last), sep) == join(parts, sep) + sep + last,
{
    assert(parts.push(last).drop_last() =~= parts);
}

/// What is not white space is kept.
pub proof fn lemma_kept_by_trim(t: Seq<char>, i: int)
    requires
        0 <= i < t.len(),
        !is_white_space(t[i]),
    ensures
        trim(t).len() > 0,
    decreases t.len(),
{
    if is_white_space(t[0]) {
        let rest = t.drop_first();
        assert(rest[i - 1] == t[i]);
        lemma_kept_by_trim(rest, i - 1);
    } else {
        lemma_kept_by_trim_end(t);
    }
}

proof fn lemma_kept_by_trim_end(t: Seq<char>)
    requires
        t.len() > 0,
        !is_white_space(t[0]),
    ensures
        trim_end(t).len() > 0,
    decreases t.len(),
{
    if is_white_space(t.last()) {
        lemma_kept_by_trim_end(t.drop_last());
    }
}

/// Whether a text holds another one.
pub open spec fn mentions(t: Seq<char>, part: Seq<char>) -> bool {
    exists|a: Seq<char>, b: Seq<char>| t == #[trigger] (a + part + b)
}

}
