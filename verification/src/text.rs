//! Text as sequences of characters: conversion from and to strings,
//! comparison, searching, splitting and trimming.

use vstd::prelude::*;
use vstd::utf8::*;

verus! {

/// `String::push` appends one character to the string. Taken from the
/// documentation of the standard library, not proved here.
pub assume_specification[ String::push ](s: &mut String, c: char)
    ensures
        final(s)@ == old(s)@.push(c),
;

/// The lowercase form of a text, as `str::to_lowercase` computes it.
pub uninterp spec fn lowercase_of(s: Seq<char>) -> Seq<char>;

/// Whether a character is white space: one of the characters with the
/// Unicode property `White_Space`, which are the ASCII space, the controls
/// from tab to carriage return, next line, the no-break spaces, and the
/// spaces and line separators from U+1680 to U+3000.
pub open spec fn is_whitespace(c: char) -> bool {
    ||| '\u{9}' <= c <= '\u{d}'
    ||| c == ' '
    ||| c == '\u{85}'
    ||| c == '\u{a0}'
    ||| c == '\u{1680}'
    ||| '\u{2000}' <= c <= '\u{200a}'
    ||| c == '\u{2028}'
    ||| c == '\u{2029}'
    ||| c == '\u{202f}'
    ||| c == '\u{205f}'
    ||| c == '\u{3000}'
}

/// Calls `str::to_lowercase`, which gives the lowercase form of a text by
/// the rules of Unicode. Those rules fill tables, so the contract does not
/// spell them out: it claims, without proof, only that the result depends
/// on the text alone, and gives it the name `lowercase_of`.
#[verifier::external_body]
pub(crate) fn to_lowercase(s: &str) -> (r: String)
    ensures
        r@ == lowercase_of(s@),
{
    s.to_lowercase()
}

/// Whether a character is white space.
pub fn is_white_space(c: char) -> (r: bool)
    ensures
        r == is_whitespace(c),
{
    if c >= '\u{2000}' {
        c <= '\u{200a}' || c == '\u{2028}' || c == '\u{2029}' || c == '\u{202f}' || c
            == '\u{205f}' || c == '\u{3000}'
    } else if c >= '\u{85}' {
        c == '\u{85}' || c == '\u{a0}' || c == '\u{1680}'
    } else {
        c == ' ' || ('\u{9}' <= c && c <= '\u{d}')
    }
}

/// Calls `String::from_utf8`. The contract claims, without proof, what the
/// documentation of the standard library says: the call succeeds exactly
/// on well-formed UTF-8, and the string then holds the characters that the
/// bytes encode.
#[verifier::external_body]
pub(crate) fn decode(bytes: Vec<u8>) -> (r: Option<String>)
    ensures
        r is Some <==> valid_utf8(bytes@),
        r matches Some(s) ==> s@ == decode_utf8(bytes@),
{
    match String::from_utf8(bytes) {
        Ok(s) => Some(s),
        Err(_) => None,
    }
}

/// The characters of a string, in order.
pub fn chars_of(s: &str) -> (v: Vec<char>)
    ensures
        v@ == s@,
{
    let mut v: Vec<char> = Vec::new();
    let it = s.chars();
    for c in iter: it
        invariant
            v@ == iter.seq().take(iter.index()),
            iter.seq() == s@,
    {
        v.push(c);
    }
    v
}

/// The string made of the given characters.
pub fn string_of(v: &[char]) -> (s: String)
    ensures
        s@ == v@,
{
    let mut s = String::new();
    let mut i: usize = 0;
    while i < v.len()
        invariant
            i <= v.len(),
            s@ == v@.take(i as int),
        decreases v.len() - i,
    {
        s.push(v[i]);
        i += 1;
    }
    s
}

/// Whether two strings hold the same characters.
pub fn str_eq(a: &str, b: &str) -> (r: bool)
    ensures
        r == (a@ == b@),
{
    let x = a.as_bytes();
    let y = b.as_bytes();
    proof {
        encode_utf8_decode_utf8(a@);
        encode_utf8_decode_utf8(b@);
    }
    if x.len() != y.len() {
        return false;
    }
    let mut i: usize = 0;
    while i < x.len()
        invariant
            i <= x.len(),
            x.len() == y.len(),
            x@ == encode_utf8(a@),
            y@ == encode_utf8(b@),
            x@.take(i as int) == y@.take(i as int),
        decreases x.len() - i,
    {
        if x[i] != y[i] {
            return false;
        }
        i += 1;
    }
    assert(x@ == x@.take(x.len() as int));
    assert(y@ == y@.take(y.len() as int));
    true
}

/// Whether `pat` stands in `s` at position `i`.
pub open spec fn occurs_at(s: Seq<char>, pat: Seq<char>, i: int) -> bool {
    &&& 0 <= i
    &&& i + pat.len() <= s.len()
    &&& s.subrange(i, i + pat.len()) == pat
}

/// The first position at or after `from` where `pat` stands in `s`.
pub open spec fn find_from(s: Seq<char>, pat: Seq<char>, from: int) -> Option<int>
    decreases s.len() - from + 1,
{
    if from < 0 || from + pat.len() > s.len() {
        None
    } else if occurs_at(s, pat, from) {
        Some(from)
    } else {
        find_from(s, pat, from + 1)
    }
}

/// The first position where `pat` stands in `s`.
pub open spec fn find(s: Seq<char>, pat: Seq<char>) -> Option<int> {
    find_from(s, pat, 0)
}

/// `find_from` returns the least position at or after `from` at which the
/// pattern stands, and nothing exactly when there is no such position.
pub proof fn lemma_find_from(s: Seq<char>, pat: Seq<char>, from: int)
    requires
        0 <= from,
    ensures
        match find_from(s, pat, from) {
            Some(i) => from <= i && occurs_at(s, pat, i) && forall|j: int|
                from <= j < i ==> !occurs_at(s, pat, j),
            None => forall|j: int| from <= j ==> !occurs_at(s, pat, j),
        },
    decreases s.len() - from + 1,
{
    if from + pat.len() <= s.len() && !occurs_at(s, pat, from) {
        lemma_find_from(s, pat, from + 1);
    }
}

/// The pieces of `s` between the occurrences of `sep`, searched from
/// `start` on, left to right and without overlap.
pub open spec fn split_from(s: Seq<char>, sep: Seq<char>, start: int) -> Seq<Seq<char>>
    decreases s.len() - start,
    when sep.len() > 0 && 0 <= start
{
    match find_from(s, sep, start) {
        None => seq![s.subrange(start, s.len() as int)],
        Some(i) => {
            proof {
                lemma_find_from(s, sep, start);
            }
            seq![s.subrange(start, i)] + split_from(s, sep, i + sep.len())
        },
    }
}

/// The pieces of `s` between the occurrences of the separator. A text
/// without the separator is one piece; a separator at either end leaves an
/// empty piece there. With an empty separator the text is one piece.
pub open spec fn split(s: Seq<char>, sep: Seq<char>) -> Seq<Seq<char>> {
    if sep.len() == 0 {
        seq![s]
    } else {
        split_from(s, sep, 0)
    }
}

/// The parts put together again, with the separator between each two.
pub open spec fn join(parts: Seq<Seq<char>>, sep: Seq<char>) -> Seq<char>
    decreases parts.len(),
{
    if parts.len() == 0 {
        Seq::empty()
    } else if parts.len() == 1 {
        parts[0]
    } else {
        parts[0] + sep + join(parts.drop_first(), sep)
    }
}

/// A part of a text within which the pattern stands nowhere does not hold
/// the pattern.
pub proof fn lemma_part_without(s: Seq<char>, pat: Seq<char>, start: int, end: int)
    requires
        0 <= start <= end <= s.len(),
        forall|j: int| start <= j && j + pat.len() <= end ==> !occurs_at(s, pat, j),
    ensures
        find(s.subrange(start, end), pat) is None,
{
    let part = s.subrange(start, end);
    lemma_find_from(part, pat, 0);
    if find(part, pat) is Some {
        let j = find(part, pat)->0;
        assert(part.subrange(j, j + pat.len()) == s.subrange(start + j, start + j + pat.len()));
        assert(occurs_at(s, pat, start + j));
    }
}

/// Splitting loses nothing: there is at least one piece, no piece holds
/// the separator, and the pieces joined by the separator are the text
/// again.
pub proof fn lemma_split_from(s: Seq<char>, sep: Seq<char>, start: int)
    requires
        sep.len() > 0,
        0 <= start <= s.len(),
    ensures
        split_from(s, sep, start).len() >= 1,
        forall|k: int|
            0 <= k < split_from(s, sep, start).len() ==> find(
                #[trigger] split_from(s, sep, start)[k],
                sep,
            ) is None,
        join(split_from(s, sep, start), sep) == s.subrange(start, s.len() as int),
    decreases s.len() - start,
{
    lemma_find_from(s, sep, start);
    let all = split_from(s, sep, start);
    match find_from(s, sep, start) {
        None => {
            lemma_part_without(s, sep, start, s.len() as int);
        },
        Some(i) => {
            let rest = split_from(s, sep, i + sep.len());
            lemma_split_from(s, sep, i + sep.len());
            lemma_part_without(s, sep, start, i);
            assert(all.drop_first() =~= rest);
            assert forall|k: int| 0 <= k < all.len() implies find(#[trigger] all[k], sep)
                is None by {
                if k > 0 {
                    assert(all[k] == rest[k - 1]);
                }
            }
        },
    }
}

/// Splitting loses nothing: no piece holds the separator, and the pieces
/// joined by the separator are the text again.
pub proof fn lemma_split_joins_back(s: Seq<char>, sep: Seq<char>)
    ensures
        split(s, sep).len() >= 1,
        join(split(s, sep), sep) == s,
        sep.len() > 0 ==> forall|k: int|
            0 <= k < split(s, sep).len() ==> find(#[trigger] split(s, sep)[k], sep) is None,
{
    if sep.len() > 0 {
        lemma_split_from(s, sep, 0);
    }
}

/// Whether `s` from `a` to `b` is `s` without the white space at its ends:
/// all before `a` and all from `b` on is white space, and the part between
/// neither starts nor ends with white space.
pub open spec fn is_trim_of(s: Seq<char>, a: int, b: int) -> bool {
    &&& 0 <= a <= b <= s.len()
    &&& forall|i: int| 0 <= i < a ==> is_whitespace(#[trigger] s[i])
    &&& forall|i: int| b <= i < s.len() ==> is_whitespace(#[trigger] s[i])
    &&& a < b ==> !is_whitespace(s[a]) && !is_whitespace(s[b - 1])
}

/// What `trim_start` leaves is the text from its first character that is
/// no white space.
pub proof fn lemma_trim_start(s: Seq<char>) -> (a: int)
    ensures
        0 <= a <= s.len(),
        trim_start(s) == s.skip(a),
        forall|i: int| 0 <= i < a ==> is_whitespace(#[trigger] s[i]),
        a < s.len() ==> !is_whitespace(s[a]),
    decreases s.len(),
{
    if s.len() > 0 && is_whitespace(s.first()) {
        let a = lemma_trim_start(s.drop_first());
        assert forall|i: int| 0 <= i < a + 1 implies is_whitespace(#[trigger] s[i]) by {
            if i > 0 {
                assert(s[i] == s.drop_first()[i - 1]);
            }
        }
        a + 1
    } else {
        0
    }
}

/// What `trim_end` leaves is the text up to its last character that is no
/// white space.
pub proof fn lemma_trim_end(s: Seq<char>) -> (b: int)
    ensures
        0 <= b <= s.len(),
        trim_end(s) == s.take(b),
        forall|i: int| b <= i < s.len() ==> is_whitespace(#[trigger] s[i]),
        0 < b ==> !is_whitespace(s[b - 1]),
    decreases s.len(),
{
    if s.len() > 0 && is_whitespace(s.last()) {
        let b = lemma_trim_end(s.drop_last());
        assert forall|i: int| b <= i < s.len() implies is_whitespace(#[trigger] s[i]) by {
            if i < s.len() - 1 {
                assert(s[i] == s.drop_last()[i]);
            }
        }
        b
    } else {
        s.len() as int
    }
}

/// Trimming takes white space from both ends and nothing else: the result
/// is a part of the text with only white space before and after it, and
/// it neither starts nor ends with white space.
pub proof fn lemma_trim(s: Seq<char>) -> (ends: (int, int))
    ensures
        is_trim_of(s, ends.0, ends.1),
        trim(s) == s.subrange(ends.0, ends.1),
{
    let a = lemma_trim_start(s);
    let rest = s.skip(a);
    let b = lemma_trim_end(rest);
    assert forall|i: int| a + b <= i < s.len() implies is_whitespace(#[trigger] s[i]) by {
        assert(s[i] == rest[i - a]);
    }
    (a, a + b)
}

/// `s` without the white space at its start.
pub open spec fn trim_start(s: Seq<char>) -> Seq<char>
    decreases s.len(),
{
    if s.len() > 0 && is_whitespace(s.first()) {
        trim_start(s.drop_first())
    } else {
        s
    }
}

/// `s` without the white space at its end.
pub open spec fn trim_end(s: Seq<char>) -> Seq<char>
    decreases s.len(),
{
    if s.len() > 0 && is_whitespace(s.last()) {
        trim_end(s.drop_last())
    } else {
        s
    }
}

/// `s` without the white space at both ends.
pub open spec fn trim(s: Seq<char>) -> Seq<char> {
    trim_end(trim_start(s))
}

/// The texts that a vector of slices holds.
pub open spec fn pieces(v: Seq<&[char]>) -> Seq<Seq<char>> {
    Seq::new(v.len(), |i: int| v[i]@)
}

/// Whether `pat` stands in `s` at position `i`.
pub fn matches_at(s: &[char], pat: &[char], i: usize) -> (r: bool)
    ensures
        r == occurs_at(s@, pat@, i as int),
{
    if i > s.len() || pat.len() > s.len() - i {
        return false;
    }
    let mut k: usize = 0;
    while k < pat.len()
        invariant
            k <= pat.len(),
            i + pat.len() <= s.len(),
            s@.subrange(i as int, i + k) == pat@.take(k as int),
        decreases pat.len() - k,
    {
        if s[i + k] != pat[k] {
            return false;
        }
        k += 1;
    }
    assert(pat@.take(pat.len() as int) == pat@);
    true
}

/// The first position at or after `from` where `pat` stands in `s`.
pub fn find_in(s: &[char], pat: &[char], from: usize) -> (r: Option<usize>)
    ensures
        r is Some <==> find_from(s@, pat@, from as int) is Some,
        r matches Some(i) ==> find_from(s@, pat@, from as int) == Some(i as int),
{
    if pat.len() > s.len() || from > s.len() - pat.len() {
        return None;
    }
    let last: usize = s.len() - pat.len();
    let mut i: usize = from;
    loop
        invariant
            from <= i <= last,
            last == s.len() - pat.len(),
            find_from(s@, pat@, from as int) == find_from(s@, pat@, i as int),
        decreases last - i,
    {
        if matches_at(s, pat, i) {
            return Some(i);
        }
        if i == last {
            assert(find_from(s@, pat@, i + 1) is None);
            return None;
        }
        i += 1;
    }
}

/// The pieces of `s` between the occurrences of `sep`, as slices of `s`.
pub fn split_on<'a>(s: &'a [char], sep: &[char]) -> (r: Vec<&'a [char]>)
    ensures
        pieces(r@) == split(s@, sep@),
        r.len() > 0,
{
    let mut out: Vec<&'a [char]> = Vec::new();
    if sep.len() == 0 {
        out.push(s);
        return out;
    }
    let mut start: usize = 0;
    loop
        invariant
            sep.len() > 0,
            start <= s.len(),
            split(s@, sep@) == pieces(out@) + split_from(s@, sep@, start as int),
        decreases s.len() - start,
    {
        proof {
            lemma_find_from(s@, sep@, start as int);
        }
        match find_in(s, sep, start) {
            None => {
                out.push(vstd::slice::slice_subrange(s, start, s.len()));
                return out;
            },
            Some(i) => {
                out.push(vstd::slice::slice_subrange(s, start, i));
                start = i + sep.len();
            },
        }
    }
}

/// `s` without the white space at both ends, as a slice of `s`.
pub fn trimmed<'a>(s: &'a [char]) -> (r: &'a [char])
    ensures
        r@ == trim(s@),
{
    let mut a: usize = 0;
    assert(s@.skip(0) == s@);
    while a < s.len() && is_white_space(s[a])
        invariant
            a <= s.len(),
            trim_start(s@) == trim_start(s@.skip(a as int)),
        decreases s.len() - a,
    {
        assert(s@.skip(a as int).drop_first() == s@.skip(a + 1));
        a += 1;
    }
    let mut b: usize = s.len();
    while b > a && is_white_space(s[b - 1])
        invariant
            a <= b <= s.len(),
            trim_start(s@) == s@.skip(a as int),
            trim(s@) == trim_end(s@.subrange(a as int, b as int)),
        decreases b,
    {
        assert(s@.subrange(a as int, b as int).drop_last() == s@.subrange(a as int, b - 1));
        b -= 1;
    }
    vstd::slice::slice_subrange(s, a, b)
}

} // verus!
