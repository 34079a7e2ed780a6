//! Text as a sequence of characters.
//!
//! The configuration grammar and the device registry are both line-oriented text. This module
//! holds the few operations they need, each one stated as a spec function on `Seq<char>` and
//! implemented on `[char]`: trimming, matching a pattern, and splitting at a separator.

use vstd::prelude::*;

verus! {

/// `String::push` appends one character to the end of the string.
pub assume_specification[ String::push ](s: &mut String, c: char)
    ensures
        final(s)@ == old(s)@.push(c),
;

/// The characters of `s`, in order.
pub fn chars_of(s: &str) -> (v: Vec<char>)
    ensures
        v@ == s@,
{
    let mut v: Vec<char> = Vec::new();
    for c in it: s.chars()
        invariant
            it.seq() == s@,
            v@ == it.seq().take(it.index() as int),
    {
        v.push(c);
    }
    v
}

/// The string made of the characters of `v`, in order.
pub fn string_of(v: &[char]) -> (s: String)
    ensures
        s@ == v@,
{
    let mut s = String::new();
    let mut i: usize = 0;
    while i < v.len()
        invariant
            i <= v.len(),
            s@ == v@.take(i as int),
        decreases v.len() - i,
    {
        s.push(v[i]);
        i += 1;
    }
    s
}

/// The characters `s[from..to]` as a vector of their own.
pub(crate) fn copy_range(s: &[char], from: usize, to: usize) -> (v: Vec<char>)
    requires
        from <= to <= s.len(),
    ensures
        v@ == s@.subrange(from as int, to as int),
{
    let mut v: Vec<char> = Vec::new();
    let mut i: usize = from;
    while i < to
        invariant
            from <= i <= to,
            to <= s.len(),
            v@ == s@.subrange(from as int, i as int),
        decreases to - i,
    {
        v.push(s[i]);
        i += 1;
    }
    v
}

/// Whether two runs of characters are the same text.
pub fn same_chars(a: &[char], b: &[char]) -> (r: bool)
    ensures
        r == (a@ == b@),
{
    if a.len() != b.len() {
        return false;
    }
    let mut i: usize = 0;
    while i < a.len()
        invariant
            i <= a.len(),
            a.len() == b.len(),
            forall|k: int| 0 <= k < i ==> a@[k] == b@[k],
        decreases a.len() - i,
    {
        if a[i] != b[i] {
            return false;
        }
        i += 1;
    }
    assert(a@ =~= b@);
    true
}

/// The characters with the Unicode property `White_Space`, the ones that trimming removes.
pub open spec fn is_space(c: char) -> bool {
    ||| '\u{9}' <= c <= '\u{d}'
    ||| c == ' '
    ||| c == '\u{85}'
    ||| c == '\u{a0}'
    ||| c == '\u{1680}'
    ||| '\u{2000}' <= c <= '\u{200a}'
    ||| c == '\u{2028}'
    ||| c == '\u{2029}'
    ||| c == '\u{202f}'
    ||| c == '\u{205f}'
    ||| c == '\u{3000}'
}

/// Whether `c` is a whitespace character.
pub fn space_char(c: char) -> (r: bool)
    ensures
        r == is_space(c),
{
    (c >= '\u{9}' && c <= '\u{d}') || c == ' ' || c == '\u{85}' || c == '\u{a0}' || c
        == '\u{1680}' || (c >= '\u{2000}' && c <= '\u{200a}') || c == '\u{2028}' || c
        == '\u{2029}' || c == '\u{202f}' || c == '\u{205f}' || c == '\u{3000}'
}

/// `s` without its leading whitespace.
pub open spec fn trim_start(s: Seq<char>) -> Seq<char>
    decreases s.len(),
{
    if s.len() > 0 && is_space(s[0]) {
        trim_start(s.drop_first())
    } else {
        s
    }
}

/// `s` without its trailing whitespace.
pub open spec fn trim_end(s: Seq<char>) -> Seq<char>
    decreases s.len(),
{
    if s.len() > 0 && is_space(s.last()) {
        trim_end(s.drop_last())
    } else {
        s
    }
}

/// `s` without the whitespace at either end.
pub open spec fn trim(s: Seq<char>) -> Seq<char> {
    trim_end(trim_start(s))
}

/// What trimming keeps: the part of `s` between two positions such that all before the
/// first and all from the second on is whitespace, and the part neither starts nor ends with
/// whitespace. The two positions are returned.
pub proof fn lemma_trim_bounds(s: Seq<char>) -> (r: (int, int))
    ensures
        0 <= r.0 <= r.1 <= s.len(),
        trim(s) == s.subrange(r.0, r.1),
        forall|i: int| 0 <= i < r.0 ==> is_space(#[trigger] s[i]),
        forall|i: int| r.1 <= i < s.len() ==> is_space(#[trigger] s[i]),
        r.0 < r.1 ==> !is_space(s[r.0]) && !is_space(s[r.1 - 1]),
{
    let from = lemma_trim_start_bound(s);
    let kept = s.subrange(from, s.len() as int);
    let n = lemma_trim_end_bound(kept);
    assert(kept.subrange(0, n) =~= s.subrange(from, from + n));
    assert forall|i: int| from + n <= i < s.len() implies is_space(#[trigger] s[i]) by {
        assert(kept[i - from] == s[i]);
    }
    if n > 0 {
        assert(kept[0] == s[from]);
        assert(kept[n - 1] == s[from + n - 1]);
    }
    (from, from + n)
}

proof fn lemma_trim_start_bound(s: Seq<char>) -> (from: int)
    ensures
        0 <= from <= s.len(),
        trim_start(s) == s.subrange(from, s.len() as int),
        forall|i: int| 0 <= i < from ==> is_space(#[trigger] s[i]),
        from < s.len() ==> !is_space(s[from]),
    decreases s.len(),
{
    if s.len() > 0 && is_space(s[0]) {
        let rest = s.drop_first();
        let k = lemma_trim_start_bound(rest);
        assert(rest.subrange(k, rest.len() as int) =~= s.subrange(k + 1, s.len() as int));
        assert forall|i: int| 0 <= i < k + 1 implies is_space(#[trigger] s[i]) by {
            if i > 0 {
                assert(rest[i - 1] == s[i]);
            }
        }
        k + 1
    } else {
        assert(s =~= s.subrange(0, s.len() as int));
        0
    }
}

proof fn lemma_trim_end_bound(s: Seq<char>) -> (to: int)
    ensures
        0 <= to <= s.len(),
        trim_end(s) == s.subrange(0, to),
        forall|i: int| to <= i < s.len() ==> is_space(#[trigger] s[i]),
        to > 0 ==> !is_space(s[to - 1]),
    decreases s.len(),
{
    if s.len() > 0 && is_space(s.last()) {
        let rest = s.drop_last();
        let k = lemma_trim_end_bound(rest);
        assert(rest.subrange(0, k) =~= s.subrange(0, k));
        assert forall|i: int| k <= i < s.len() implies is_space(#[trigger] s[i]) by {
            if i < rest.len() {
                assert(rest[i] == s[i]);
            }
        }
        k
    } else {
        assert(s =~= s.subrange(0, s.len() as int));
        s.len() as int
    }
}

/// A copy of `s` without the whitespace at either end.
pub fn trimmed(s: &[char]) -> (v: Vec<char>)
    ensures
        v@ == trim(s@),
{
    let mut from: usize = 0;
    assert(s@.subrange(0, s.len() as int) =~= s@);
    while from < s.len() && space_char(s[from])
        invariant
            from <= s.len(),
            trim_start(s@) == trim_start(s@.subrange(from as int, s.len() as int)),
        decreases s.len() - from,
    {
        assert(s@.subrange(from as int, s.len() as int).drop_first() =~= s@.subrange(
            from as int + 1,
            s.len() as int,
        ));
        from += 1;
    }
    let mut to: usize = s.len();
    while to > from && space_char(s[to - 1])
        invariant
            from <= to <= s.len(),
            trim_start(s@) == s@.subrange(from as int, s.len() as int),
            trim(s@) == trim_end(s@.subrange(from as int, to as int)),
        decreases to - from,
    {
        assert(s@.subrange(from as int, to as int).drop_last() =~= s@.subrange(
            from as int,
            to as int - 1,
        ));
        to -= 1;
    }
    copy_range(s, from, to)
}

/// Whether the text `pat` stands in `s` at position `at`.
pub open spec fn occurs_at(s: Seq<char>, pat: Seq<char>, at: int) -> bool {
    0 <= at && at + pat.len() <= s.len() && s.subrange(at, at + pat.len()) == pat
}

/// Whether `s` begins with the text `pat`.
pub open spec fn starts_with(s: Seq<char>, pat: Seq<char>) -> bool {
    occurs_at(s, pat, 0)
}

/// Whether the text `pat` stands in `s` at position `at`.
pub fn matches_at(s: &[char], pat: &[char], at: usize) -> (r: bool)
    ensures
        r == occurs_at(s@, pat@, at as int),
{
    if pat.len() > s.len() || at > s.len() - pat.len() {
        return false;
    }
    let mut k: usize = 0;
    while k < pat.len()
        invariant
            k <= pat.len(),
            at + pat.len() <= s.len(),
            forall|j: int| 0 <= j < k ==> s@[at + j] == pat@[j],
        decreases pat.len() - k,
    {
        if s[at + k] != pat[k] {
            assert(s@.subrange(at as int, at + pat.len())[k as int] != pat@[k as int]);
            return false;
        }
        k += 1;
    }
    assert(s@.subrange(at as int, at + pat.len()) =~= pat@);
    true
}

/// Whether `s` begins with the text `pat`.
pub fn begins_with(s: &[char], pat: &[char]) -> (r: bool)
    ensures
        r == starts_with(s@, pat@),
{
    matches_at(s, pat, 0)
}

/// What separates the pieces of a text.
pub enum Sep {
    /// Each occurrence of this text, found from left to right without overlap. The empty text
    /// separates nothing.
    Text(Seq<char>),
    /// Each single whitespace character.
    Space,
}

impl Sep {
    /// The length of the separator that begins at position `at` of `s`; 0 where none begins.
    pub open spec fn span(self, s: Seq<char>, at: int) -> nat {
        match self {
            Sep::Text(pat) => if occurs_at(s, pat, at) {
                pat.len()
            } else {
                0
            },
            Sep::Space => if 0 <= at < s.len() && is_space(s[at]) {
                1
            } else {
                0
            },
        }
    }
}

/// A separator as a value that code can hold; its view is the separator it stands for.
pub enum Separator {
    Text(Vec<char>),
    Space,
}

impl View for Separator {
    type V = Sep;

    open spec fn view(&self) -> Sep {
        match self {
            Separator::Text(pat) => Sep::Text(pat@),
            Separator::Space => Sep::Space,
        }
    }
}

impl Separator {
    /// The separator that is the single character `c`.
    pub fn of_char(c: char) -> (sep: Separator)
        ensures
            sep@ == Sep::Text(seq![c]),
    {
        let mut pat: Vec<char> = Vec::new();
        pat.push(c);
        assert(pat@ =~= seq![c]);
        Separator::Text(pat)
    }

    /// The separator that is the text `pat`.
    pub fn of_text(pat: &str) -> (sep: Separator)
        ensures
            sep@ == Sep::Text(pat@),
    {
        Separator::Text(chars_of(pat))
    }

    /// The length of the separator that begins at position `at` of `s`; 0 where none begins.
    pub fn span_at(&self, s: &[char], at: usize) -> (n: usize)
        ensures
            n == self@.span(s@, at as int),
    {
        match self {
            Separator::Text(pat) => if matches_at(s, pat.as_slice(), at) {
                pat.len()
            } else {
                0
            },
            Separator::Space => if at < s.len() && space_char(s[at]) {
                1
            } else {
                0
            },
        }
    }
}

/// The pieces of `s` from position `start` on, where positions before `at` hold no
/// separator that has not been passed already.
pub open spec fn split_scan(s: Seq<char>, sep: Sep, start: int, at: int) -> Seq<Seq<char>>
    decreases s.len() - at,
{
    if at >= s.len() {
        seq![s.subrange(start, s.len() as int)]
    } else if sep.span(s, at) > 0 {
        seq![s.subrange(start, at)] + split_scan(
            s,
            sep,
            at + sep.span(s, at),
            at + sep.span(s, at),
        )
    } else {
        split_scan(s, sep, start, at + 1)
    }
}

/// The pieces that `s` falls into when it is cut at each separator, from left to right. A
/// separator at the very start or end, or two in a row, leave an empty piece.
pub open spec fn split(s: Seq<char>, sep: Sep) -> Seq<Seq<char>> {
    split_scan(s, sep, 0, 0)
}

/// The texts that a sequence of character vectors holds.
pub open spec fn texts(v: Seq<Vec<char>>) -> Seq<Seq<char>> {
    Seq::new(v.len(), |i: int| v[i]@)
}

/// The texts that a sequence of strings holds.
pub open spec fn strings(v: Seq<String>) -> Seq<Seq<char>> {
    Seq::new(v.len(), |i: int| v[i]@)
}

/// The text that pieces make when `pat` is put between each two of them.
pub open spec fn join(pieces: Seq<Seq<char>>, pat: Seq<char>) -> Seq<char>
    decreases pieces.len(),
{
    if pieces.len() == 0 {
        seq![]
    } else if pieces.len() == 1 {
        pieces[0]
    } else {
        pieces[0] + pat + join(pieces.drop_first(), pat)
    }
}

/// What splitting gives: at least one piece; pieces in which no separator stands; and, for
/// a separator that is a text, pieces that make the whole text again when the separator is
/// put back between them.
pub proof fn lemma_split_pieces(s: Seq<char>, sep: Sep)
    ensures
        split(s, sep).len() >= 1,
        forall|i: int, at: int|
            0 <= i < split(s, sep).len() ==> #[trigger] sep.span(split(s, sep)[i], at) == 0,
        sep matches Sep::Text(pat) ==> join(split(s, sep), pat) == s,
{
    lemma_split_scan_pieces(s, sep, 0, 0);
    assert(s.subrange(0, s.len() as int) =~= s);
}

/// A separator that stands in a part of a text stands in the text, at that place.
proof fn lemma_span_in_part(s: Seq<char>, sep: Sep, from: int, to: int, at: int)
    requires
        0 <= from <= to <= s.len(),
        sep.span(s.subrange(from, to), at) > 0,
    ensures
        0 <= at,
        from + at < to,
        sep.span(s, from + at) > 0,
{
    let part = s.subrange(from, to);
    match sep {
        Sep::Text(pat) => {
            assert(part.subrange(at, at + pat.len()) =~= s.subrange(
                from + at,
                from + at + pat.len(),
            ));
        },
        Sep::Space => {},
    }
}

proof fn lemma_split_scan_pieces(s: Seq<char>, sep: Sep, start: int, at: int)
    requires
        0 <= start <= at <= s.len(),
        forall|j: int| start <= j < at ==> sep.span(s, j) == 0,
    ensures
        split_scan(s, sep, start, at).len() >= 1,
        forall|i: int, j: int|
            0 <= i < split_scan(s, sep, start, at).len() ==> #[trigger] sep.span(
                split_scan(s, sep, start, at)[i],
                j,
            ) == 0,
        sep matches Sep::Text(pat) ==> join(split_scan(s, sep, start, at), pat) == s.subrange(
            start,
            s.len() as int,
        ),
    decreases s.len() - at,
{
    let pieces = split_scan(s, sep, start, at);
    if at >= s.len() {
        assert forall|i: int, j: int| 0 <= i < pieces.len() implies #[trigger] sep.span(
            pieces[i],
            j,
        ) == 0 by {
            if sep.span(pieces[i], j) > 0 {
                lemma_span_in_part(s, sep, start, s.len() as int, j);
            }
        }
    } else if sep.span(s, at) > 0 {
        let next = at + sep.span(s, at);
        let rest = split_scan(s, sep, next, next);
        lemma_split_scan_pieces(s, sep, next, next);
        assert forall|i: int, j: int| 0 <= i < pieces.len() implies #[trigger] sep.span(
            pieces[i],
            j,
        ) == 0 by {
            if i == 0 {
                if sep.span(pieces[0], j) > 0 {
                    lemma_span_in_part(s, sep, start, at, j);
                }
            } else {
                assert(pieces[i] == rest[i - 1]);
            }
        }
        match sep {
            Sep::Text(pat) => {
                assert(pieces.drop_first() =~= rest);
                assert(s.subrange(start, at) + pat + s.subrange(next, s.len() as int)
                    =~= s.subrange(start, s.len() as int));
            },
            Sep::Space => {},
        }
    } else {
        lemma_split_scan_pieces(s, sep, start, at + 1);
    }
}

/// Cuts `s` at each separator and returns the pieces in order.
pub fn split_text(s: &[char], sep: &Separator) -> (pieces: Vec<Vec<char>>)
    ensures
        texts(pieces@) == split(s@, sep@),
{
    let mut pieces: Vec<Vec<char>> = Vec::new();
    let mut start: usize = 0;
    let mut at: usize = 0;
    assert(texts(pieces@) + split_scan(s@, sep@, 0, 0) =~= split(s@, sep@));
    while at < s.len()
        invariant
            start <= at <= s.len(),
            split(s@, sep@) == texts(pieces@) + split_scan(s@, sep@, start as int, at as int),
        decreases s.len() - at,
    {
        let n = sep.span_at(s, at);
        if n > 0 {
            let piece = copy_range(s, start, at);
            let ghost before = pieces@;
            pieces.push(piece);
            assert(texts(pieces@) =~= texts(before).push(s@.subrange(start as int, at as int)));
            assert(texts(pieces@) + split_scan(s@, sep@, at + n, at + n) =~= texts(before)
                + split_scan(s@, sep@, start as int, at as int));
            at = at + n;
            start = at;
        } else {
            at += 1;
        }
    }
    let piece = copy_range(s, start, s.len());
    let ghost before = pieces@;
    pieces.push(piece);
    assert(texts(pieces@) =~= texts(before).push(s@.subrange(start as int, s.len() as int)));
    assert(texts(pieces@) =~= split(s@, sep@));
    pieces
}

} // verus!
