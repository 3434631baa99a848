//! Characters, whitespace and lines.

use vstd::prelude::*;
use vstd::std_specs::iter::IteratorSpec;

verus! {

/// Taken on trust of the standard library's `String::push`: the string holds
/// afterwards what it held before and, after that, the character `c`.
pub assume_specification[ String::push ](s: &mut String, c: char)
    ensures
        final(s)@ == old(s)@.push(c),
;

/// Whitespace inside a line: every character that Unicode counts as white
/// space but the line feed, which ends a line.
pub open spec fn is_space(c: char) -> bool {
    c == ' ' || c == '\t' || c == '\r' || c == '\u{b}' || c == '\u{c}' || c == '\u{85}' || c
        == '\u{a0}' || c == '\u{1680}' || ('\u{2000}' <= c && c <= '\u{200a}') || c == '\u{2028}'
        || c == '\u{2029}' || c == '\u{202f}' || c == '\u{205f}' || c == '\u{3000}'
}

/// Whether `c` is whitespace inside a line.
pub fn space(c: char) -> (b: bool)
    ensures
        b == is_space(c),
{
    c == ' ' || c == '\t' || c == '\r' || c == '\u{b}' || c == '\u{c}' || c == '\u{85}' || c
        == '\u{a0}' || c == '\u{1680}' || ('\u{2000}' <= c && c <= '\u{200a}') || c == '\u{2028}'
        || c == '\u{2029}' || c == '\u{202f}' || c == '\u{205f}' || c == '\u{3000}'
}

/// The first index at or after `from` that holds no whitespace, or the length.
pub open spec fn lead(s: Seq<char>, from: int) -> int
    decreases s.len() - from,
{
    if 0 <= from < s.len() && is_space(s[from]) {
        lead(s, from + 1)
    } else {
        from
    }
}

/// The end of `s[lo..to]` once its trailing whitespace is cut.
pub open spec fn trail(s: Seq<char>, lo: int, to: int) -> int
    decreases to - lo,
{
    if lo < to <= s.len() && is_space(s[to - 1]) {
        trail(s, lo, to - 1)
    } else {
        to
    }
}

/// `s[lo..hi]` without the whitespace at either end.
pub open spec fn trimmed(s: Seq<char>, lo: int, hi: int) -> Seq<char> {
    let a = lead(s.take(hi), lo);
    s.subrange(a, trail(s, a, hi))
}

/// `lead` stops within the text, at the first character that is no
/// whitespace.
pub proof fn lemma_lead_bounds(s: Seq<char>, from: int)
    requires
        0 <= from <= s.len(),
    ensures
        from <= lead(s, from) <= s.len(),
        forall|k: int| from <= k < lead(s, from) ==> is_space(#[trigger] s[k]),
        lead(s, from) < s.len() ==> !is_space(s[lead(s, from)]),
    decreases s.len() - from,
{
    if from < s.len() && is_space(s[from]) {
        lemma_lead_bounds(s, from + 1);
    }
}

/// The first index from `from` on and below `hi` that holds no whitespace,
/// or `hi`.
pub fn skip_space(s: &Vec<char>, from: usize, hi: usize) -> (r: usize)
    requires
        from <= hi <= s.len(),
    ensures
        r == lead(s@.take(hi as int), from as int),
        from <= r <= hi,
{
    let mut i: usize = from;
    proof {
        lemma_lead_bounds(s@.take(hi as int), from as int);
    }
    while i < hi && space(s[i])
        invariant
            from <= i <= hi <= s.len(),
            lead(s@.take(hi as int), i as int) == lead(s@.take(hi as int), from as int),
        decreases hi - i,
    {
        i += 1;
    }
    i
}

/// The end of `s[lo..to]` once its trailing whitespace is cut.
pub fn cut_space(s: &Vec<char>, lo: usize, to: usize) -> (r: usize)
    requires
        lo <= to <= s.len(),
    ensures
        r == trail(s@, lo as int, to as int),
        lo <= r <= to,
{
    let mut i: usize = to;
    while i > lo && space(s[i - 1])
        invariant
            lo <= i <= to <= s.len(),
            trail(s@, lo as int, i as int) == trail(s@, lo as int, to as int),
        decreases i - lo,
    {
        i -= 1;
    }
    i
}

/// The characters `s[lo..hi]` as a string.
pub fn string_of(s: &Vec<char>, lo: usize, hi: usize) -> (r: String)
    requires
        lo <= hi <= s.len(),
    ensures
        r@ == s@.subrange(lo as int, hi as int),
{
    let mut r = String::new();
    let mut i: usize = lo;
    while i < hi
        invariant
            lo <= i <= hi <= s.len(),
            r@ == s@.subrange(lo as int, i as int),
        decreases hi - i,
    {
        r.push(s[i]);
        i += 1;
        assert(r@ =~= s@.subrange(lo as int, i as int));
    }
    assert(r@ =~= s@.subrange(lo as int, hi as int));
    r
}

/// `s[lo..hi]` without the whitespace at either end, as a string.
pub fn trimmed_string(s: &Vec<char>, lo: usize, hi: usize) -> (r: String)
    requires
        lo <= hi <= s.len(),
    ensures
        r@ == trimmed(s@, lo as int, hi as int),
{
    let a = skip_space(s, lo, hi);
    let b = cut_space(s, a, hi);
    string_of(s, a, b)
}

/// The characters of a string slice.
pub fn chars_of(s: &str) -> (v: Vec<char>)
    ensures
        v@ == s@,
{
    let mut it = s.chars();
    let mut v: Vec<char> = Vec::new();
    assert(v@ + it.remaining() =~= s@);
    loop
        invariant
            v@ + it.remaining() == s@,
            it.decrease() is Some,
        decreases it.decrease()->0,
    {
        let ghost rest = it.remaining();
        match it.next() {
            Some(c) => {
                let ghost before = v@;
                v.push(c);
                assert(v@ + it.remaining() =~= before + rest);
            },
            None => {
                assert(v@ + rest =~= v@);
                return v;
            },
        }
    }
}

/// The lines of a text: the pieces between its line feeds. A text of `n` line
/// feeds has `n + 1` lines, the last of them empty where the text ends in one.
pub open spec fn lines_of(s: Seq<char>) -> Seq<Seq<char>>
    decreases s.len(),
{
    if s.len() == 0 {
        seq![Seq::<char>::empty()]
    } else {
        let p = lines_of(s.drop_last());
        if s.last() == '\n' {
            p.push(Seq::<char>::empty())
        } else {
            p.update(p.len() - 1, p.last().push(s.last()))
        }
    }
}

/// The view of a vector of lines.
pub open spec fn rows_view(v: Seq<Vec<char>>) -> Seq<Seq<char>> {
    v.map_values(|l: Vec<char>| l@)
}

/// The lines of a text.
pub fn split_lines(s: &Vec<char>) -> (r: Vec<Vec<char>>)
    ensures
        rows_view(r@) == lines_of(s@),
        r.len() >= 1,
{
    let mut acc: Vec<Vec<char>> = Vec::new();
    let mut cur: Vec<char> = Vec::new();
    let mut i: usize = 0;
    assert(rows_view(acc@).push(cur@) =~= lines_of(s@.take(0)));
    while i < s.len()
        invariant
            i <= s.len(),
            rows_view(acc@).push(cur@) == lines_of(s@.take(i as int)),
        decreases s.len() - i,
    {
        let c = s[i];
        proof {
            assert(s@.take(i + 1).drop_last() =~= s@.take(i as int));
            assert(s@.take(i + 1).last() == c);
        }
        if c == '\n' {
            acc.push(cur);
            cur = Vec::new();
            assert(rows_view(acc@).push(cur@) =~= lines_of(s@.take(i + 1)));
        } else {
            cur.push(c);
            assert(rows_view(acc@).push(cur@) =~= lines_of(s@.take(i + 1)));
        }
        i += 1;
    }
    assert(s@.take(s.len() as int) =~= s@);
    acc.push(cur);
    assert(rows_view(acc@) =~= lines_of(s@));
    acc
}

/// Whether the word `w` stands in `s` at index `at`.
pub open spec fn word_at(s: Seq<char>, at: int, w: Seq<char>) -> bool {
    0 <= at && at + w.len() <= s.len() && s.subrange(at, at + w.len()) == w
}

/// Whether the word `w` stands in `s` at index `at`.
pub fn has_word(s: &Vec<char>, at: usize, w: &str) -> (b: bool)
    requires
        at <= s.len(),
    ensures
        b == word_at(s@, at as int, w@),
{
    let n = w.unicode_len();
    if n > s.len() - at {
        return false;
    }
    let mut i: usize = 0;
    while i < n
        invariant
            i <= n,
            n == w@.len(),
            at + n <= s.len(),
            forall|j: int| 0 <= j < i ==> s@[at + j] == w@[j],
        decreases n - i,
    {
        if s[at + i] != w.get_char(i) {
            proof {
                let sub = s@.subrange(at as int, at + n);
                assert(sub[i as int] == s@[at + i]);
            }
            return false;
        }
        i += 1;
    }
    assert(s@.subrange(at as int, at + n) =~= w@);
    true
}

/// Whether two texts are the same.
pub fn same_text(s: &Vec<char>, w: &str) -> (b: bool)
    ensures
        b == (s@ == w@),
{
    let n = w.unicode_len();
    let b = s.len() == n && has_word(s, 0, w);
    proof {
        if s.len() == n {
            assert(s@.subrange(0, n as int) =~= s@);
        }
    }
    b
}

} // verus!
