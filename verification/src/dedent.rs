//! The indentation normalizer: it removes from every line of a text the
//! whitespace that all its lines with content begin with.

use vstd::prelude::*;
use crate::text::{chars_of, lead, lines_of, rows_view, skip_space, split_lines, string_of};

verus! {

/// A line of whitespace only.
pub open spec fn blank(l: Seq<char>) -> bool {
    lead(l, 0) >= l.len()
}

/// The first index at or after `k` and below `p` at which `a` and `b` differ
/// or one of them ends; `p` where there is none.
pub open spec fn common(a: Seq<char>, b: Seq<char>, k: int, p: int) -> int
    decreases p - k,
{
    if 0 <= k < p && k < a.len() && k < b.len() && a[k] == b[k] {
        common(a, b, k + 1, p)
    } else {
        k
    }
}

/// The length `p` after every line with content from index `i` on has cut it
/// down to what it shares with `first`.
pub open spec fn shrink(ls: Seq<Seq<char>>, first: Seq<char>, i: int, p: int) -> int
    decreases ls.len() - i,
{
    if i < 0 || i >= ls.len() {
        p
    } else if blank(ls[i]) {
        shrink(ls, first, i + 1, p)
    } else {
        shrink(ls, first, i + 1, common(first, ls[i], 0, p))
    }
}

/// The index of the first line with content at or after `i`, or the number of
/// lines.
pub open spec fn first_text(ls: Seq<Seq<char>>, i: int) -> int
    decreases ls.len() - i,
{
    if 0 <= i < ls.len() && blank(ls[i]) {
        first_text(ls, i + 1)
    } else {
        i
    }
}

/// The length of the margin: of the whitespace that the first line with
/// content begins with, as much as every line with content begins with.
pub open spec fn margin_len(ls: Seq<Seq<char>>) -> int {
    let f = first_text(ls, 0);
    if f >= ls.len() {
        0
    } else {
        shrink(ls, ls[f], 0, lead(ls[f], 0))
    }
}

/// The margin of the lines; empty where no line has content.
pub open spec fn margin(ls: Seq<Seq<char>>) -> Seq<char> {
    let f = first_text(ls, 0);
    if f >= ls.len() {
        Seq::<char>::empty()
    } else {
        ls[f].take(margin_len(ls))
    }
}

/// Whether line `l` begins with `m`.
pub open spec fn has_prefix(l: Seq<char>, m: Seq<char>) -> bool {
    m.len() <= l.len() && l.take(m.len() as int) == m
}

/// A line without the margin `m`, or the empty line where it does not begin
/// with `m`.
pub open spec fn strip(l: Seq<char>, m: Seq<char>) -> Seq<char> {
    if has_prefix(l, m) {
        l.skip(m.len() as int)
    } else {
        Seq::<char>::empty()
    }
}

/// The lines, each without the margin of them all.
pub open spec fn dedented(ls: Seq<Seq<char>>) -> Seq<Seq<char>> {
    ls.map_values(|l: Seq<char>| strip(l, margin(ls)))
}

/// The lines with a line feed between each two.
pub open spec fn join(ls: Seq<Seq<char>>) -> Seq<char>
    decreases ls.len(),
{
    if ls.len() == 0 {
        Seq::<char>::empty()
    } else if ls.len() == 1 {
        ls[0]
    } else {
        join(ls.drop_last()).push('\n') + ls.last()
    }
}

/// The text with the margin of its lines removed.
pub open spec fn dedent_text(s: Seq<char>) -> Seq<char> {
    join(dedented(lines_of(s)))
}

/// `common` stays between `k` and `p`.
pub proof fn lemma_common_bounds(a: Seq<char>, b: Seq<char>, k: int, p: int)
    requires
        0 <= k <= p,
    ensures
        k <= common(a, b, k, p) <= p,
    decreases p - k,
{
    if k < p && k < a.len() && k < b.len() && a[k] == b[k] {
        lemma_common_bounds(a, b, k + 1, p);
    }
}

/// `shrink` never makes the length longer, nor negative.
pub proof fn lemma_shrink_bounds(ls: Seq<Seq<char>>, first: Seq<char>, i: int, p: int)
    requires
        0 <= p,
    ensures
        0 <= shrink(ls, first, i, p) <= p,
    decreases ls.len() - i,
{
    if 0 <= i < ls.len() {
        if blank(ls[i]) {
            lemma_shrink_bounds(ls, first, i + 1, p);
        } else {
            lemma_common_bounds(first, ls[i], 0, p);
            lemma_shrink_bounds(ls, first, i + 1, common(first, ls[i], 0, p));
        }
    }
}

fn is_blank(l: &Vec<char>) -> (b: bool)
    ensures
        b == blank(l@),
{
    assert(l@.take(l.len() as int) =~= l@);
    skip_space(l, 0, l.len()) >= l.len()
}

fn common_len(a: &Vec<char>, b: &Vec<char>, p: usize) -> (r: usize)
    ensures
        r == common(a@, b@, 0, p as int),
        r <= p,
{
    let mut k: usize = 0;
    while k < p && k < a.len() && k < b.len() && a[k] == b[k]
        invariant
            k <= p,
            common(a@, b@, k as int, p as int) == common(a@, b@, 0, p as int),
        decreases p - k,
    {
        k += 1;
    }
    proof {
        lemma_common_bounds(a@, b@, k as int, p as int);
    }
    k
}

/// The index of the first line with content and the length of the margin.
fn find_margin(lines: &Vec<Vec<char>>) -> (r: (usize, usize))
    ensures
        r.0 == first_text(rows_view(lines@), 0),
        r.1 == margin_len(rows_view(lines@)),
        r.0 <= lines.len(),
        r.0 < lines.len() ==> r.1 <= lines[r.0 as int].len(),
{
    let ghost ls = rows_view(lines@);
    let mut f: usize = 0;
    while f < lines.len() && is_blank(&lines[f])
        invariant
            f <= lines.len(),
            ls == rows_view(lines@),
            first_text(ls, f as int) == first_text(ls, 0),
        decreases lines.len() - f,
    {
        f += 1;
    }
    if f >= lines.len() {
        return (f, 0);
    }
    let first = &lines[f];
    assert(first@.take(first.len() as int) =~= first@);
    let mut p: usize = skip_space(first, 0, first.len());
    let ghost p0 = p as int;
    let mut i: usize = 0;
    while i < lines.len()
        invariant
            i <= lines.len(),
            ls == rows_view(lines@),
            first@ == ls[f as int],
            p <= first.len(),
            shrink(ls, first@, i as int, p as int) == shrink(ls, first@, 0, p0),
        decreases lines.len() - i,
    {
        if !is_blank(&lines[i]) {
            p = common_len(first, &lines[i], p);
        }
        i += 1;
    }
    (f, p)
}

fn begins_with(l: &Vec<char>, first: &Vec<char>, p: usize) -> (b: bool)
    requires
        p <= first.len(),
    ensures
        b == has_prefix(l@, first@.take(p as int)),
{
    if l.len() < p {
        return false;
    }
    let mut k: usize = 0;
    while k < p
        invariant
            k <= p <= first.len(),
            p <= l.len(),
            forall|j: int| 0 <= j < k ==> l@[j] == first@[j],
        decreases p - k,
    {
        if l[k] != first[k] {
            proof {
                assert(l@.take(p as int)[k as int] != first@.take(p as int)[k as int]);
            }
            return false;
        }
        k += 1;
    }
    assert(l@.take(p as int) =~= first@.take(p as int));
    true
}

/// The characters `s[lo..hi]`.
pub fn slice_of(s: &Vec<char>, lo: usize, hi: usize) -> (r: Vec<char>)
    requires
        lo <= hi <= s.len(),
    ensures
        r@ == s@.subrange(lo as int, hi as int),
{
    let mut r: Vec<char> = Vec::new();
    let mut i: usize = lo;
    while i < hi
        invariant
            lo <= i <= hi <= s.len(),
            r@ == s@.subrange(lo as int, i as int),
        decreases hi - i,
    {
        r.push(s[i]);
        i += 1;
        assert(r@ =~= s@.subrange(lo as int, i as int));
    }
    assert(r@ =~= s@.subrange(lo as int, hi as int));
    r
}

/// Removes the margin from every line.
pub fn dedent_lines(lines: &Vec<Vec<char>>) -> (r: Vec<Vec<char>>)
    ensures
        rows_view(r@) == dedented(rows_view(lines@)),
{
    let ghost ls = rows_view(lines@);
    let (f, p) = find_margin(lines);
    let mut out: Vec<Vec<char>> = Vec::new();
    let mut i: usize = 0;
    let empty: Vec<char> = Vec::new();
    assert(rows_view(out@) =~= dedented(ls).take(0));
    while i < lines.len()
        invariant
            i <= lines.len(),
            ls == rows_view(lines@),
            f == first_text(ls, 0),
            p == margin_len(ls),
            f <= lines.len(),
            f < lines.len() ==> p <= lines[f as int].len(),
            empty@.len() == 0,
            rows_view(out@) == dedented(ls).take(i as int),
        decreases lines.len() - i,
    {
        let l = &lines[i];
        let first = if f < lines.len() { &lines[f] } else { &empty };
        let q: usize = if f < lines.len() { p } else { 0 };
        assert(first@.take(q as int) =~= margin(ls));
        let piece = if begins_with(l, first, q) {
            slice_of(l, q, l.len())
        } else {
            Vec::new()
        };
        assert(piece@ =~= strip(l@, margin(ls)));
        let ghost before = rows_view(out@);
        out.push(piece);
        proof {
            assert(ls[i as int] == l@);
            assert(dedented(ls)[i as int] == strip(ls[i as int], margin(ls)));
            assert(rows_view(out@) =~= before.push(piece@));
            assert(dedented(ls).take(i + 1) =~= dedented(ls).take(i as int).push(piece@));
        }
        i += 1;
    }
    assert(dedented(ls).take(lines.len() as int) =~= dedented(ls));
    out
}

/// Joins the lines with a line feed between each two.
pub fn join_lines(lines: &Vec<Vec<char>>) -> (r: Vec<char>)
    ensures
        r@ == join(rows_view(lines@)),
{
    let ghost ls = rows_view(lines@);
    let mut out: Vec<char> = Vec::new();
    let mut k: usize = 0;
    assert(join(ls.take(0)) =~= out@);
    while k < lines.len()
        invariant
            k <= lines.len(),
            ls == rows_view(lines@),
            out@ == join(ls.take(k as int)),
        decreases lines.len() - k,
    {
        if k > 0 {
            out.push('\n');
        }
        let ghost base = out@;
        let l = &lines[k];
        let mut j: usize = 0;
        while j < l.len()
            invariant
                j <= l.len(),
                out@ == base + l@.take(j as int),
            decreases l.len() - j,
        {
            out.push(l[j]);
            j += 1;
            assert(out@ =~= base + l@.take(j as int));
        }
        proof {
            assert(l@.take(l.len() as int) =~= l@);
            assert(ls.take(k + 1).drop_last() =~= ls.take(k as int));
            assert(ls.take(k + 1).last() == l@);
            if k == 0 {
                assert(out@ =~= l@);
            }
        }
        k += 1;
    }
    assert(ls.take(lines.len() as int) =~= ls);
    out
}

/// Removes from every line of `s` the whitespace that all its lines with
/// content begin with. A line that does not begin with it becomes empty.
pub fn dedent(s: &str) -> (r: String)
    ensures
        r@ == dedent_text(s@),
{
    let v = chars_of(s);
    let lines = split_lines(&v);
    let out = dedent_lines(&lines);
    let t = join_lines(&out);
    let r = string_of(&t, 0, t.len());
    assert(t@.subrange(0, t.len() as int) =~= t@);
    r
}

} // verus!
