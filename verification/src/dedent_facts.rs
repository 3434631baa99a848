//! What holds of the indentation normalizer on every text.

use vstd::prelude::*;
use crate::dedent::{
    blank, common, dedent_text, dedented, first_text, has_prefix, join, lemma_common_bounds,
    lemma_shrink_bounds, margin, margin_len, shrink, strip,
};
use crate::text::{is_space, lead, lemma_lead_bounds, lines_of};

verus! {

/// A line holds no line feed.
pub open spec fn no_feed(l: Seq<char>) -> bool {
    forall|k: int| 0 <= k < l.len() ==> l[k] != '\n'
}

/// No line holds a line feed.
pub open spec fn no_feeds(ls: Seq<Seq<char>>) -> bool {
    forall|i: int| 0 <= i < ls.len() ==> no_feed(#[trigger] ls[i])
}

/// The text ends in a line feed.
pub open spec fn ends_feed(t: Seq<char>) -> bool {
    t.len() > 0 && t.last() == '\n'
}

/// `a` and `b` are the same up to index `q`.
pub open spec fn agree(a: Seq<char>, b: Seq<char>, q: int) -> bool {
    0 <= q <= a.len() && q <= b.len() && forall|j: int| 0 <= j < q ==> a[j] == b[j]
}

/// `a` and `b` differ at index `c`, or one of them ends there.
pub open spec fn stops(a: Seq<char>, b: Seq<char>, c: int) -> bool {
    c >= a.len() || c >= b.len() || a[c] != b[c]
}

/// Line `j` has content and parts from `first` at index `r`.
pub open spec fn parts_at(ls: Seq<Seq<char>>, first: Seq<char>, r: int, j: int) -> bool {
    0 <= j < ls.len() && !blank(ls[j]) && stops(first, ls[j], r)
}

/// A text has at least one line, and no line holds a line feed.
pub proof fn lemma_lines_no_feed(s: Seq<char>)
    ensures
        lines_of(s).len() >= 1,
        no_feeds(lines_of(s)),
    decreases s.len(),
{
    if s.len() > 0 {
        lemma_lines_no_feed(s.drop_last());
        let p = lines_of(s.drop_last());
        let r = lines_of(s);
        assert forall|i: int| 0 <= i < r.len() implies no_feed(#[trigger] r[i]) by {
            if s.last() == '\n' {
                if i < p.len() {
                    assert(r[i] == p[i]);
                }
            } else {
                if i < p.len() - 1 {
                    assert(r[i] == p[i]);
                } else {
                    assert(no_feed(p[p.len() - 1]));
                    assert(r[i] == p.last().push(s.last()));
                }
            }
        }
    }
}

proof fn lemma_lines_append(t: Seq<char>, l: Seq<char>)
    requires
        no_feed(l),
    ensures
        lines_of(t).len() >= 1,
        lines_of(t + l) == lines_of(t).update(lines_of(t).len() - 1, lines_of(t).last() + l),
    decreases l.len(),
{
    lemma_lines_no_feed(t);
    let q = lines_of(t);
    if l.len() == 0 {
        assert(t + l =~= t);
        assert(q.last() + l =~= q.last());
        assert(q.update(q.len() - 1, q.last()) =~= q);
    } else {
        let short = l.drop_last();
        lemma_lines_append(t, short);
        assert((t + l).drop_last() =~= t + short);
        assert((t + l).last() == l.last());
        assert((q.last() + short).push(l.last()) =~= q.last() + l);
        assert(lines_of(t + l) =~= q.update(q.len() - 1, q.last() + l));
    }
}

/// Lines that hold no line feed are the lines of their joined text.
pub proof fn lemma_lines_join(ls: Seq<Seq<char>>)
    requires
        ls.len() >= 1,
        no_feeds(ls),
    ensures
        lines_of(join(ls)) == ls,
    decreases ls.len(),
{
    let none = Seq::<char>::empty();
    if ls.len() == 1 {
        lemma_lines_append(none, ls[0]);
        assert(none + ls[0] =~= ls[0]);
        assert(lines_of(none) =~= seq![none]);
        assert(lines_of(join(ls)) =~= ls);
    } else {
        let pre = ls.drop_last();
        assert forall|i: int| 0 <= i < pre.len() implies no_feed(#[trigger] pre[i]) by {
            assert(pre[i] == ls[i]);
        }
        lemma_lines_join(pre);
        let x = join(pre).push('\n');
        assert(x.drop_last() =~= join(pre));
        assert(lines_of(x) == pre.push(none));
        assert(no_feed(ls[ls.len() - 1]));
        lemma_lines_append(x, ls.last());
        assert(none + ls.last() =~= ls.last());
        assert(lines_of(join(ls)) =~= ls);
    }
}

proof fn lemma_blank(l: Seq<char>)
    ensures
        blank(l) <==> forall|k: int| 0 <= k < l.len() ==> is_space(#[trigger] l[k]),
{
    lemma_lead_bounds(l, 0);
}

proof fn lemma_common_agree(a: Seq<char>, b: Seq<char>, k: int, p: int)
    requires
        0 <= k <= p,
        agree(a, b, k),
    ensures
        agree(a, b, common(a, b, k, p)),
        k <= common(a, b, k, p) <= p,
        common(a, b, k, p) < p ==> stops(a, b, common(a, b, k, p)),
    decreases p - k,
{
    if k < p && k < a.len() && k < b.len() && a[k] == b[k] {
        lemma_common_agree(a, b, k + 1, p);
    }
}

proof fn lemma_shrink_agree(ls: Seq<Seq<char>>, first: Seq<char>, i: int, p: int, j: int)
    requires
        0 <= i <= j < ls.len(),
        !blank(ls[j]),
        0 <= p,
    ensures
        agree(first, ls[j], shrink(ls, first, i, p)),
    decreases j - i,
{
    if i == j {
        let q = common(first, ls[j], 0, p);
        lemma_common_agree(first, ls[j], 0, p);
        lemma_shrink_bounds(ls, first, j + 1, q);
    } else if blank(ls[i]) {
        lemma_shrink_agree(ls, first, i + 1, p, j);
    } else {
        lemma_common_bounds(first, ls[i], 0, p);
        lemma_shrink_agree(ls, first, i + 1, common(first, ls[i], 0, p), j);
    }
}

proof fn lemma_shrink_witness(ls: Seq<Seq<char>>, first: Seq<char>, i: int, p: int)
    requires
        0 <= i,
        0 <= p,
    ensures
        shrink(ls, first, i, p) == p || exists|j: int|
            i <= j && #[trigger] parts_at(ls, first, shrink(ls, first, i, p), j),
    decreases ls.len() - i,
{
    let r = shrink(ls, first, i, p);
    if i < ls.len() {
        if blank(ls[i]) {
            lemma_shrink_witness(ls, first, i + 1, p);
            if r != p {
                let j = choose|j: int| i + 1 <= j && #[trigger] parts_at(ls, first, r, j);
                assert(i <= j && parts_at(ls, first, r, j));
            }
        } else {
            let q = common(first, ls[i], 0, p);
            lemma_common_agree(first, ls[i], 0, p);
            lemma_shrink_witness(ls, first, i + 1, q);
            if r != p {
                if r == q {
                    assert(parts_at(ls, first, r, i));
                } else {
                    let j = choose|j: int| i + 1 <= j && #[trigger] parts_at(ls, first, r, j);
                    assert(i <= j && parts_at(ls, first, r, j));
                }
            }
        }
    }
}

proof fn lemma_shrink_zero(ls: Seq<Seq<char>>, first: Seq<char>, i: int, x: int, j: int)
    requires
        0 <= i <= j < ls.len(),
        !blank(ls[j]),
        stops(first, ls[j], 0),
        0 <= x,
    ensures
        shrink(ls, first, i, x) == 0,
    decreases j - i,
{
    if i == j {
        assert(common(first, ls[j], 0, x) == 0);
        lemma_shrink_bounds(ls, first, j + 1, 0);
    } else if blank(ls[i]) {
        lemma_shrink_zero(ls, first, i + 1, x, j);
    } else {
        lemma_common_bounds(first, ls[i], 0, x);
        lemma_shrink_zero(ls, first, i + 1, common(first, ls[i], 0, x), j);
    }
}

proof fn lemma_first_text(ls: Seq<Seq<char>>, i: int)
    requires
        0 <= i <= ls.len(),
    ensures
        i <= first_text(ls, i) <= ls.len(),
        first_text(ls, i) < ls.len() ==> !blank(ls[first_text(ls, i)]),
    decreases ls.len() - i,
{
    if i < ls.len() && blank(ls[i]) {
        lemma_first_text(ls, i + 1);
    }
}

proof fn lemma_first_text_same(a: Seq<Seq<char>>, b: Seq<Seq<char>>, i: int)
    requires
        a.len() == b.len(),
        forall|k: int| 0 <= k < a.len() ==> blank(#[trigger] a[k]) == blank(b[k]),
        0 <= i,
    ensures
        first_text(a, i) == first_text(b, i),
    decreases a.len() - i,
{
    if i < a.len() && blank(a[i]) {
        lemma_first_text_same(a, b, i + 1);
    }
}

/// Lines without a margin: every line is kept as it is.
proof fn lemma_no_margin(ls: Seq<Seq<char>>)
    requires
        margin(ls).len() == 0,
    ensures
        dedented(ls) == ls,
{
    let m = margin(ls);
    assert forall|i: int| 0 <= i < ls.len() implies #[trigger] dedented(ls)[i] == ls[i] by {
        assert(ls[i].take(0) =~= m);
        assert(ls[i].skip(0) =~= ls[i]);
    }
    assert(dedented(ls) =~= ls);
}

/// A line with content begins with the margin, and has content after it.
proof fn lemma_text_line(ls: Seq<Seq<char>>, i: int)
    requires
        0 <= i < ls.len(),
        !blank(ls[i]),
    ensures
        first_text(ls, 0) < ls.len(),
        0 <= margin_len(ls) <= lead(ls[first_text(ls, 0)], 0),
        margin(ls).len() == margin_len(ls),
        agree(ls[first_text(ls, 0)], ls[i], margin_len(ls)),
        margin_len(ls) < ls[i].len(),
        has_prefix(ls[i], margin(ls)),
        dedented(ls)[i] == ls[i].skip(margin_len(ls)),
        !blank(dedented(ls)[i]),
{
    lemma_first_text(ls, 0);
    let f = first_text(ls, 0);
    if f >= ls.len() {
        assert(first_text(ls, 0) < ls.len()) by {
            lemma_first_text_bound(ls, 0, i);
        }
    }
    let first = ls[f];
    let p0 = lead(first, 0);
    lemma_lead_bounds(first, 0);
    let p = margin_len(ls);
    lemma_shrink_bounds(ls, first, 0, p0);
    lemma_shrink_agree(ls, first, 0, p0, i);
    let l = ls[i];
    let a = lead(l, 0);
    lemma_lead_bounds(l, 0);
    if a < p {
        assert(l[a] == first[a]);
        assert(is_space(first[a]));
    }
    assert(l.take(p) =~= first.take(p));
    let d = l.skip(p);
    assert(d[a - p] == l[a]);
    lemma_blank(d);
}

proof fn lemma_first_text_bound(ls: Seq<Seq<char>>, i: int, j: int)
    requires
        0 <= i <= j < ls.len(),
        !blank(ls[j]),
    ensures
        first_text(ls, i) <= j,
    decreases j - i,
{
    if i < j && blank(ls[i]) {
        lemma_first_text_bound(ls, i + 1, j);
    }
}

/// A line of whitespace stays one.
proof fn lemma_blank_line(ls: Seq<Seq<char>>, i: int)
    requires
        0 <= i < ls.len(),
        blank(ls[i]),
    ensures
        blank(dedented(ls)[i]),
{
    let l = ls[i];
    let d = dedented(ls)[i];
    lemma_blank(l);
    lemma_blank(d);
    let n = margin(ls).len() as int;
    if has_prefix(l, margin(ls)) {
        assert forall|k: int| 0 <= k < d.len() implies is_space(#[trigger] d[k]) by {
            assert(d[k] == l[k + n]);
        }
    }
}

/// The lines without their margin have no margin.
pub proof fn lemma_dedented_fixed(ls: Seq<Seq<char>>)
    ensures
        dedented(dedented(ls)) == dedented(ls),
{
    let d = dedented(ls);
    lemma_first_text(ls, 0);
    let f = first_text(ls, 0);
    if f >= ls.len() {
        lemma_no_margin(ls);
    } else {
        let first = ls[f];
        lemma_text_line(ls, f);
        let p = margin_len(ls);
        let p0 = lead(first, 0);
        lemma_lead_bounds(first, 0);
        assert forall|k: int| 0 <= k < ls.len() implies blank(#[trigger] ls[k]) == blank(d[k]) by {
            if blank(ls[k]) {
                lemma_blank_line(ls, k);
            } else {
                lemma_text_line(ls, k);
            }
        }
        lemma_first_text_same(ls, d, 0);
        let g = d[f];
        assert(g == first.skip(p));
        lemma_lead_bounds(g, 0);
        if p == p0 {
            assert(g[0] == first[p0]);
            assert(lead(g, 0) == 0);
            lemma_shrink_bounds(d, g, 0, 0);
        } else {
            lemma_shrink_witness(ls, first, 0, p0);
            let j = choose|j: int| 0 <= j && #[trigger] parts_at(ls, first, p, j);
            lemma_text_line(ls, j);
            assert(first[p] != ls[j][p]);
            assert(g[0] == first[p]);
            assert(d[j][0] == ls[j][p]);
            lemma_shrink_zero(d, g, 0, lead(g, 0), j);
        }
        assert(margin_len(d) == 0);
        assert(margin(d).len() == 0);
        lemma_no_margin(d);
    }
}

/// Normalizing a text twice gives what normalizing it once gives.
pub proof fn lemma_dedent_idempotent(s: Seq<char>)
    ensures
        dedent_text(dedent_text(s)) == dedent_text(s),
{
    let ls = lines_of(s);
    let d = dedented(ls);
    lemma_lines_no_feed(s);
    lemma_dedented_no_feeds(ls);
    lemma_lines_join(d);
    lemma_dedented_fixed(ls);
}

proof fn lemma_dedented_no_feeds(ls: Seq<Seq<char>>)
    requires
        no_feeds(ls),
    ensures
        no_feeds(dedented(ls)),
        dedented(ls).len() == ls.len(),
{
    let d = dedented(ls);
    let n = margin(ls).len() as int;
    assert forall|i: int| 0 <= i < d.len() implies no_feed(#[trigger] d[i]) by {
        assert(no_feed(ls[i]));
        if has_prefix(ls[i], margin(ls)) {
            assert forall|k: int| 0 <= k < d[i].len() implies d[i][k] != '\n' by {
                assert(d[i][k] == ls[i][k + n]);
            }
        }
    }
}

/// Joined lines end in a line feed exactly where there are two or more and
/// the last is empty.
proof fn lemma_join_end(ls: Seq<Seq<char>>)
    requires
        ls.len() >= 1,
        no_feeds(ls),
    ensures
        ends_feed(join(ls)) <==> ls.len() >= 2 && ls.last().len() == 0,
{
    assert(no_feed(ls[ls.len() - 1]));
    if ls.len() >= 2 {
        let x = join(ls.drop_last()).push('\n');
        if ls.last().len() == 0 {
            assert(x + ls.last() =~= x);
        } else {
            assert((x + ls.last()).last() == ls.last().last());
        }
    }
}

/// The last line of a text is empty exactly where the text is empty or ends
/// in a line feed.
proof fn lemma_last_line(s: Seq<char>)
    ensures
        lines_of(s).len() >= 1,
        ends_feed(s) <==> lines_of(s).len() >= 2 && lines_of(s).last().len() == 0,
{
    lemma_lines_no_feed(s);
    if s.len() > 0 {
        lemma_lines_no_feed(s.drop_last());
    }
}

/// A text that ends in a line feed is normalized to one that does. A text
/// that does not is normalized to one that does not, unless its last line is
/// emptied: a last line that does not begin with the margin, or is the margin
/// and nothing more.
pub proof fn lemma_dedent_keeps_final_feed(s: Seq<char>)
    ensures
        ends_feed(s) ==> ends_feed(dedent_text(s)),
        !ends_feed(s) && strip(lines_of(s).last(), margin(lines_of(s))).len() > 0 ==> !ends_feed(
            dedent_text(s),
        ),
        !ends_feed(s) && lines_of(s).len() == 1 ==> !ends_feed(dedent_text(s)),
{
    let ls = lines_of(s);
    let d = dedented(ls);
    lemma_last_line(s);
    lemma_lines_no_feed(s);
    lemma_dedented_no_feeds(ls);
    lemma_join_end(d);
    assert(d.last() == strip(ls.last(), margin(ls)));
}

} // verus!
