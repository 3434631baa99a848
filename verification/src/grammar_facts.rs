//! What holds of the grammar on every text.

use vstd::prelude::*;
use crate::dedent_facts::lemma_lines_no_feed;
use crate::grammar::{
    Kind, at, cells, description_end, keyword, last_type, next, parsed, pos, rows_run,
    scenario_at, scenarios_run, step_at, steps_run, succ, table_at, tag_flush, tag_scan,
    tags_before, tags_run,
};
use crate::model::{
    Error, ScenarioView, StepType, StepTypeError, StepView, all_steps_ok, kind_before,
    kinds_resolved, rectangular, resolved, scenario_ok, step_ok, steps_ok, tags_ok, well_formed,
};
use crate::text::{is_space, lead, lemma_lead_bounds, lines_of, word_at};

verus! {

/// What each of the five keywords stands for: `Given`, `When` and `Then` for
/// their own kind whatever came before, `And` and `But` for the kind of the
/// step before them, and for none where there is no such step.
pub proof fn lemma_keyword_kinds(context: Option<StepType>)
    ensures
        resolved("Given"@, context) == Ok::<StepType, StepTypeError>(StepType::Given),
        resolved("When"@, context) == Ok::<StepType, StepTypeError>(StepType::When),
        resolved("Then"@, context) == Ok::<StepType, StepTypeError>(StepType::Then),
        context matches Some(k) ==> resolved("And"@, context) == Ok::<StepType, StepTypeError>(k)
            && resolved("But"@, context) == Ok::<StepType, StepTypeError>(k),
        context is None ==> resolved("And"@, context) == Err::<StepType, StepTypeError>(
            StepTypeError::MissingContext,
        ) && resolved("But"@, context) == Err::<StepType, StepTypeError>(
            StepTypeError::MissingContext,
        ),
{
    reveal_strlit("Given");
    reveal_strlit("When");
    reveal_strlit("Then");
    reveal_strlit("And");
    reveal_strlit("But");
    assert("When"@[0] != "Then"@[0]);
    assert("And"@[0] != "But"@[0]);
}

/// A sequence of steps whose first step begins with `And` or `But` is
/// refused, with the position of that step.
pub proof fn lemma_continuation_first(ls: Seq<Seq<char>>, i: int)
    requires
        at(ls, i) == Kind::Step,
        keyword(ls[i]) == "And"@ || keyword(ls[i]) == "But"@,
    ensures
        steps_run(ls, i, Seq::empty()) == Err::<(Seq<StepView>, int), Error>(
            Error::Context { position: pos(ls, i) },
        ),
{
    lemma_keyword_kinds(None);
}

/// A line that tags may stand on or that is passed over.
pub open spec fn before_feature(k: Kind) -> bool {
    k == Kind::Tags || k == Kind::Blank || k == Kind::Comment
}

proof fn lemma_tags_run_lines(ls: Seq<Seq<char>>, i: int, acc: Seq<Seq<char>>)
    requires
        0 <= i,
    ensures
        i <= tags_run(ls, i, acc).1,
        !before_feature(at(ls, tags_run(ls, i, acc).1)),
        forall|k: int| i <= k < tags_run(ls, i, acc).1 ==> before_feature(at(ls, k)),
    decreases ls.len() - i,
{
    if at(ls, i) == Kind::Tags {
        lemma_tags_run_lines(ls, i + 1, tag_scan(ls[i], 0, None, acc));
    } else if at(ls, i) == Kind::Blank || at(ls, i) == Kind::Comment {
        lemma_tags_run_lines(ls, i + 1, acc);
    }
}

/// The position of a feature is the line and the column, both counted from
/// one, of the first character of its `Feature:` keyword; only blank lines,
/// comments and tags stand before that line, and only whitespace before the
/// keyword.
pub proof fn lemma_feature_position(s: Seq<char>)
    requires
        parsed(s) is Ok,
    ensures
        ({
            let ls = lines_of(s);
            let i = tags_run(ls, 0, Seq::empty()).1;
            let c = lead(ls[i], 0);
            &&& 0 <= i < ls.len()
            &&& 0 <= c < ls[i].len()
            &&& word_at(ls[i], c, "Feature:"@)
            &&& forall|k: int| 0 <= k < c ==> is_space(#[trigger] ls[i][k])
            &&& forall|k: int| 0 <= k < i ==> before_feature(#[trigger] at(ls, k))
            &&& parsed(s)->Ok_0.position == (succ(i), succ(c))
            &&& i < usize::MAX && c < usize::MAX ==> parsed(s)->Ok_0.position.0 == i + 1 && parsed(
                s,
            )->Ok_0.position.1 == c + 1
        }),
{
    let ls = lines_of(s);
    lemma_tags_run_lines(ls, 0, Seq::empty());
    let i = tags_run(ls, 0, Seq::empty()).1;
    lemma_lead_bounds(ls[i], 0);
}

proof fn lemma_tag_flush_unique(l: Seq<char>, i: int, start: Option<int>, acc: Seq<Seq<char>>)
    requires
        acc.no_duplicates(),
    ensures
        tag_flush(l, i, start, acc).no_duplicates(),
{
    let r = tag_flush(l, i, start, acc);
    if r != acc {
        let t = l.subrange(start->0, i);
        assert(!acc.contains(t));
        assert(r == acc.push(t));
        assert forall|a: int, b: int| 0 <= a < r.len() && 0 <= b < r.len() && a != b implies r[a]
            != r[b] by {
            if a < acc.len() && b < acc.len() {
            } else if a < acc.len() {
                assert(acc.contains(acc[a]));
            } else {
                assert(acc.contains(acc[b]));
            }
        }
    }
}

proof fn lemma_tag_scan_unique(l: Seq<char>, i: int, start: Option<int>, acc: Seq<Seq<char>>)
    requires
        acc.no_duplicates(),
    ensures
        tag_scan(l, i, start, acc).no_duplicates(),
    decreases l.len() - i,
{
    lemma_tag_flush_unique(l, i, start, acc);
    if 0 <= i < l.len() {
        if is_space(l[i]) {
            lemma_tag_scan_unique(l, i + 1, None, tag_flush(l, i, start, acc));
        } else {
            lemma_tag_scan_unique(l, i + 1, if start is Some { start } else { Some(i) }, acc);
        }
    }
}

proof fn lemma_tags_run_unique(ls: Seq<Seq<char>>, i: int, acc: Seq<Seq<char>>)
    requires
        acc.no_duplicates(),
    ensures
        tags_run(ls, i, acc).0.no_duplicates(),
    decreases ls.len() - i,
{
    if at(ls, i) == Kind::Tags {
        lemma_tag_scan_unique(ls[i], 0, None, acc);
        lemma_tags_run_unique(ls, i + 1, tag_scan(ls[i], 0, None, acc));
    } else if at(ls, i) == Kind::Blank || at(ls, i) == Kind::Comment {
        lemma_tags_run_unique(ls, i + 1, acc);
    }
}

/// No tag stands twice among the tags of a feature, a scenario or its
/// examples.
pub proof fn lemma_tags_unique(ls: Seq<Seq<char>>, i: int)
    ensures
        tags_before(ls, i) matches Some(t) ==> t.no_duplicates(),
{
    lemma_tags_run_unique(ls, i, Seq::empty());
}

proof fn lemma_steps_kinds(ls: Seq<Seq<char>>, i: int, acc: Seq<StepView>)
    requires
        kinds_resolved(acc),
    ensures
        steps_run(ls, i, acc) matches Ok(r) ==> kinds_resolved(r.0),
    decreases ls.len() - i,
{
    if at(ls, i) == Kind::Step {
        match step_at(ls, i, last_type(acc)) {
            Ok((s, j)) => {
                let more = acc.push(s);
                assert(resolved(s.raw_type, last_type(acc)) == Ok::<StepType, StepTypeError>(s.ty));
                assert forall|k: int| 0 <= k < more.len() implies resolved(
                    (#[trigger] more[k]).raw_type,
                    kind_before(more, k),
                ) == Ok::<StepType, StepTypeError>(more[k].ty) by {
                    if k < acc.len() {
                        assert(more[k] == acc[k]);
                        assert(kind_before(more, k) == kind_before(acc, k));
                    } else {
                        assert(kind_before(more, k) == last_type(acc));
                    }
                }
                if i < j <= ls.len() {
                    lemma_steps_kinds(ls, j, more);
                }
            },
            Err(_) => {},
        }
    }
}

/// In a sequence of steps that was read, every step has the kind that its
/// keyword stands for after the step before it: its own for `Given`, `When`
/// and `Then`, that of the step before for `And` and `But`. No step has both
/// a text block and a table, and every table is rectangular.
pub proof fn lemma_steps_ok(ls: Seq<Seq<char>>, i: int)
    ensures
        steps_run(ls, i, Seq::empty()) matches Ok(r) ==> steps_ok(r.0),
{
    lemma_steps_kinds(ls, i, Seq::empty());
    lemma_steps_tables(ls, i, Seq::empty());
}

/// All the rows are `width` cells wide.
pub open spec fn all_wide(rows: Seq<Seq<Seq<char>>>, width: nat) -> bool {
    forall|k: int| 0 <= k < rows.len() ==> (#[trigger] rows[k]).len() == width
}

/// Every scenario is as `scenario_ok` says.
pub open spec fn scenarios_ok(v: Seq<ScenarioView>) -> bool {
    forall|k: int| 0 <= k < v.len() ==> scenario_ok(#[trigger] v[k])
}

proof fn lemma_rows_wide(ls: Seq<Seq<char>>, i: int, width: nat, acc: Seq<Seq<Seq<char>>>)
    requires
        all_wide(acc, width),
    ensures
        rows_run(ls, i, width, acc) matches Ok(r) ==> all_wide(r.0, width),
    decreases ls.len() - i,
{
    if at(ls, i) == Kind::Row {
        if cells(ls[i]).len() == width {
            let more = acc.push(cells(ls[i]));
            assert forall|k: int| 0 <= k < more.len() implies (#[trigger] more[k]).len()
                == width by {
                if k < acc.len() {
                    assert(more[k] == acc[k]);
                }
            }
            lemma_rows_wide(ls, i + 1, width, more);
        }
    } else if at(ls, i) == Kind::Blank || at(ls, i) == Kind::Comment {
        lemma_rows_wide(ls, i + 1, width, acc);
    }
}

/// A table that was read is rectangular.
pub proof fn lemma_table_rectangular(ls: Seq<Seq<char>>, i: int)
    ensures
        table_at(ls, i) matches Ok(r) ==> rectangular(r.0),
{
    lemma_rows_wide(ls, i + 1, cells(ls[i]).len(), Seq::empty());
}

proof fn lemma_step_table(ls: Seq<Seq<char>>, i: int, context: Option<StepType>)
    ensures
        step_at(ls, i, context) matches Ok(r) ==> step_ok(r.0),
{
    let j = next(ls, i + 1);
    lemma_table_rectangular(ls, j);
}

proof fn lemma_steps_tables(ls: Seq<Seq<char>>, i: int, acc: Seq<StepView>)
    requires
        all_steps_ok(acc),
    ensures
        steps_run(ls, i, acc) matches Ok(r) ==> all_steps_ok(r.0),
    decreases ls.len() - i,
{
    if at(ls, i) == Kind::Step {
        lemma_step_table(ls, i, last_type(acc));
        match step_at(ls, i, last_type(acc)) {
            Ok((s, j)) => {
                let more = acc.push(s);
                assert forall|k: int| 0 <= k < more.len() implies step_ok(#[trigger] more[k]) by {
                    if k < acc.len() {
                        assert(more[k] == acc[k]);
                    }
                }
                if i < j <= ls.len() {
                    lemma_steps_tables(ls, j, more);
                }
            },
            Err(_) => {},
        }
    }
}

proof fn lemma_scenario_ok(ls: Seq<Seq<char>>, i: int, tags: Option<Seq<Seq<char>>>)
    requires
        tags_ok(tags),
    ensures
        scenario_at(ls, i, tags) matches Ok(r) ==> scenario_ok(r.0) && tags_ok(r.2),
{
    let first = next(ls, i + 1);
    lemma_steps_ok(ls, first);
    match steps_run(ls, first, Seq::empty()) {
        Ok((steps, j)) => {
            let k = tags_run(ls, j, Seq::empty()).1;
            lemma_table_rectangular(ls, next(ls, k + 1));
            lemma_tags_unique(ls, j);
        },
        Err(_) => {},
    }
}

proof fn lemma_scenarios_ok(
    ls: Seq<Seq<char>>,
    i: int,
    tags: Option<Seq<Seq<char>>>,
    acc: Seq<ScenarioView>,
)
    requires
        scenarios_ok(acc),
        tags_ok(tags),
    ensures
        scenarios_run(ls, i, tags, acc) matches Ok(v) ==> scenarios_ok(v),
    decreases ls.len() - i,
{
    if at(ls, i) == Kind::Scenario {
        lemma_scenario_ok(ls, i, tags);
        match scenario_at(ls, i, tags) {
            Ok((s, j, pending)) => {
                let more = acc.push(s);
                assert forall|k: int| 0 <= k < more.len() implies scenario_ok(
                    #[trigger] more[k],
                ) by {
                    if k < acc.len() {
                        assert(more[k] == acc[k]);
                    }
                }
                if i < j <= ls.len() {
                    lemma_scenarios_ok(ls, j, pending, more);
                }
            },
            Err(_) => {},
        }
    }
}

/// In a feature that was read, every row of every table is as wide as the
/// header of its table, no step has both a text block and a table, every
/// step has the kind that its keyword stands for after the step before it,
/// and no tag stands twice in one place.
pub proof fn lemma_well_formed(s: Seq<char>)
    ensures
        parsed(s) matches Ok(f) ==> well_formed(f),
{
    let ls = lines_of(s);
    let f = tags_run(ls, 0, Seq::empty()).1;
    let d0 = next(ls, f + 1);
    let d1 = description_end(ls, d0, d0);
    let b = next(ls, d1);
    lemma_steps_ok(ls, next(ls, b + 1));
    lemma_tags_unique(ls, 0);
    lemma_tags_unique(ls, b);
    if at(ls, b) == Kind::Background {
        match steps_run(ls, next(ls, b + 1), Seq::empty()) {
            Ok((steps, k)) => {
                lemma_tags_unique(ls, k);
                lemma_scenarios_ok(
                    ls,
                    tags_run(ls, k, Seq::empty()).1,
                    tags_before(ls, k),
                    Seq::empty(),
                );
            },
            Err(_) => {},
        }
    } else {
        lemma_scenarios_ok(
            ls,
            tags_run(ls, b, Seq::empty()).1,
            tags_before(ls, b),
            Seq::empty(),
        );
    }
}

/// The line and the column, both counted from one, of the character at offset
/// `k` of a text: a line feed ends its line, and the next character stands
/// first on the next.
pub open spec fn line_col(s: Seq<char>, k: int) -> (int, int)
    decreases k,
{
    if k <= 0 || k > s.len() {
        (1, 1)
    } else {
        let before = line_col(s, k - 1);
        if s[k - 1] == '\n' {
            (before.0 + 1, 1)
        } else {
            (before.0, before.1 + 1)
        }
    }
}

/// The character at offset `k` stands on the last line of the text before
/// it, after what that line holds.
proof fn lemma_line_col(s: Seq<char>, k: int)
    requires
        0 <= k <= s.len(),
    ensures
        line_col(s, k) == (
            lines_of(s.take(k)).len() as int,
            lines_of(s.take(k)).last().len() as int + 1,
        ),
    decreases k,
{
    if k > 0 {
        lemma_line_col(s, k - 1);
        lemma_lines_no_feed(s.take(k - 1));
        assert(s.take(k).drop_last() =~= s.take(k - 1));
        assert(s.take(k).last() == s[k - 1]);
    } else {
        assert(s.take(0) =~= Seq::<char>::empty());
    }
}

/// Offset `k` of the text is index `c` of its line `i`.
pub open spec fn stands_at(s: Seq<char>, k: int, i: int, c: int) -> bool {
    let ls = lines_of(s);
    &&& 0 <= k <= s.len()
    &&& lines_of(s.take(k)).len() == i + 1
    &&& lines_of(s.take(k)).last().len() == c
    &&& k + (ls[i].len() - c) <= s.len()
    &&& i == ls.len() - 1 ==> k + (ls[i].len() - c) == s.len()
    &&& forall|m: int| c <= m < ls[i].len() ==> s[k - c + m] == #[trigger] ls[i][m]
}

proof fn lemma_offset(s: Seq<char>, i: int, c: int)
    requires
        0 <= i < lines_of(s).len(),
        0 <= c <= lines_of(s)[i].len(),
    ensures
        exists|k: int| stands_at(s, k, i, c),
    decreases s.len(),
{
    let ls = lines_of(s);
    if s.len() == 0 {
        assert(s.take(0) =~= s);
        assert(stands_at(s, 0, i, c));
    } else {
        let short = s.drop_last();
        let p = lines_of(short);
        lemma_lines_no_feed(short);
        let whole = s.len() as int;
        let at_end = if s.last() == '\n' {
            i == p.len()
        } else {
            i == p.len() - 1 && c == ls[i].len()
        };
        if at_end {
            assert(s.take(whole) =~= s);
            assert(stands_at(s, whole, i, c));
        } else {
            assert(ls[i].len() >= p[i].len());
            lemma_offset(short, i, c);
            let k = choose|k: int| stands_at(short, k, i, c);
            assert(s.take(k) =~= short.take(k));
            assert forall|m: int| c <= m < ls[i].len() implies s[k - c + m] == #[trigger] ls[i][m] by {
                if m < p[i].len() {
                    assert(short[k - c + m] == p[i][m]);
                }
            }
            assert(stands_at(s, k, i, c));
        }
    }
}

/// The `Feature:` keyword stands at offset `k` of the text, and the position
/// of the feature is the line and column of that offset.
pub open spec fn feature_at(s: Seq<char>, k: int) -> bool {
    &&& word_at(s, k, "Feature:"@)
    &&& parsed(s) matches Ok(f) && f.position == (
        succ(line_col(s, k).0 - 1),
        succ(line_col(s, k).1 - 1),
    )
}

/// The position of a feature that was read is the line and column, both
/// counted from one, of the first character of its `Feature:` keyword in the
/// text.
pub proof fn lemma_feature_offset(s: Seq<char>)
    requires
        parsed(s) is Ok,
    ensures
        exists|k: int| feature_at(s, k),
{
    let ls = lines_of(s);
    let i = tags_run(ls, 0, Seq::empty()).1;
    let c = lead(ls[i], 0);
    let w = "Feature:"@;
    lemma_feature_position(s);
    lemma_offset(s, i, c);
    let k = choose|k: int| stands_at(s, k, i, c);
    lemma_line_col(s, k);
    let found = s.subrange(k, k + w.len());
    assert(found =~= w) by {
        assert forall|j: int| 0 <= j < w.len() implies #[trigger] found[j] == w[j] by {
            assert(ls[i].subrange(c, c + w.len())[j] == ls[i][c + j]);
            assert(s[k - c + (c + j)] == ls[i][c + j]);
        }
    }
    assert(feature_at(s, k));
}

} // verus!
