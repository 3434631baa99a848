//! The parser: it reads the lines of a text as the grammar of a feature
//! document says.

use vstd::prelude::*;
use crate::dedent::{dedent_lines, dedented, join, join_lines, slice_of};
use crate::grammar::{
    Kind, at, block_text, cells, cells_scan, class, cut_end, description_end, feature_of,
    fence_end, keyword_error, next, parsed, pos, rows_run, scenario_at, scenarios_run,
    skip_breaks, step_at, step_word_at, steps_run, succ, table_at, tag_flush, tag_scan, tags_run,
};
use crate::model::{
    Background, Error, Examples, Expected, Feature, Scenario, Step, StepType, StepTypeError,
    StepView, Table, TableView, ScenarioView, FeatureView, grid, opt_texts, rectangular,
    scenario_ok, scenarios_view, step_ok, steps_ok, steps_view, tags_ok, well_formed, texts,
};
use crate::grammar_facts::{lemma_steps_ok, lemma_tags_unique};
use crate::text::{
    chars_of, has_word, lead, rows_view, skip_space, space, split_lines, string_of,
    trimmed_string, word_at,
};

verus! {

fn indent(l: &Vec<char>) -> (r: usize)
    ensures
        r == lead(l@, 0),
        r <= l.len(),
{
    assert(l@.take(l.len() as int) =~= l@);
    skip_space(l, 0, l.len())
}

fn word(l: &Vec<char>, a: usize, w: &str) -> (r: Option<usize>)
    requires
        a <= l.len(),
    ensures
        match r {
            Some(b) => word_at(l@, a as int, w@) && b == a + w@.len() && b <= l.len(),
            None => !word_at(l@, a as int, w@),
        },
{
    if has_word(l, a, w) {
        Some(a + w.unicode_len())
    } else {
        None
    }
}

fn step_word(l: &Vec<char>, a: usize, w: &str) -> (r: Option<usize>)
    requires
        a <= l.len(),
    ensures
        match r {
            Some(b) => step_word_at(l@, a as int, w@) && b == a + w@.len() && b <= l.len(),
            None => !step_word_at(l@, a as int, w@),
        },
{
    match word(l, a, w) {
        Some(b) => if b >= l.len() || space(l[b]) {
            Some(b)
        } else {
            None
        },
        None => None,
    }
}

/// The kind of a line, where its content begins and where its keyword ends.
pub fn classify(l: &Vec<char>) -> (r: (Kind, usize, usize))
    ensures
        r.0 == class(l@).0,
        r.1 == lead(l@, 0),
        r.2 == r.1 + class(l@).1,
        r.1 <= r.2 <= l.len(),
{
    let a = indent(l);
    if a >= l.len() {
        return (Kind::Blank, a, a);
    }
    let c = l[a];
    if c == '#' {
        return (Kind::Comment, a, a);
    }
    if c == '@' {
        return (Kind::Tags, a, a);
    }
    if c == '|' {
        return (Kind::Row, a, a);
    }
    match word(l, a, "\"\"\"") {
        Some(b) => return (Kind::Fence, a, b),
        None => {},
    }
    match word(l, a, "Feature:") {
        Some(b) => return (Kind::Feature, a, b),
        None => {},
    }
    match word(l, a, "Background:") {
        Some(b) => return (Kind::Background, a, b),
        None => {},
    }
    match word(l, a, "Scenario Outline:") {
        Some(b) => return (Kind::Scenario, a, b),
        None => {},
    }
    match word(l, a, "Scenario:") {
        Some(b) => return (Kind::Scenario, a, b),
        None => {},
    }
    match word(l, a, "Examples:") {
        Some(b) => return (Kind::Examples, a, b),
        None => {},
    }
    match step_word(l, a, "Given") {
        Some(b) => return (Kind::Step, a, b),
        None => {},
    }
    match step_word(l, a, "When") {
        Some(b) => return (Kind::Step, a, b),
        None => {},
    }
    match step_word(l, a, "Then") {
        Some(b) => return (Kind::Step, a, b),
        None => {},
    }
    match step_word(l, a, "And") {
        Some(b) => return (Kind::Step, a, b),
        None => {},
    }
    match step_word(l, a, "But") {
        Some(b) => return (Kind::Step, a, b),
        None => {},
    }
    (Kind::Other, a, a)
}

fn peek(lines: &Vec<Vec<char>>, i: usize) -> (k: Kind)
    ensures
        k == at(rows_view(lines@), i as int),
{
    if i < lines.len() {
        classify(&lines[i]).0
    } else {
        Kind::End
    }
}

fn is_passed_over(k: Kind) -> (b: bool)
    ensures
        b == (k == Kind::Blank || k == Kind::Comment),
{
    match k {
        Kind::Blank => true,
        Kind::Comment => true,
        _ => false,
    }
}

fn skip(lines: &Vec<Vec<char>>, i: usize) -> (r: usize)
    requires
        i <= lines.len(),
    ensures
        r == next(rows_view(lines@), i as int),
        i <= r <= lines.len(),
        !(at(rows_view(lines@), r as int) == Kind::Blank || at(rows_view(lines@), r as int)
            == Kind::Comment),
{
    let ghost ls = rows_view(lines@);
    let mut j: usize = i;
    while j < lines.len() && is_passed_over(peek(lines, j))
        invariant
            i <= j <= lines.len(),
            ls == rows_view(lines@),
            next(ls, j as int) == next(ls, i as int),
        decreases lines.len() - j,
    {
        j += 1;
    }
    j
}

fn bump(k: usize) -> (r: usize)
    ensures
        r == succ(k as int),
{
    if k < usize::MAX {
        k + 1
    } else {
        k
    }
}

fn position(lines: &Vec<Vec<char>>, i: usize) -> (r: (usize, usize))
    requires
        lines.len() >= 1,
    ensures
        r == pos(rows_view(lines@), i as int),
{
    if i < lines.len() {
        (bump(i), bump(indent(&lines[i])))
    } else {
        (lines.len(), bump(lines[lines.len() - 1].len()))
    }
}

/// The index, where there is one, as an integer.
pub open spec fn as_int(o: Option<usize>) -> Option<int> {
    match o {
        Some(a) => Some(a as int),
        None => None,
    }
}

fn holds(v: &Vec<String>, t: &String) -> (b: bool)
    ensures
        b == texts(v@).contains(t@),
{
    let mut k: usize = 0;
    while k < v.len()
        invariant
            k <= v.len(),
            forall|j: int| 0 <= j < k ==> texts(v@)[j] != t@,
        decreases v.len() - k,
    {
        if v[k].eq(t) {
            assert(texts(v@)[k as int] == t@);
            return true;
        }
        k += 1;
    }
    false
}

fn flush(l: &Vec<char>, i: usize, start: Option<usize>, acc: &mut Vec<String>)
    requires
        i <= l.len(),
    ensures
        texts(final(acc)@) == tag_flush(l@, i as int, as_int(start), texts(old(acc)@)),
{
    match start {
        Some(a) => {
            if a < i && l[a] == '@' {
                let ghost before = texts(acc@);
                let t = string_of(l, a, i);
                if !holds(acc, &t) {
                    acc.push(t);
                    assert(texts(acc@) =~= before.push(l@.subrange(a as int, i as int)));
                }
            }
        },
        None => {},
    }
}

/// Adds the tags of a line to `acc`.
fn line_tags(l: &Vec<char>, acc: &mut Vec<String>)
    ensures
        texts(final(acc)@) == tag_scan(l@, 0, None, texts(old(acc)@)),
{
    let ghost goal = tag_scan(l@, 0, None, texts(acc@));
    let mut i: usize = 0;
    let mut start: Option<usize> = None;
    while i < l.len()
        invariant
            i <= l.len(),
            tag_scan(l@, i as int, as_int(start), texts(acc@)) == goal,
        decreases l.len() - i,
    {
        if space(l[i]) {
            flush(l, i, start, acc);
            start = None;
        } else if start.is_none() {
            start = Some(i);
        }
        i += 1;
    }
    flush(l, i, start, acc);
}

/// The tags of the tag lines from line `i` on, and the line that follows.
fn tags(lines: &Vec<Vec<char>>, i: usize) -> (r: (Vec<String>, usize))
    requires
        i <= lines.len(),
    ensures
        (texts(r.0@), r.1 as int) == tags_run(rows_view(lines@), i as int, Seq::empty()),
        i <= r.1 <= lines.len(),
{
    let ghost ls = rows_view(lines@);
    let mut acc: Vec<String> = Vec::new();
    let mut j: usize = i;
    assert(texts(acc@) =~= Seq::<Seq<char>>::empty());
    loop
        invariant
            i <= j <= lines.len(),
            ls == rows_view(lines@),
            tags_run(ls, j as int, texts(acc@)) == tags_run(ls, i as int, Seq::empty()),
        decreases lines.len() - j,
    {
        let k = peek(lines, j);
        if k == Kind::Tags {
            line_tags(&lines[j], &mut acc);
            j += 1;
        } else if is_passed_over(k) {
            j += 1;
        } else {
            return (acc, j);
        }
    }
}

/// Whether a tag line is the first line at or after `i` that is not passed
/// over.
fn tagged(lines: &Vec<Vec<char>>, i: usize) -> (b: bool)
    requires
        i <= lines.len(),
    ensures
        b == (at(rows_view(lines@), next(rows_view(lines@), i as int)) == Kind::Tags),
{
    peek(lines, skip(lines, i)) == Kind::Tags
}

/// The cells of a table row.
pub fn cells_of(l: &Vec<char>) -> (r: Vec<String>)
    ensures
        texts(r@) == cells(l@),
{
    let a = indent(l);
    let mut acc: Vec<String> = Vec::new();
    assert(texts(acc@) =~= Seq::<Seq<char>>::empty());
    if a >= l.len() {
        return acc;
    }
    let mut i: usize = a + 1;
    let mut start: usize = a + 1;
    while i < l.len()
        invariant
            start <= i <= l.len(),
            cells_scan(l@, i as int, start as int, texts(acc@)) == cells(l@),
        decreases l.len() - i,
    {
        if l[i] == '|' {
            let ghost before = texts(acc@);
            let t = trimmed_string(l, start, i);
            acc.push(t);
            assert(texts(acc@) =~= before.push(t@));
            start = i + 1;
        }
        i += 1;
    }
    acc
}

fn in_table(k: Kind) -> (b: bool)
    ensures
        b == (k == Kind::Row || k == Kind::Blank || k == Kind::Comment),
{
    match k {
        Kind::Row => true,
        Kind::Blank => true,
        Kind::Comment => true,
        _ => false,
    }
}

/// The table whose header is line `i`, and the line that follows it.
fn table(lines: &Vec<Vec<char>>, i: usize) -> (r: Result<(Table, usize), Error>)
    requires
        i < lines.len(),
    ensures
        match r {
            Ok((t, j)) => table_at(rows_view(lines@), i as int) == Ok::<(TableView, int), Error>(
                (t@, j as int),
            ) && i < j <= lines.len() && rectangular(t@),
            Err(e) => table_at(rows_view(lines@), i as int) == Err::<(TableView, int), Error>(e),
        },
{
    let ghost ls = rows_view(lines@);
    let header = cells_of(&lines[i]);
    let position = position(lines, i);
    let mut rows: Vec<Vec<String>> = Vec::new();
    let mut j: usize = i + 1;
    let ghost width = texts(header@).len();
    assert(grid(rows@) =~= Seq::<Seq<Seq<char>>>::empty());
    while j < lines.len() && in_table(peek(lines, j))
        invariant
            i < j <= lines.len(),
            ls == rows_view(lines@),
            width == header.len(),
            width == cells(ls[i as int]).len(),
            rows_run(ls, j as int, width, grid(rows@)) == rows_run(ls, i + 1, width, Seq::empty()),
            forall|k: int| 0 <= k < rows.len() ==> (#[trigger] grid(rows@)[k]).len() == width,
        decreases lines.len() - j,
    {
        if peek(lines, j) == Kind::Row {
            let c = cells_of(&lines[j]);
            if c.len() != header.len() {
                return Err(Error::Construction { position: self::position(lines, j) });
            }
            let ghost before = grid(rows@);
            rows.push(c);
            assert(grid(rows@) =~= before.push(cells(ls[j as int])));
        }
        j += 1;
    }
    let t = Table { header, rows, position };
    Ok((t, j))
}

fn find_fence(lines: &Vec<Vec<char>>, i: usize) -> (r: usize)
    requires
        i <= lines.len(),
    ensures
        r == fence_end(rows_view(lines@), i as int),
        i <= r <= lines.len(),
{
    let ghost ls = rows_view(lines@);
    let mut j: usize = i;
    while j < lines.len() && peek(lines, j) != Kind::Fence
        invariant
            i <= j <= lines.len(),
            ls == rows_view(lines@),
            fence_end(ls, j as int) == fence_end(ls, i as int),
        decreases lines.len() - j,
    {
        j += 1;
    }
    j
}

/// The lines `a..b`, without their margin, joined.
fn normalized(lines: &Vec<Vec<char>>, a: usize, b: usize) -> (r: Vec<char>)
    requires
        a <= b <= lines.len(),
    ensures
        r@ == join(dedented(rows_view(lines@).subrange(a as int, b as int))),
{
    let ghost ls = rows_view(lines@);
    let mut part: Vec<Vec<char>> = Vec::new();
    let mut i: usize = a;
    assert(rows_view(part@) =~= ls.subrange(a as int, a as int));
    while i < b
        invariant
            a <= i <= b <= lines.len(),
            ls == rows_view(lines@),
            rows_view(part@) == ls.subrange(a as int, i as int),
        decreases b - i,
    {
        let l = &lines[i];
        let c = slice_of(l, 0, l.len());
        assert(c@ =~= l@);
        let ghost before = rows_view(part@);
        part.push(c);
        assert(rows_view(part@) =~= before.push(l@));
        i += 1;
        assert(ls.subrange(a as int, i as int) =~= before.push(l@));
    }
    let out = dedent_lines(&part);
    join_lines(&out)
}

/// The text of the block that lines `a..b` hold.
fn block(lines: &Vec<Vec<char>>, a: usize, b: usize) -> (r: String)
    requires
        a <= b <= lines.len(),
    ensures
        r@ == block_text(rows_view(lines@).subrange(a as int, b as int)),
{
    let t = normalized(lines, a, b);
    let mut hi: usize = t.len();
    while hi > 0 && (space(t[hi - 1]) || t[hi - 1] == '\n')
        invariant
            hi <= t.len(),
            cut_end(t@, hi as int) == cut_end(t@, t.len() as int),
        decreases hi,
    {
        hi -= 1;
    }
    let mut lo: usize = 0;
    while lo < hi && (t[lo] == '\n' || t[lo] == '\r')
        invariant
            lo <= hi <= t.len(),
            skip_breaks(t@, lo as int, hi as int) == skip_breaks(t@, 0, hi as int),
        decreases hi - lo,
    {
        lo += 1;
    }
    string_of(&t, lo, hi)
}

fn keyword_failure(e: StepTypeError, position: (usize, usize)) -> (r: Error)
    ensures
        r == keyword_error(e, position),
{
    match e {
        StepTypeError::MissingContext => Error::Context { position },
        StepTypeError::UnknownKeyword => Error::Construction { position },
    }
}

/// The step at line `i`, which follows a step of kind `context`, and the line
/// that follows the step.
fn step(lines: &Vec<Vec<char>>, i: usize, context: Option<StepType>) -> (r: Result<
    (Step, usize),
    Error,
>)
    requires
        i < lines.len(),
    ensures
        match r {
            Ok((s, j)) => step_at(rows_view(lines@), i as int, context) == Ok::<
                (StepView, int),
                Error,
            >((s@, j as int)) && i < j <= lines.len() && step_ok(s@),
            Err(e) => step_at(rows_view(lines@), i as int, context) == Err::<
                (StepView, int),
                Error,
            >(e),
        },
{
    let l = &lines[i];
    let (_k, a, b) = classify(l);
    let raw = string_of(l, a, b);
    let position = position(lines, i);
    let ty = match StepType::new_with_context(raw.as_str(), context) {
        Ok(t) => t,
        Err(e) => {
            return Err(keyword_failure(e, position));
        },
    };
    let value = trimmed_string(l, b, l.len());
    let j = skip(lines, i + 1);
    let kj = peek(lines, j);
    if kj == Kind::Fence {
        let e = find_fence(lines, j + 1);
        if e >= lines.len() {
            return Err(
                Error::Syntax { position: self::position(lines, e), expected: Expected::Fence },
            );
        }
        let doc = block(lines, j + 1, e);
        let m = skip(lines, e + 1);
        Ok((Step { ty, raw_type: raw, value, docstring: Some(doc), table: None, position }, m))
    } else if kj == Kind::Row {
        match table(lines, j) {
            Ok((t, m)) => Ok(
                (Step { ty, raw_type: raw, value, docstring: None, table: Some(t), position }, m),
            ),
            Err(e) => Err(e),
        }
    } else {
        Ok((Step { ty, raw_type: raw, value, docstring: None, table: None, position }, j))
    }
}

/// The steps from line `i` on, and the line that follows them.
fn steps(lines: &Vec<Vec<char>>, i: usize) -> (r: Result<(Vec<Step>, usize), Error>)
    requires
        i <= lines.len(),
    ensures
        match r {
            Ok((v, j)) => steps_run(rows_view(lines@), i as int, Seq::empty()) == Ok::<
                (Seq<StepView>, int),
                Error,
            >((steps_view(v@), j as int)) && i <= j <= lines.len() && steps_ok(steps_view(v@)),
            Err(e) => steps_run(rows_view(lines@), i as int, Seq::empty()) == Err::<
                (Seq<StepView>, int),
                Error,
            >(e),
        },
{
    let ghost ls = rows_view(lines@);
    let mut acc: Vec<Step> = Vec::new();
    let mut j: usize = i;
    assert(steps_view(acc@) =~= Seq::<StepView>::empty());
    while peek(lines, j) == Kind::Step
        invariant
            i <= j <= lines.len(),
            ls == rows_view(lines@),
            steps_run(ls, j as int, steps_view(acc@)) == steps_run(ls, i as int, Seq::empty()),
        decreases lines.len() - j,
    {
        let context = if acc.len() > 0 {
            Some(acc[acc.len() - 1].ty)
        } else {
            None
        };
        match step(lines, j, context) {
            Err(e) => {
                return Err(e);
            },
            Ok((s, m)) => {
                let ghost before = steps_view(acc@);
                acc.push(s);
                assert(steps_view(acc@) =~= before.push(s@));
                j = m;
            },
        }
    }
    proof {
        lemma_steps_ok(ls, i as int);
    }
    Ok((acc, j))
}

/// The scenario whose first line is line `i`, the line that follows it, and
/// the tags that stand before that line.
fn scenario(lines: &Vec<Vec<char>>, i: usize, tags: Option<Vec<String>>) -> (r: Result<
    (Scenario, usize, Option<Vec<String>>),
    Error,
>)
    requires
        i < lines.len(),
    ensures
        match r {
            Ok((s, j, p)) => scenario_at(rows_view(lines@), i as int, opt_texts(tags)) == Ok::<
                (ScenarioView, int, Option<Seq<Seq<char>>>),
                Error,
            >((s@, j as int, opt_texts(p))) && i < j <= lines.len() && tags_ok(opt_texts(p)) && (
            tags_ok(opt_texts(tags)) ==> scenario_ok(s@)),
            Err(e) => scenario_at(rows_view(lines@), i as int, opt_texts(tags)) == Err::<
                (ScenarioView, int, Option<Seq<Seq<char>>>),
                Error,
            >(e),
        },
{
    let l = &lines[i];
    let (_k, _a, b) = classify(l);
    let name = trimmed_string(l, b, l.len());
    let position = position(lines, i);
    let first = skip(lines, i + 1);
    let (steps, j) = match steps(lines, first) {
        Ok(x) => x,
        Err(e) => {
            return Err(e);
        },
    };
    if steps.len() == 0 {
        return Err(Error::Syntax { position: self::position(lines, j), expected: Expected::Step });
    }
    let had = tagged(lines, j);
    let (found, k) = self::tags(lines, j);
    proof {
        lemma_tags_unique(rows_view(lines@), j as int);
    }
    let pending = if had {
        Some(found)
    } else {
        None
    };
    if peek(lines, k) == Kind::Examples {
        let t = skip(lines, k + 1);
        if peek(lines, t) != Kind::Row {
            return Err(
                Error::Syntax { position: self::position(lines, t), expected: Expected::Row },
            );
        }
        let at_examples = self::position(lines, k);
        match table(lines, t) {
            Err(e) => Err(e),
            Ok((table, m)) => Ok(
                (
                    Scenario {
                        name,
                        steps,
                        examples: Some(Examples { table, tags: pending, position: at_examples }),
                        tags,
                        position,
                    },
                    m,
                    None,
                ),
            ),
        }
    } else {
        Ok((Scenario { name, steps, examples: None, tags, position }, k, pending))
    }
}

/// The scenarios from line `i` on, before which the tags `tags` stand.
fn scenarios(lines: &Vec<Vec<char>>, i: usize, tags: Option<Vec<String>>) -> (r: Result<
    Vec<Scenario>,
    Error,
>)
    requires
        i <= lines.len(),
        lines.len() >= 1,
        tags_ok(opt_texts(tags)),
    ensures
        match r {
            Ok(v) => scenarios_run(rows_view(lines@), i as int, opt_texts(tags), Seq::empty())
                == Ok::<Seq<ScenarioView>, Error>(scenarios_view(v@)) && forall|k: int|
                0 <= k < v.len() ==> scenario_ok(#[trigger] scenarios_view(v@)[k]),
            Err(e) => scenarios_run(rows_view(lines@), i as int, opt_texts(tags), Seq::empty())
                == Err::<Seq<ScenarioView>, Error>(e),
        },
{
    let ghost ls = rows_view(lines@);
    let ghost goal = scenarios_run(ls, i as int, opt_texts(tags), Seq::empty());
    let mut acc: Vec<Scenario> = Vec::new();
    let mut j: usize = i;
    let mut pending = tags;
    assert(scenarios_view(acc@) =~= Seq::<ScenarioView>::empty());
    while peek(lines, j) == Kind::Scenario
        invariant
            j <= lines.len(),
            ls == rows_view(lines@),
            goal == scenarios_run(ls, i as int, opt_texts(tags), Seq::empty()),
            scenarios_run(ls, j as int, opt_texts(pending), scenarios_view(acc@)) == goal,
            tags_ok(opt_texts(pending)),
            forall|k: int| 0 <= k < acc.len() ==> scenario_ok(#[trigger] scenarios_view(acc@)[k]),
        decreases lines.len() - j,
    {
        match scenario(lines, j, pending) {
            Err(e) => {
                return Err(e);
            },
            Ok((s, m, p)) => {
                let ghost before = scenarios_view(acc@);
                acc.push(s);
                assert(scenarios_view(acc@) =~= before.push(s@));
                j = m;
                pending = p;
            },
        }
    }
    if j >= lines.len() && pending.is_none() && acc.len() > 0 {
        Ok(acc)
    } else {
        let expected = if pending.is_some() {
            Expected::Tagged
        } else {
            Expected::Scenario
        };
        Err(Error::Syntax { position: position(lines, j), expected })
    }
}

fn in_description(k: Kind) -> (b: bool)
    ensures
        b == (k == Kind::Other || k == Kind::Blank || k == Kind::Comment),
{
    match k {
        Kind::Other => true,
        Kind::Blank => true,
        Kind::Comment => true,
        _ => false,
    }
}

fn find_description_end(lines: &Vec<Vec<char>>, i: usize) -> (r: usize)
    requires
        i <= lines.len(),
    ensures
        r == description_end(rows_view(lines@), i as int, i as int),
        i <= r <= lines.len(),
{
    let ghost ls = rows_view(lines@);
    let mut j: usize = i;
    let mut last: usize = i;
    while j < lines.len() && in_description(peek(lines, j))
        invariant
            i <= last <= j <= lines.len(),
            ls == rows_view(lines@),
            description_end(ls, j as int, last as int) == description_end(ls, i as int, i as int),
        decreases lines.len() - j,
    {
        if peek(lines, j) == Kind::Other {
            last = j + 1;
        }
        j += 1;
    }
    last
}

/// The feature that the lines describe.
fn feature(lines: &Vec<Vec<char>>) -> (r: Result<Feature, Error>)
    requires
        lines.len() >= 1,
    ensures
        match r {
            Ok(f) => feature_of(rows_view(lines@)) == Ok::<FeatureView, Error>(f@)
                && well_formed(f@),
            Err(e) => feature_of(rows_view(lines@)) == Err::<FeatureView, Error>(e),
        },
{
    let ghost ls = rows_view(lines@);
    let had = tagged(lines, 0);
    let (found, f) = tags(lines, 0);
    proof {
        lemma_tags_unique(ls, 0);
    }
    if peek(lines, f) != Kind::Feature {
        return Err(Error::Syntax { position: position(lines, f), expected: Expected::Feature });
    }
    let l = &lines[f];
    let (_k, _a, b) = classify(l);
    let name = trimmed_string(l, b, l.len());
    let position = position(lines, f);
    let d0 = skip(lines, f + 1);
    let d1 = find_description_end(lines, d0);
    let description = if d0 < d1 {
        let t = normalized(lines, d0, d1);
        assert(t@.subrange(0, t.len() as int) =~= t@);
        Some(string_of(&t, 0, t.len()))
    } else {
        None
    };
    let bi = skip(lines, d1);
    let (background, k) = if peek(lines, bi) == Kind::Background {
        let at_background = self::position(lines, bi);
        match steps(lines, skip(lines, bi + 1)) {
            Err(e) => {
                return Err(e);
            },
            Ok((st, k)) => (Some(Background { steps: st, position: at_background }), k),
        }
    } else {
        (None, bi)
    };
    let had_more = tagged(lines, k);
    let (more, k2) = tags(lines, k);
    proof {
        lemma_tags_unique(ls, k as int);
    }
    let pending = if had_more {
        Some(more)
    } else {
        None
    };
    match scenarios(lines, k2, pending) {
        Err(e) => Err(e),
        Ok(scenarios) => Ok(
            Feature {
                name,
                description,
                background,
                scenarios,
                tags: if had {
                    Some(found)
                } else {
                    None
                },
                position,
            },
        ),
    }
}

impl Feature {
    /// Reads a feature document. The text is a feature exactly where the
    /// grammar says so; otherwise the error names the first line that the
    /// grammar has no place for.
    pub fn try_from(s: &str) -> (r: Result<Feature, Error>)
        ensures
            match r {
                Ok(f) => parsed(s@) == Ok::<FeatureView, Error>(f@) && well_formed(f@),
                Err(e) => parsed(s@) == Err::<FeatureView, Error>(e),
            },
    {
        let v = chars_of(s);
        let lines = split_lines(&v);
        feature(&lines)
    }
}

/// The line and column of an error.
pub fn error_position(error: &Error) -> (r: (usize, usize))
    ensures
        r == match *error {
            Error::Syntax { position, .. } => position,
            Error::Context { position } => position,
            Error::Construction { position } => position,
        },
{
    match error {
        Error::Syntax { position, .. } => *position,
        Error::Context { position } => *position,
        Error::Construction { position } => *position,
    }
}

} // verus!
