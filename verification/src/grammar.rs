//! The grammar of a feature document, line by line.
//!
//! Blank lines and lines that begin with `#` carry nothing and are passed
//! over, except inside a text block. A text block stands between two lines that
//! begin with three double quotes. A table row begins with `|`; its cells are
//! what stands between each two bars, trimmed.

use vstd::prelude::*;
use crate::dedent::{dedented, join};
use crate::model::{
    BackgroundView, Error, ExamplesView, Expected, FeatureView, ScenarioView, StepType,
    StepTypeError, StepView, TableView, resolved,
};
use crate::text::{is_space, lead, lines_of, trimmed, word_at};

verus! {

/// What a line is.
#[derive(Debug, Clone, Copy, PartialEq, Eq, Hash, Structural)]
pub enum Kind {
    Blank,
    Comment,
    Tags,
    Row,
    Fence,
    Feature,
    Background,
    Scenario,
    Examples,
    Step,
    Other,
    /// The place after the last line.
    End,
}

/// Whether the keyword `w` stands at `a` as a word of its own.
pub open spec fn step_word_at(l: Seq<char>, a: int, w: Seq<char>) -> bool {
    word_at(l, a, w) && (a + w.len() >= l.len() || is_space(l[a + w.len()]))
}

/// The kind of a line and the length of the keyword that it begins with.
pub open spec fn class(l: Seq<char>) -> (Kind, int) {
    let a = lead(l, 0);
    if a >= l.len() {
        (Kind::Blank, 0)
    } else if l[a] == '#' {
        (Kind::Comment, 0)
    } else if l[a] == '@' {
        (Kind::Tags, 0)
    } else if l[a] == '|' {
        (Kind::Row, 0)
    } else if word_at(l, a, "\"\"\""@) {
        (Kind::Fence, "\"\"\""@.len() as int)
    } else if word_at(l, a, "Feature:"@) {
        (Kind::Feature, "Feature:"@.len() as int)
    } else if word_at(l, a, "Background:"@) {
        (Kind::Background, "Background:"@.len() as int)
    } else if word_at(l, a, "Scenario Outline:"@) {
        (Kind::Scenario, "Scenario Outline:"@.len() as int)
    } else if word_at(l, a, "Scenario:"@) {
        (Kind::Scenario, "Scenario:"@.len() as int)
    } else if word_at(l, a, "Examples:"@) {
        (Kind::Examples, "Examples:"@.len() as int)
    } else if step_word_at(l, a, "Given"@) {
        (Kind::Step, "Given"@.len() as int)
    } else if step_word_at(l, a, "When"@) {
        (Kind::Step, "When"@.len() as int)
    } else if step_word_at(l, a, "Then"@) {
        (Kind::Step, "Then"@.len() as int)
    } else if step_word_at(l, a, "And"@) {
        (Kind::Step, "And"@.len() as int)
    } else if step_word_at(l, a, "But"@) {
        (Kind::Step, "But"@.len() as int)
    } else {
        (Kind::Other, 0)
    }
}

/// The kind of line `i`, or `End` where there is no such line.
pub open spec fn at(ls: Seq<Seq<char>>, i: int) -> Kind {
    if 0 <= i < ls.len() {
        class(ls[i]).0
    } else {
        Kind::End
    }
}

/// Blank lines and comments carry nothing.
pub open spec fn passed_over(k: Kind) -> bool {
    k == Kind::Blank || k == Kind::Comment
}

/// The first line at or after `i` that is not passed over.
pub open spec fn next(ls: Seq<Seq<char>>, i: int) -> int
    decreases ls.len() - i,
{
    if 0 <= i < ls.len() && passed_over(class(ls[i]).0) {
        next(ls, i + 1)
    } else {
        i
    }
}

/// One more than `k`, as far as the machine can count.
pub open spec fn succ(k: int) -> usize {
    if k < usize::MAX {
        (k + 1) as usize
    } else {
        usize::MAX
    }
}

/// The line and column, counted from one, of the first character of line
/// `i` that is no whitespace; past the last line, of the end of the text.
pub open spec fn pos(ls: Seq<Seq<char>>, i: int) -> (usize, usize) {
    if 0 <= i < ls.len() {
        (succ(i), succ(lead(ls[i], 0)))
    } else {
        (ls.len() as usize, succ(ls.last().len() as int))
    }
}

/// What line `l` holds after its keyword, trimmed.
pub open spec fn payload(l: Seq<char>) -> Seq<char> {
    trimmed(l, lead(l, 0) + class(l).1, l.len() as int)
}

/// The keyword that line `l` begins with.
pub open spec fn keyword(l: Seq<char>) -> Seq<char> {
    l.subrange(lead(l, 0), lead(l, 0) + class(l).1)
}

/// The tags of a line from index `i` on, added to `acc`: each run of
/// characters without whitespace that begins with `@` and is not yet in
/// `acc`. `start` is where the run began that index `i` stands in, if it
/// stands in one.
pub open spec fn tag_scan(l: Seq<char>, i: int, start: Option<int>, acc: Seq<Seq<char>>) -> Seq<
    Seq<char>,
>
    decreases l.len() - i,
{
    if i < 0 || i >= l.len() {
        tag_flush(l, i, start, acc)
    } else if is_space(l[i]) {
        tag_scan(l, i + 1, None, tag_flush(l, i, start, acc))
    } else {
        tag_scan(
            l,
            i + 1,
            if start is Some {
                start
            } else {
                Some(i)
            },
            acc,
        )
    }
}

/// `acc` with the run `l[start..i]`, where that is a tag that `acc` lacks.
pub open spec fn tag_flush(l: Seq<char>, i: int, start: Option<int>, acc: Seq<Seq<char>>) -> Seq<
    Seq<char>,
> {
    match start {
        Some(a) => if 0 <= a < i <= l.len() && l[a] == '@' && !acc.contains(l.subrange(a, i)) {
            acc.push(l.subrange(a, i))
        } else {
            acc
        },
        None => acc,
    }
}

/// The tags of the tag lines from line `i` on, and the line that follows them.
pub open spec fn tags_run(ls: Seq<Seq<char>>, i: int, acc: Seq<Seq<char>>) -> (Seq<Seq<char>>, int)
    decreases ls.len() - i,
{
    if at(ls, i) == Kind::Tags {
        tags_run(ls, i + 1, tag_scan(ls[i], 0, None, acc))
    } else if passed_over(at(ls, i)) {
        tags_run(ls, i + 1, acc)
    } else {
        (acc, i)
    }
}

/// The tags that stand before line `tags_run(ls, i, ..).1`, if any tag line
/// does.
pub open spec fn tags_before(ls: Seq<Seq<char>>, i: int) -> Option<Seq<Seq<char>>> {
    if at(ls, next(ls, i)) == Kind::Tags {
        Some(tags_run(ls, i, Seq::empty()).0)
    } else {
        None
    }
}

/// The cells of a row from index `i` on, added to `acc`; `start` is the index
/// after the last bar.
pub open spec fn cells_scan(l: Seq<char>, i: int, start: int, acc: Seq<Seq<char>>) -> Seq<Seq<char>>
    decreases l.len() - i,
{
    if i < 0 || i >= l.len() {
        acc
    } else if l[i] == '|' {
        cells_scan(l, i + 1, i + 1, acc.push(trimmed(l, start, i)))
    } else {
        cells_scan(l, i + 1, start, acc)
    }
}

/// The cells of a row: what stands between each two bars, trimmed.
pub open spec fn cells(l: Seq<char>) -> Seq<Seq<char>> {
    cells_scan(l, lead(l, 0) + 1, lead(l, 0) + 1, Seq::empty())
}

/// The rows from line `i` on, added to `acc`, and the line that follows them;
/// or the first row that is not `width` cells wide.
pub open spec fn rows_run(ls: Seq<Seq<char>>, i: int, width: nat, acc: Seq<Seq<Seq<char>>>) -> Result<
    (Seq<Seq<Seq<char>>>, int),
    Error,
>
    decreases ls.len() - i,
{
    if at(ls, i) == Kind::Row {
        if cells(ls[i]).len() != width {
            Err(Error::Construction { position: pos(ls, i) })
        } else {
            rows_run(ls, i + 1, width, acc.push(cells(ls[i])))
        }
    } else if passed_over(at(ls, i)) {
        rows_run(ls, i + 1, width, acc)
    } else {
        Ok((acc, i))
    }
}

/// The table whose header is line `i`, and the line that follows it.
pub open spec fn table_at(ls: Seq<Seq<char>>, i: int) -> Result<(TableView, int), Error> {
    let header = cells(ls[i]);
    match rows_run(ls, i + 1, header.len(), Seq::empty()) {
        Ok((rows, j)) => Ok((TableView { header, rows, position: pos(ls, i) }, j)),
        Err(e) => Err(e),
    }
}

/// The first fence at or after line `i`, or the number of lines.
pub open spec fn fence_end(ls: Seq<Seq<char>>, i: int) -> int
    decreases ls.len() - i,
{
    if 0 <= i < ls.len() && class(ls[i]).0 != Kind::Fence {
        fence_end(ls, i + 1)
    } else {
        i
    }
}

/// The end of `t[lo..to]` once the whitespace and line feeds at its end are cut.
pub open spec fn cut_end(t: Seq<char>, to: int) -> int
    decreases to,
{
    if 0 < to <= t.len() && (is_space(t[to - 1]) || t[to - 1] == '\n') {
        cut_end(t, to - 1)
    } else {
        to
    }
}

/// The first index at or after `from` and below `hi` that holds neither a
/// line feed nor a carriage return; `hi` where there is none.
pub open spec fn skip_breaks(t: Seq<char>, from: int, hi: int) -> int
    decreases hi - from,
{
    if 0 <= from < hi <= t.len() && (t[from] == '\n' || t[from] == '\r') {
        skip_breaks(t, from + 1, hi)
    } else {
        from
    }
}

/// The text of a block: its lines without their margin, joined, without the
/// whitespace and line feeds at its end and without line breaks at its start.
pub open spec fn block_text(ds: Seq<Seq<char>>) -> Seq<char> {
    let t = join(dedented(ds));
    let b = cut_end(t, t.len() as int);
    t.subrange(skip_breaks(t, 0, b), b)
}

/// The error for a step keyword that has no kind.
pub open spec fn keyword_error(e: StepTypeError, position: (usize, usize)) -> Error {
    match e {
        StepTypeError::MissingContext => Error::Context { position },
        StepTypeError::UnknownKeyword => Error::Construction { position },
    }
}

/// The step at line `i`, which follows a step of kind `context`, and the line
/// that follows the step.
pub open spec fn step_at(ls: Seq<Seq<char>>, i: int, context: Option<StepType>) -> Result<
    (StepView, int),
    Error,
> {
    let l = ls[i];
    match resolved(keyword(l), context) {
        Err(e) => Err(keyword_error(e, pos(ls, i))),
        Ok(ty) => {
            let j = next(ls, i + 1);
            let bare = StepView {
                ty,
                raw_type: keyword(l),
                value: payload(l),
                docstring: None,
                table: None,
                position: pos(ls, i),
            };
            if at(ls, j) == Kind::Fence {
                let e = fence_end(ls, j + 1);
                if e >= ls.len() {
                    Err(Error::Syntax { position: pos(ls, e), expected: Expected::Fence })
                } else {
                    Ok(
                        (
                            StepView { docstring: Some(block_text(ls.subrange(j + 1, e))), ..bare },
                            next(ls, e + 1),
                        ),
                    )
                }
            } else if at(ls, j) == Kind::Row {
                match table_at(ls, j) {
                    Ok((t, m)) => Ok((StepView { table: Some(t), ..bare }, m)),
                    Err(e) => Err(e),
                }
            } else {
                Ok((bare, j))
            }
        },
    }
}

/// The kind of the last step of a sequence, if it has one.
pub open spec fn last_type(acc: Seq<StepView>) -> Option<StepType> {
    if acc.len() > 0 {
        Some(acc.last().ty)
    } else {
        None
    }
}

/// The steps from line `i` on, added to `acc`, and the line that follows them.
/// Line `i` is not passed over.
pub open spec fn steps_run(ls: Seq<Seq<char>>, i: int, acc: Seq<StepView>) -> Result<
    (Seq<StepView>, int),
    Error,
>
    decreases ls.len() - i,
{
    if at(ls, i) == Kind::Step {
        match step_at(ls, i, last_type(acc)) {
            Ok((s, j)) => if i < j <= ls.len() {
                steps_run(ls, j, acc.push(s))
            } else {
                Ok((acc.push(s), j))
            },
            Err(e) => Err(e),
        }
    } else {
        Ok((acc, i))
    }
}

/// The scenario whose first line is line `i`, with the tags that stood before
/// it; the line that follows the scenario; and the tags that stand before
/// that line, where they are not those of the scenario's examples.
pub open spec fn scenario_at(ls: Seq<Seq<char>>, i: int, tags: Option<Seq<Seq<char>>>) -> Result<
    (ScenarioView, int, Option<Seq<Seq<char>>>),
    Error,
> {
    match steps_run(ls, next(ls, i + 1), Seq::empty()) {
        Err(e) => Err(e),
        Ok((steps, j)) => {
            let bare = ScenarioView {
                name: payload(ls[i]),
                steps,
                examples: None,
                tags,
                position: pos(ls, i),
            };
            let k = tags_run(ls, j, Seq::empty()).1;
            if steps.len() == 0 {
                Err(Error::Syntax { position: pos(ls, j), expected: Expected::Step })
            } else if at(ls, k) == Kind::Examples {
                let t = next(ls, k + 1);
                if at(ls, t) != Kind::Row {
                    Err(Error::Syntax { position: pos(ls, t), expected: Expected::Row })
                } else {
                    match table_at(ls, t) {
                        Err(e) => Err(e),
                        Ok((table, m)) => Ok(
                            (
                                ScenarioView {
                                    examples: Some(
                                        ExamplesView {
                                            table,
                                            tags: tags_before(ls, j),
                                            position: pos(ls, k),
                                        },
                                    ),
                                    ..bare
                                },
                                m,
                                None,
                            ),
                        ),
                    }
                }
            } else {
                Ok((bare, k, tags_before(ls, j)))
            }
        },
    }
}

/// The scenarios from line `i` on, added to `acc`; `tags` are the tags that
/// stand before line `i`. At least one scenario is asked for, and nothing may
/// follow the last.
pub open spec fn scenarios_run(
    ls: Seq<Seq<char>>,
    i: int,
    tags: Option<Seq<Seq<char>>>,
    acc: Seq<ScenarioView>,
) -> Result<Seq<ScenarioView>, Error>
    decreases ls.len() - i,
{
    if at(ls, i) == Kind::Scenario {
        match scenario_at(ls, i, tags) {
            Err(e) => Err(e),
            Ok((s, j, pending)) => if i < j <= ls.len() {
                scenarios_run(ls, j, pending, acc.push(s))
            } else {
                Ok(acc.push(s))
            },
        }
    } else if at(ls, i) == Kind::End && tags is None && acc.len() > 0 {
        Ok(acc)
    } else {
        Err(
            Error::Syntax {
                position: pos(ls, i),
                expected: if tags is Some {
                    Expected::Tagged
                } else {
                    Expected::Scenario
                },
            },
        )
    }
}

/// The end of the description that begins at line `i`: the index after the
/// last line, of the lines that are passed over or of no other kind, that is
/// not passed over; `last` where there is none.
pub open spec fn description_end(ls: Seq<Seq<char>>, i: int, last: int) -> int
    decreases ls.len() - i,
{
    if at(ls, i) == Kind::Other {
        description_end(ls, i + 1, i + 1)
    } else if passed_over(at(ls, i)) {
        description_end(ls, i + 1, last)
    } else {
        last
    }
}

/// The feature that the lines describe.
pub open spec fn feature_of(ls: Seq<Seq<char>>) -> Result<FeatureView, Error> {
    let f = tags_run(ls, 0, Seq::empty()).1;
    if at(ls, f) != Kind::Feature {
        Err(Error::Syntax { position: pos(ls, f), expected: Expected::Feature })
    } else {
        let d0 = next(ls, f + 1);
        let d1 = description_end(ls, d0, d0);
        let b = next(ls, d1);
        let background = if at(ls, b) == Kind::Background {
            steps_run(ls, next(ls, b + 1), Seq::empty())
        } else {
            Ok((Seq::empty(), b))
        };
        match background {
            Err(e) => Err(e),
            Ok((steps, k)) => {
                match scenarios_run(
                    ls,
                    tags_run(ls, k, Seq::empty()).1,
                    tags_before(ls, k),
                    Seq::empty(),
                ) {
                    Err(e) => Err(e),
                    Ok(scenarios) => Ok(
                        FeatureView {
                            name: payload(ls[f]),
                            description: if d0 < d1 {
                                Some(join(dedented(ls.subrange(d0, d1))))
                            } else {
                                None
                            },
                            background: if at(ls, b) == Kind::Background {
                                Some(BackgroundView { steps, position: pos(ls, b) })
                            } else {
                                None
                            },
                            scenarios,
                            tags: tags_before(ls, 0),
                            position: pos(ls, f),
                        },
                    ),
                }
            },
        }
    }
}

/// The feature that a text describes.
pub open spec fn parsed(s: Seq<char>) -> Result<FeatureView, Error> {
    feature_of(lines_of(s))
}

} // verus!
