//! The document model: a feature, its background, scenarios, steps and tables,
//! each with the `(line, column)` at which it was found, counted from `(1, 1)`.

use vstd::prelude::*;
use crate::text::{chars_of, same_text};

verus! {

/// The kind of a step once `And` and `But` have taken the kind of the step
/// before them.
#[derive(Debug, Clone, Copy, PartialEq, Eq, Hash, Structural)]
pub enum StepType {
    Given,
    When,
    Then,
}

/// Why a keyword has no step kind.
#[derive(Debug, Clone, Copy, PartialEq, Eq, Hash, Structural)]
pub enum StepTypeError {
    /// `And` or `But` with no step before it.
    MissingContext,
    /// Not one of the five step keywords.
    UnknownKeyword,
}

/// What the parser was looking for where it stopped.
#[derive(Debug, Clone, Copy, PartialEq, Eq, Hash, Structural)]
pub enum Expected {
    /// A tag line or the `Feature:` line.
    Feature,
    /// A tag line, a `Scenario:` line or, after a scenario's steps, an
    /// `Examples:` line.
    Scenario,
    /// A tag line was read, and a `Scenario:` or `Examples:` line must follow.
    Tagged,
    /// A step line.
    Step,
    /// A table row.
    Row,
    /// The line that closes a text block.
    Fence,
}

/// Why a text is no feature document.
#[derive(Debug, Clone, Copy, PartialEq, Eq, Hash)]
pub enum Error {
    /// The line at `position` is none of the `expected` lines.
    Syntax { position: (usize, usize), expected: Expected },
    /// The step at `position` starts with `And` or `But` and is the first of
    /// its sequence.
    Context { position: (usize, usize) },
    /// The table row at `position` is not as wide as the header of its table.
    Construction { position: (usize, usize) },
}

/// A data table.
#[derive(Debug, PartialEq, Eq, Hash)]
pub struct Table {
    pub header: Vec<String>,
    pub rows: Vec<Vec<String>>,
    pub position: (usize, usize),
}

/// A scenario step.
#[derive(Debug, PartialEq, Eq, Hash)]
pub struct Step {
    pub ty: StepType,
    pub raw_type: String,
    pub value: String,
    pub docstring: Option<String>,
    pub table: Option<Table>,
    pub position: (usize, usize),
}

/// The examples of a scenario.
#[derive(Debug, PartialEq, Eq, Hash)]
pub struct Examples {
    pub table: Table,
    pub tags: Option<Vec<String>>,
    pub position: (usize, usize),
}

/// A scenario.
#[derive(Debug, PartialEq, Eq, Hash)]
pub struct Scenario {
    pub name: String,
    pub steps: Vec<Step>,
    pub examples: Option<Examples>,
    pub tags: Option<Vec<String>>,
    pub position: (usize, usize),
}

/// The background of a feature.
#[derive(Debug, PartialEq, Eq, Hash)]
pub struct Background {
    pub steps: Vec<Step>,
    pub position: (usize, usize),
}

/// A feature.
#[derive(Debug, PartialEq, Eq, Hash)]
pub struct Feature {
    pub name: String,
    pub description: Option<String>,
    pub background: Option<Background>,
    pub scenarios: Vec<Scenario>,
    pub tags: Option<Vec<String>>,
    pub position: (usize, usize),
}

/// A table as contracts see it.
pub struct TableView {
    pub header: Seq<Seq<char>>,
    pub rows: Seq<Seq<Seq<char>>>,
    pub position: (usize, usize),
}

/// A step as contracts see it.
pub struct StepView {
    pub ty: StepType,
    pub raw_type: Seq<char>,
    pub value: Seq<char>,
    pub docstring: Option<Seq<char>>,
    pub table: Option<TableView>,
    pub position: (usize, usize),
}

/// The examples of a scenario as contracts see them.
pub struct ExamplesView {
    pub table: TableView,
    pub tags: Option<Seq<Seq<char>>>,
    pub position: (usize, usize),
}

/// A scenario as contracts see it.
pub struct ScenarioView {
    pub name: Seq<char>,
    pub steps: Seq<StepView>,
    pub examples: Option<ExamplesView>,
    pub tags: Option<Seq<Seq<char>>>,
    pub position: (usize, usize),
}

/// A background as contracts see it.
pub struct BackgroundView {
    pub steps: Seq<StepView>,
    pub position: (usize, usize),
}

/// A feature as contracts see it.
pub struct FeatureView {
    pub name: Seq<char>,
    pub description: Option<Seq<char>>,
    pub background: Option<BackgroundView>,
    pub scenarios: Seq<ScenarioView>,
    pub tags: Option<Seq<Seq<char>>>,
    pub position: (usize, usize),
}

/// The strings as sequences of characters.
pub open spec fn texts(v: Seq<String>) -> Seq<Seq<char>> {
    v.map_values(|s: String| s@)
}

/// The rows of strings as rows of sequences of characters.
pub open spec fn grid(v: Seq<Vec<String>>) -> Seq<Seq<Seq<char>>> {
    v.map_values(|r: Vec<String>| texts(r@))
}

/// The string, where there is one, as a sequence of characters.
pub open spec fn opt_text(o: Option<String>) -> Option<Seq<char>> {
    match o {
        Some(s) => Some(s@),
        None => None,
    }
}

/// The strings, where there are any, as sequences of characters.
pub open spec fn opt_texts(o: Option<Vec<String>>) -> Option<Seq<Seq<char>>> {
    match o {
        Some(v) => Some(texts(v@)),
        None => None,
    }
}

/// The steps as contracts see them.
pub open spec fn steps_view(v: Seq<Step>) -> Seq<StepView> {
    v.map_values(|s: Step| s@)
}

/// The scenarios as contracts see them.
pub open spec fn scenarios_view(v: Seq<Scenario>) -> Seq<ScenarioView> {
    v.map_values(|s: Scenario| s@)
}

/// Every row is as wide as the header.
pub open spec fn rectangular(t: TableView) -> bool {
    forall|i: int| 0 <= i < t.rows.len() ==> (#[trigger] t.rows[i]).len() == t.header.len()
}

/// A step has a text block or a table or neither, and its table, where it
/// has one, is rectangular.
pub open spec fn step_ok(s: StepView) -> bool {
    &&& s.table matches Some(t) ==> rectangular(t)
    &&& !(s.docstring is Some && s.table is Some)
}

/// Every step of the sequence is as `step_ok` says.
pub open spec fn all_steps_ok(v: Seq<StepView>) -> bool {
    forall|i: int| 0 <= i < v.len() ==> step_ok(#[trigger] v[i])
}

/// The kind of the step before step `k` of a sequence, if there is one.
pub open spec fn kind_before(v: Seq<StepView>, k: int) -> Option<StepType> {
    if 0 < k <= v.len() {
        Some(v[k - 1].ty)
    } else {
        None
    }
}

/// Every step of the sequence has the kind that its keyword stands for after
/// the step before it.
pub open spec fn kinds_resolved(v: Seq<StepView>) -> bool {
    forall|k: int|
        0 <= k < v.len() ==> resolved((#[trigger] v[k]).raw_type, kind_before(v, k)) == Ok::<
            StepType,
            StepTypeError,
        >(v[k].ty)
}

/// A sequence of steps as it is read: every step is as `step_ok` says and
/// has the kind that its keyword stands for.
pub open spec fn steps_ok(v: Seq<StepView>) -> bool {
    all_steps_ok(v) && kinds_resolved(v)
}

/// No tag stands twice.
pub open spec fn tags_ok(t: Option<Seq<Seq<char>>>) -> bool {
    t matches Some(v) ==> v.no_duplicates()
}

/// The steps of a scenario are as `steps_ok` says, the table of its examples
/// is rectangular, and no tag stands twice among its tags or among those of
/// its examples.
pub open spec fn scenario_ok(s: ScenarioView) -> bool {
    &&& steps_ok(s.steps)
    &&& tags_ok(s.tags)
    &&& s.examples matches Some(e) ==> rectangular(e.table) && tags_ok(e.tags)
}

/// What holds of every feature that is read: every table is rectangular, no
/// step has both a text block and a table, every step has the kind that its
/// keyword stands for, and no tag stands twice in one place.
pub open spec fn well_formed(f: FeatureView) -> bool {
    &&& tags_ok(f.tags)
    &&& f.background matches Some(b) ==> steps_ok(b.steps)
    &&& forall|i: int| 0 <= i < f.scenarios.len() ==> scenario_ok(#[trigger] f.scenarios[i])
}

impl View for Table {
    type V = TableView;

    open spec fn view(&self) -> TableView {
        TableView { header: texts(self.header@), rows: grid(self.rows@), position: self.position }
    }
}

impl View for Step {
    type V = StepView;

    open spec fn view(&self) -> StepView {
        StepView {
            ty: self.ty,
            raw_type: self.raw_type@,
            value: self.value@,
            docstring: opt_text(self.docstring),
            table: match self.table {
                Some(t) => Some(t@),
                None => None,
            },
            position: self.position,
        }
    }
}

impl View for Examples {
    type V = ExamplesView;

    open spec fn view(&self) -> ExamplesView {
        ExamplesView { table: self.table@, tags: opt_texts(self.tags), position: self.position }
    }
}

impl View for Scenario {
    type V = ScenarioView;

    open spec fn view(&self) -> ScenarioView {
        ScenarioView {
            name: self.name@,
            steps: steps_view(self.steps@),
            examples: match self.examples {
                Some(e) => Some(e@),
                None => None,
            },
            tags: opt_texts(self.tags),
            position: self.position,
        }
    }
}

impl View for Background {
    type V = BackgroundView;

    open spec fn view(&self) -> BackgroundView {
        BackgroundView { steps: steps_view(self.steps@), position: self.position }
    }
}

impl View for Feature {
    type V = FeatureView;

    open spec fn view(&self) -> FeatureView {
        FeatureView {
            name: self.name@,
            description: opt_text(self.description),
            background: match self.background {
                Some(b) => Some(b@),
                None => None,
            },
            scenarios: scenarios_view(self.scenarios@),
            tags: opt_texts(self.tags),
            position: self.position,
        }
    }
}

/// A copy of the texts.
fn texts_clone(v: &Vec<String>) -> (r: Vec<String>)
    ensures
        texts(r@) == texts(v@),
{
    let r = v.clone();
    assert(texts(r@) =~= texts(v@));
    r
}

/// A copy of the tags, where there are any.
fn tags_clone(v: &Option<Vec<String>>) -> (r: Option<Vec<String>>)
    ensures
        opt_texts(r) == opt_texts(*v),
{
    match v {
        Some(t) => Some(texts_clone(t)),
        None => None,
    }
}

/// A copy of the steps.
fn steps_clone(v: &Vec<Step>) -> (r: Vec<Step>)
    ensures
        steps_view(r@) == steps_view(v@),
{
    let r = v.clone();
    assert(steps_view(r@) =~= steps_view(v@));
    r
}

impl Clone for Table {
    fn clone(&self) -> (r: Self)
        ensures
            r@ == self@,
    {
        let header = texts_clone(&self.header);
        let rows = self.rows.clone();
        proof {
            assert forall|i: int| 0 <= i < rows.len() implies texts(#[trigger] rows@[i]@) == texts(
                self.rows@[i]@,
            ) by {
                assert(texts(rows@[i]@) =~= texts(self.rows@[i]@));
            }
            assert(grid(rows@) =~= grid(self.rows@));
        }
        Table { header, rows, position: self.position }
    }
}

impl Clone for Step {
    fn clone(&self) -> (r: Self)
        ensures
            r@ == self@,
    {
        Step {
            ty: self.ty,
            raw_type: self.raw_type.clone(),
            value: self.value.clone(),
            docstring: self.docstring.clone(),
            table: self.table.clone(),
            position: self.position,
        }
    }
}

impl Clone for Examples {
    fn clone(&self) -> (r: Self)
        ensures
            r@ == self@,
    {
        Examples {
            table: self.table.clone(),
            tags: tags_clone(&self.tags),
            position: self.position,
        }
    }
}

impl Clone for Scenario {
    fn clone(&self) -> (r: Self)
        ensures
            r@ == self@,
    {
        Scenario {
            name: self.name.clone(),
            steps: steps_clone(&self.steps),
            examples: self.examples.clone(),
            tags: tags_clone(&self.tags),
            position: self.position,
        }
    }
}

impl Clone for Background {
    fn clone(&self) -> (r: Self)
        ensures
            r@ == self@,
    {
        Background { steps: steps_clone(&self.steps), position: self.position }
    }
}

impl Clone for Feature {
    fn clone(&self) -> (r: Self)
        ensures
            r@ == self@,
    {
        let scenarios = self.scenarios.clone();
        assert(scenarios_view(scenarios@) =~= scenarios_view(self.scenarios@));
        Feature {
            name: self.name.clone(),
            description: self.description.clone(),
            background: self.background.clone(),
            scenarios,
            tags: tags_clone(&self.tags),
            position: self.position,
        }
    }
}

/// The kind that a keyword stands for after a step of kind `context`.
pub open spec fn resolved(s: Seq<char>, context: Option<StepType>) -> Result<StepType, StepTypeError> {
    if s == "Given"@ {
        Ok(StepType::Given)
    } else if s == "When"@ {
        Ok(StepType::When)
    } else if s == "Then"@ {
        Ok(StepType::Then)
    } else if s == "And"@ || s == "But"@ {
        match context {
            Some(v) => Ok(v),
            None => Err(StepTypeError::MissingContext),
        }
    } else {
        Err(StepTypeError::UnknownKeyword)
    }
}

impl StepType {
    /// The name of the kind, which is also its keyword.
    pub fn as_str(&self) -> (r: &'static str)
        ensures
            r@ == match *self {
                StepType::Given => "Given"@,
                StepType::When => "When"@,
                StepType::Then => "Then"@,
            },
    {
        match self {
            StepType::Given => "Given",
            StepType::When => "When",
            StepType::Then => "Then",
        }
    }

    /// `Given`, `When` and `Then` name their own kind. `And` and `But` take the
    /// kind of the step before them, and are refused where there is none.
    pub fn new_with_context(s: &str, context: Option<StepType>) -> (r: Result<StepType, StepTypeError>)
        ensures
            r == resolved(s@, context),
    {
        let v = chars_of(s);
        if same_text(&v, "Given") {
            Ok(StepType::Given)
        } else if same_text(&v, "When") {
            Ok(StepType::When)
        } else if same_text(&v, "Then") {
            Ok(StepType::Then)
        } else if same_text(&v, "And") || same_text(&v, "But") {
            match context {
                Some(k) => Ok(k),
                None => Err(StepTypeError::MissingContext),
            }
        } else {
            Err(StepTypeError::UnknownKeyword)
        }
    }
}

impl Table {
    /// A table of the given header and rows, or the index of the first row
    /// that is not as wide as the header.
    pub fn new(header: Vec<String>, rows: Vec<Vec<String>>, position: (usize, usize)) -> (r: Result<Table, usize>)
        ensures
            match r {
                Ok(t) => t.header == header && t.rows == rows && t.position == position
                    && rectangular(t@)
                    && forall|i: int| 0 <= i < rows.len() ==> (#[trigger] rows[i]).len() == header.len(),
                Err(k) => 0 <= k < rows.len() && rows[k as int].len() != header.len()
                    && forall|i: int| 0 <= i < k ==> (#[trigger] rows[i]).len() == header.len(),
            },
    {
        let mut i: usize = 0;
        while i < rows.len()
            invariant
                i <= rows.len(),
                forall|j: int| 0 <= j < i ==> (#[trigger] rows[j]).len() == header.len(),
            decreases rows.len() - i,
        {
            if rows[i].len() != header.len() {
                return Err(i);
            }
            i += 1;
        }
        let t = Table { header, rows, position };
        proof {
            assert forall|j: int| 0 <= j < t@.rows.len() implies (#[trigger] t@.rows[j]).len()
                == t@.header.len() by {
                assert(t@.rows[j] == texts(rows[j]@));
            }
        }
        Ok(t)
    }
}

impl Step {
    /// The text block of the step, if it has one.
    pub fn docstring(&self) -> (r: Option<&String>)
        ensures
            r == match self.docstring {
                Some(v) => Some(&v),
                None => None,
            },
    {
        match &self.docstring {
            Some(v) => Some(v),
            None => None,
        }
    }

    /// The table of the step, if it has one.
    pub fn table(&self) -> (r: Option<&Table>)
        ensures
            r == match self.table {
                Some(v) => Some(&v),
                None => None,
            },
    {
        match &self.table {
            Some(v) => Some(v),
            None => None,
        }
    }

    /// The step as it was written: the keyword, a space and the text.
    pub fn to_string(&self) -> (r: String)
        ensures
            r@ == self.raw_type@.push(' ') + self.value@,
    {
        let mut r = self.raw_type.clone();
        r.push(' ');
        r.append(self.value.as_str());
        r
    }
}

} // verus!
