use gherkin::model::{Error, Expected, Feature, StepType};
use gherkin::parser::error_position;

fn kinds(f: &Feature, scenario: usize) -> Vec<StepType> {
    f.scenarios[scenario].steps.iter().map(|s| s.ty).collect()
}

#[test]
fn test_e2e() {
    let lines = [
        "# a leading comment",
        "@billing @slow",
        "Feature: Invoices",
        "  Invoices are sent at the end",
        "  of each month.",
        "",
        "  Background:",
        "    Given a customer",
        "    And an open account",
        "",
        "  @smoke",
        "  Scenario: Sending",
        "    Given an invoice",
        "      \"\"\"",
        "      Dear customer,",
        "",
        "        please pay.",
        "      \"\"\"",
        "    When it is sent",
        "      | to    | copies |",
        "      | alice | 2      |",
        "    Then it arrives",
        "    But nothing else does",
        "",
        "  Scenario Outline: Paying <amount>",
        "    When <amount> is paid",
        "    Then <rest> is left",
        "",
        "    @table",
        "    Examples:",
        "      | amount | rest |",
        "      | 1      | 9    |",
        "      # between rows",
        "      | 10     | 0    |",
        "",
    ];
    let text = lines.join("\n");
    let s = text.as_str();
    let f = Feature::try_from(s).unwrap();
    assert_eq!(f.name, "Invoices");
    assert_eq!(f.position, (3, 1));
    assert_eq!(f.tags, Some(vec!["@billing".to_string(), "@slow".to_string()]));
    assert_eq!(
        f.description,
        Some("Invoices are sent at the end\nof each month.".to_string())
    );
    let b = f.background.as_ref().unwrap();
    assert_eq!(b.position, (7, 3));
    assert_eq!(b.steps.len(), 2);
    assert_eq!(b.steps[1].ty, StepType::Given);
    assert_eq!(b.steps[1].raw_type, "And");
    assert_eq!(f.scenarios.len(), 2);
    let first = &f.scenarios[0];
    assert_eq!(first.name, "Sending");
    assert_eq!(first.position, (12, 3));
    assert_eq!(first.tags, Some(vec!["@smoke".to_string()]));
    assert!(first.examples.is_none());
    assert_eq!(
        kinds(&f, 0),
        vec![StepType::Given, StepType::When, StepType::Then, StepType::Then]
    );
    assert_eq!(
        first.steps[0].docstring,
        Some("Dear customer,\n\n  please pay.".to_string())
    );
    assert!(first.steps[0].table.is_none());
    let t = first.steps[1].table.as_ref().unwrap();
    assert_eq!(t.header, vec!["to".to_string(), "copies".to_string()]);
    assert_eq!(t.rows, vec![vec!["alice".to_string(), "2".to_string()]]);
    assert_eq!(t.position, (20, 7));
    assert_eq!(first.steps[3].position, (23, 5));
    let second = &f.scenarios[1];
    assert_eq!(second.name, "Paying <amount>");
    assert_eq!(second.tags, None);
    let e = second.examples.as_ref().unwrap();
    assert_eq!(e.position, (30, 5));
    assert_eq!(e.tags, Some(vec!["@table".to_string()]));
    assert_eq!(e.table.header, vec!["amount".to_string(), "rest".to_string()]);
    assert_eq!(e.table.rows.len(), 2);
    assert_eq!(e.table.rows[1], vec!["10".to_string(), "0".to_string()]);
}

#[test]
fn three_plain_steps() {
    let s = "Feature: Sample\n  Scenario: Works\n    Given a precondition\n    When an action occurs\n    Then an outcome is observed\n";
    let f = Feature::try_from(s).unwrap();
    assert_eq!(f.name, "Sample");
    assert_eq!(f.description, None);
    assert_eq!(f.tags, None);
    assert!(f.background.is_none());
    assert_eq!(f.scenarios.len(), 1);
    let sc = &f.scenarios[0];
    assert_eq!(sc.name, "Works");
    assert_eq!(sc.steps.len(), 3);
    assert_eq!(sc.steps[0].ty, StepType::Given);
    assert_eq!(sc.steps[0].value, "a precondition");
    assert_eq!(sc.steps[1].ty, StepType::When);
    assert_eq!(sc.steps[1].value, "an action occurs");
    assert_eq!(sc.steps[2].ty, StepType::Then);
    assert_eq!(sc.steps[2].value, "an outcome is observed");
    assert_eq!(sc.steps[2].raw_type, "Then");
    assert_eq!(sc.steps[2].to_string(), "Then an outcome is observed");
}

#[test]
fn step_with_pipe_table() {
    let s = "Feature: T\nScenario: S\nGiven a table\n|a|b|\n|1|2|\n";
    let f = Feature::try_from(s).unwrap();
    let step = &f.scenarios[0].steps[0];
    let t = step.table().unwrap();
    assert_eq!(t.header, vec!["a".to_string(), "b".to_string()]);
    assert_eq!(t.rows, vec![vec!["1".to_string(), "2".to_string()]]);
    assert_eq!(t.position, (4, 1));
    assert!(step.docstring().is_none());
}

#[test]
fn missing_feature_keyword() {
    let s = "Scenario: S\n  Given x\n";
    let r = Feature::try_from(s);
    assert_eq!(r, Err(Error::Syntax { position: (1, 1), expected: Expected::Feature }));
    assert_eq!(error_position(&r.unwrap_err()), (1, 1));
}

#[test]
fn empty_text_is_no_feature() {
    assert_eq!(
        Feature::try_from(""),
        Err(Error::Syntax { position: (1, 1), expected: Expected::Feature })
    );
}

#[test]
fn continuation_keywords_take_the_kind_before() {
    let f = Feature::try_from("Feature: F\nScenario: A\nGiven a\nAnd b\nAnd c\nScenario: B\nGiven a\nWhen b\nBut c\n").unwrap();
    assert_eq!(kinds(&f, 0), vec![StepType::Given, StepType::Given, StepType::Given]);
    assert_eq!(kinds(&f, 1), vec![StepType::Given, StepType::When, StepType::When]);
    assert_eq!(f.scenarios[1].steps[2].raw_type, "But");
}

#[test]
fn continuation_keyword_first_is_refused() {
    let r = Feature::try_from("Feature: F\nScenario: A\n  And b\n");
    assert_eq!(r, Err(Error::Context { position: (3, 3) }));
    let r = Feature::try_from("Feature: F\nBackground:\nBut b\nScenario: A\nGiven c\n");
    assert_eq!(r, Err(Error::Context { position: (3, 1) }));
}

#[test]
fn context_does_not_cross_sequences() {
    let r = Feature::try_from("Feature: F\nBackground:\nGiven b\nScenario: A\nAnd c\n");
    assert_eq!(r, Err(Error::Context { position: (5, 1) }));
}

#[test]
fn ragged_table_is_refused() {
    let r = Feature::try_from("Feature: F\nScenario: A\nGiven c\n  | a | b |\n  | 1 | 2 |\n   | 3 |\n");
    assert_eq!(r, Err(Error::Construction { position: (6, 4) }));
    assert_eq!(error_position(&r.unwrap_err()), (6, 4));
}

#[test]
fn open_text_block_is_refused() {
    let r = Feature::try_from("Feature: F\nScenario: A\nGiven c\n\"\"\"\nabc");
    assert_eq!(r, Err(Error::Syntax { position: (5, 4), expected: Expected::Fence }));
}

#[test]
fn scenario_without_steps_is_refused() {
    let r = Feature::try_from("Feature: F\nScenario: A\nScenario: B\nGiven x\n");
    assert_eq!(r, Err(Error::Syntax { position: (3, 1), expected: Expected::Step }));
}

#[test]
fn feature_without_scenario_is_refused() {
    let r = Feature::try_from("Feature: F\n");
    assert_eq!(r, Err(Error::Syntax { position: (2, 1), expected: Expected::Scenario }));
}

#[test]
fn tags_before_nothing_are_refused() {
    let r = Feature::try_from("Feature: F\nScenario: A\nGiven x\n@late\n");
    assert_eq!(r, Err(Error::Syntax { position: (5, 1), expected: Expected::Tagged }));
}

#[test]
fn examples_need_a_table() {
    let r = Feature::try_from("Feature: F\nScenario: A\nGiven x\nExamples:\nGiven y\n");
    assert_eq!(r, Err(Error::Syntax { position: (5, 1), expected: Expected::Row }));
}

#[test]
fn block_and_table_exclude_each_other() {
    let r = Feature::try_from("Feature: F\nScenario: A\nGiven x\n\"\"\"\nt\n\"\"\"\n| a |\n");
    assert_eq!(r, Err(Error::Syntax { position: (7, 1), expected: Expected::Scenario }));
}

#[test]
fn position_counts_from_one() {
    let f = Feature::try_from("\n\n   Feature: F\nScenario: A\n\tGiven x\n").unwrap();
    assert_eq!(f.position, (3, 4));
    assert_eq!(f.scenarios[0].position, (4, 1));
    assert_eq!(f.scenarios[0].steps[0].position, (5, 2));
}

#[test]
fn description_is_kept_when_there_is_one() {
    let f = Feature::try_from("Feature: F\n    one\n      two\n\n    three\n\nScenario: A\nGiven x\n").unwrap();
    assert_eq!(f.description, Some("one\n  two\n\nthree".to_string()));
    let g = Feature::try_from("Feature: F\n\nScenario: A\nGiven x\n").unwrap();
    assert_eq!(g.description, None);
}

#[test]
fn text_block_keeps_inner_blank_lines() {
    let f = Feature::try_from("Feature: F\nScenario: A\nGiven x\n  \"\"\"\n\n  a\n\n    b  \n\n  \"\"\"\nThen y\n").unwrap();
    let st = &f.scenarios[0].steps[0];
    assert_eq!(st.docstring(), Some(&"a\n\n  b".to_string()));
    assert_eq!(f.scenarios[0].steps.len(), 2);
}

#[test]
fn empty_text_block() {
    let f = Feature::try_from("Feature: F\nScenario: A\nGiven x\n\"\"\"\n\"\"\"\n").unwrap();
    assert_eq!(f.scenarios[0].steps[0].docstring, Some(String::new()));
}

#[test]
fn keywords_inside_a_text_block_are_text() {
    let f = Feature::try_from("Feature: F\nScenario: A\nGiven x\n\"\"\"\nScenario: no\n# no comment\n\"\"\"\n").unwrap();
    assert_eq!(f.scenarios.len(), 1);
    assert_eq!(
        f.scenarios[0].steps[0].docstring,
        Some("Scenario: no\n# no comment".to_string())
    );
}

#[test]
fn tags_keep_their_marker_and_first_place() {
    let f = Feature::try_from("@b @a\n@b\nFeature: F\nScenario: A\nGiven x\n").unwrap();
    assert_eq!(
        f.tags,
        Some(vec!["@b".to_string(), "@a".to_string()])
    );
}

#[test]
fn clone_is_equal() {
    let f = Feature::try_from("Feature: F\nScenario: A\nGiven x\n|a|\n|1|\n").unwrap();
    assert_eq!(f.clone(), f);
}

#[test]
fn lines_may_end_in_carriage_returns() {
    let f = Feature::try_from("Feature: F\r\nScenario: A\r\n  Given x\r\n  | a |\r\n  | 1 |\r\n").unwrap();
    assert_eq!(f.name, "F");
    assert_eq!(f.scenarios[0].name, "A");
    assert_eq!(f.scenarios[0].steps[0].value, "x");
    assert_eq!(f.scenarios[0].steps[0].table.as_ref().unwrap().rows, vec![vec!["1".to_string()]]);
}

#[test]
fn comments_are_passed_over() {
    let f = Feature::try_from("# one\nFeature: F\n# two\nScenario: A\n# three\nGiven x\n# four\nThen y\n# five\n").unwrap();
    assert_eq!(f.description, None);
    assert_eq!(f.scenarios[0].steps.len(), 2);
    assert_eq!(f.scenarios[0].steps[1].position, (8, 1));
}

#[test]
fn empty_background_is_read() {
    let f = Feature::try_from("Feature: F\nBackground:\nScenario: A\nGiven x\n").unwrap();
    let b = f.background.unwrap();
    assert!(b.steps.is_empty());
    assert_eq!(b.position, (2, 1));
}
