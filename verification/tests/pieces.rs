use gherkin::dedent::dedent;
use gherkin::model::{Step, StepType, StepTypeError, Table};
use gherkin::parser::{cells_of, classify};
use gherkin::grammar::Kind;

#[test]
fn step_type_names() {
    assert_eq!(StepType::Given.as_str(), "Given");
    assert_eq!(StepType::When.as_str(), "When");
    assert_eq!(StepType::Then.as_str(), "Then");
}

#[test]
fn keywords_with_context() {
    assert_eq!(StepType::new_with_context("Given", None), Ok(StepType::Given));
    assert_eq!(StepType::new_with_context("When", Some(StepType::Given)), Ok(StepType::When));
    assert_eq!(StepType::new_with_context("Then", None), Ok(StepType::Then));
    assert_eq!(StepType::new_with_context("And", Some(StepType::When)), Ok(StepType::When));
    assert_eq!(StepType::new_with_context("But", Some(StepType::Then)), Ok(StepType::Then));
}

#[test]
fn keywords_without_kind() {
    assert_eq!(StepType::new_with_context("And", None), Err(StepTypeError::MissingContext));
    assert_eq!(StepType::new_with_context("But", None), Err(StepTypeError::MissingContext));
    assert_eq!(
        StepType::new_with_context("Maybe", Some(StepType::Given)),
        Err(StepTypeError::UnknownKeyword)
    );
    assert_eq!(StepType::new_with_context("given", None), Err(StepTypeError::UnknownKeyword));
    assert_eq!(StepType::new_with_context("", None), Err(StepTypeError::UnknownKeyword));
}

#[test]
fn step_rendering_and_accessors() {
    let t = Table::new(vec!["a".to_string()], vec![vec!["1".to_string()]], (2, 3)).unwrap();
    let s = Step {
        ty: StepType::Given,
        raw_type: "And".to_string(),
        value: "a thing".to_string(),
        docstring: None,
        table: Some(t.clone()),
        position: (1, 1),
    };
    assert_eq!(s.to_string(), "And a thing");
    assert_eq!(s.docstring(), None);
    assert_eq!(s.table(), Some(&t));
    let d = Step { docstring: Some("text".to_string()), table: None, ..s.clone() };
    assert_eq!(d.docstring(), Some(&"text".to_string()));
    assert_eq!(d.table(), None);
}

#[test]
fn table_rows_are_as_wide_as_the_header() {
    let h = vec!["a".to_string(), "b".to_string()];
    let good = vec![vec!["1".to_string(), "2".to_string()], vec![String::new(), String::new()]];
    let t = Table::new(h.clone(), good.clone(), (4, 1)).unwrap();
    assert_eq!(t.header, h);
    assert_eq!(t.rows, good);
    assert_eq!(t.position, (4, 1));
    for r in &t.rows {
        assert_eq!(r.len(), t.header.len());
    }
    let bad = vec![
        vec!["1".to_string(), "2".to_string()],
        vec!["1".to_string()],
        vec![],
    ];
    assert_eq!(Table::new(h.clone(), bad, (1, 1)), Err(1));
    assert!(Table::new(h, vec![], (1, 1)).is_ok());
}

#[test]
fn dedent_removes_the_common_margin() {
    assert_eq!(dedent("    a\n      b\n    c\n"), "a\n  b\nc\n");
    assert_eq!(dedent("  a\n b"), " a\nb");
    assert_eq!(dedent("\ta\n\tb"), "a\nb");
    assert_eq!(dedent("\ta\n  b"), "\ta\n  b");
    assert_eq!(dedent(""), "");
    assert_eq!(dedent("abc"), "abc");
}

#[test]
fn dedent_handles_blank_lines() {
    assert_eq!(dedent("  a\n\n  b\n"), "a\n\nb\n");
    assert_eq!(dedent("  a\n \n  b"), "a\n\nb");
    assert_eq!(dedent("  a\n     \n  b"), "a\n   \nb");
    assert_eq!(dedent("   \n  "), "   \n  ");
    assert_eq!(dedent("\n\n  a"), "\n\na");
}

#[test]
fn dedent_twice_is_dedent_once() {
    for x in ["    a\n      b\n", "  a\n b", " \n  x\n\t y\n\n", "a\r\r\n  b", "", "\n", "  \n    \n"] {
        let once = dedent(x);
        assert_eq!(dedent(&once), once);
    }
}

#[test]
fn dedent_keeps_the_last_line_feed() {
    assert!(dedent("  a\n  b\n").ends_with('\n'));
    assert!(!dedent("  a\n  b").ends_with('\n'));
    assert_eq!(dedent("\n"), "\n");
    assert!(dedent("  a\n\n\n").ends_with("\n\n\n"));
}

#[test]
fn dedent_may_empty_a_last_line_of_whitespace() {
    assert_eq!(dedent("  a\n "), "a\n");
}

#[test]
fn cells_are_trimmed() {
    let row: Vec<char> = "  |  a b | | c|  ".chars().collect();
    assert_eq!(cells_of(&row), vec!["a b".to_string(), String::new(), "c".to_string()]);
    let bare: Vec<char> = "|".chars().collect();
    assert_eq!(cells_of(&bare), Vec::<String>::new());
    let open: Vec<char> = "| a | b".chars().collect();
    assert_eq!(cells_of(&open), vec!["a".to_string()]);
}

#[test]
fn lines_are_told_apart() {
    let k = |s: &str| classify(&s.chars().collect::<Vec<char>>());
    assert_eq!(k("   "), (Kind::Blank, 3, 3));
    assert_eq!(k(""), (Kind::Blank, 0, 0));
    assert_eq!(k(" # x"), (Kind::Comment, 1, 1));
    assert_eq!(k("@a"), (Kind::Tags, 0, 0));
    assert_eq!(k("| a |"), (Kind::Row, 0, 0));
    assert_eq!(k("  \"\"\""), (Kind::Fence, 2, 5));
    assert_eq!(k("Feature: x"), (Kind::Feature, 0, 8));
    assert_eq!(k(" Background:"), (Kind::Background, 1, 12));
    assert_eq!(k("Scenario: x"), (Kind::Scenario, 0, 9));
    assert_eq!(k("Scenario Outline: x"), (Kind::Scenario, 0, 17));
    assert_eq!(k("Examples:"), (Kind::Examples, 0, 9));
    assert_eq!(k("Given x"), (Kind::Step, 0, 5));
    assert_eq!(k("  When"), (Kind::Step, 2, 6));
    assert_eq!(k("Then\tx"), (Kind::Step, 0, 4));
    assert_eq!(k("And x"), (Kind::Step, 0, 3));
    assert_eq!(k("But x"), (Kind::Step, 0, 3));
    assert_eq!(k("Andy x"), (Kind::Other, 0, 0));
    assert_eq!(k("feature: x"), (Kind::Other, 0, 0));
}

#[test]
fn whitespace_is_that_of_unicode() {
    assert_eq!(dedent("\u{a0}\u{3000}a\n\u{a0}\u{3000} b\n\u{2003}\n"), "a\n b\n\n");
    assert_eq!(dedent("\u{a0}a\n\u{2000}b"), "\u{a0}a\n\u{2000}b");
    let row: Vec<char> = "|\u{2009}a\u{200a}|\u{b}\u{c}b\u{85}|\u{200b}c|".chars().collect();
    assert_eq!(
        cells_of(&row),
        vec!["a".to_string(), "b".to_string(), "\u{200b}c".to_string()]
    );
    for c in ['\u{9}', '\u{b}', '\u{c}', '\u{d}', ' ', '\u{85}', '\u{a0}', '\u{1680}', '\u{2000}', '\u{2005}', '\u{200a}', '\u{2028}', '\u{2029}', '\u{202f}', '\u{205f}', '\u{3000}'] {
        assert!(c.is_whitespace());
        let line: Vec<char> = vec![c, 'x', c];
        assert_eq!(classify(&line), (Kind::Other, 1, 1));
    }
    for c in ['\u{1fff}', '\u{200b}', '\u{180e}', '\u{feff}', '_'] {
        let line: Vec<char> = vec![c, 'x'];
        assert_eq!(classify(&line), (Kind::Other, 0, 0));
    }
}

#[test]
fn carriage_returns_are_whitespace() {
    assert_eq!(dedent("  a\r\n  b\r\n"), "a\r\nb\r\n");
    let once = dedent("a\r\r\n b");
    assert_eq!(dedent(&once), once);
}
