use cuke_runner::cuke::{CukeArgument, CukeStep, StepArgument};
use cuke_runner::glue::{StepDefinition, StepKeyword};
use cuke_runner::location::CodeLocation;
use cuke_runner::resolver::{resolve, StepMatch};

fn def(keyword: StepKeyword, pattern: &str, line: usize) -> StepDefinition {
    StepDefinition {
        name: format!("handler_at_{}", line),
        keyword,
        pattern: pattern.to_string(),
        parameter_count: 0,
        location: CodeLocation { file_path: "steps.rs".to_string(), line_number: line },
    }
}

fn step(keyword: StepKeyword, text: &str) -> CukeStep {
    CukeStep { keyword, text: text.to_string(), argument: None }
}

#[test]
fn no_definition_matches() {
    let steps = vec![def(StepKeyword::Given, "a", 1)];
    let m = resolve(&steps, &step(StepKeyword::Given, "q"));
    assert!(matches!(m, StepMatch::NoneMatching));
}

#[test]
fn one_definition_matches_without_captures() {
    let steps = vec![def(StepKeyword::Given, "a", 1), def(StepKeyword::When, "b", 2)];
    let m = resolve(&steps, &step(StepKeyword::Given, "a"));
    match m {
        StepMatch::Matched { definition_index, arguments } => {
            assert_eq!(definition_index, 0);
            assert!(arguments.is_empty());
        },
        _ => panic!("expected a match"),
    }
}

#[test]
fn keyword_must_match() {
    let steps = vec![def(StepKeyword::Given, "a", 1)];
    let m = resolve(&steps, &step(StepKeyword::When, "a"));
    assert!(matches!(m, StepMatch::NoneMatching));
}

#[test]
fn star_matches_any_keyword() {
    let steps = vec![def(StepKeyword::Star, "a", 1)];
    assert!(matches!(resolve(&steps, &step(StepKeyword::Given, "a")), StepMatch::Matched { .. }));
    assert!(matches!(resolve(&steps, &step(StepKeyword::Then, "a")), StepMatch::Matched { .. }));
}

#[test]
fn pattern_must_match_the_full_text() {
    let steps = vec![def(StepKeyword::Given, "a", 1)];
    assert!(matches!(resolve(&steps, &step(StepKeyword::Given, "aa")), StepMatch::NoneMatching));
    assert!(matches!(resolve(&steps, &step(StepKeyword::Given, "ba")), StepMatch::NoneMatching));
}

#[test]
fn captures_become_expression_arguments_in_order() {
    let steps = vec![def(StepKeyword::Given, r"(\d+) cukes and (\d+) plates", 1)];
    let m = resolve(&steps, &step(StepKeyword::Given, "42 cukes and 7 plates"));
    match m {
        StepMatch::Matched { arguments, .. } => {
            assert_eq!(arguments.len(), 2);
            assert!(matches!(&arguments[0], StepArgument::Expression(s) if s == "42"));
            assert!(matches!(&arguments[1], StepArgument::Expression(s) if s == "7"));
        },
        _ => panic!("expected a match"),
    }
}

#[test]
fn zero_capture_groups_yield_no_arguments() {
    let steps = vec![def(StepKeyword::Given, "exactly this text", 1)];
    let m = resolve(&steps, &step(StepKeyword::Given, "exactly this text"));
    match m {
        StepMatch::Matched { arguments, .. } => assert!(arguments.is_empty()),
        _ => panic!("expected a match"),
    }
}

#[test]
fn docstring_is_appended_after_captures() {
    let steps = vec![def(StepKeyword::Given, "text:", 1)];
    let cuke_step = CukeStep {
        keyword: StepKeyword::Given,
        text: "text:".to_string(),
        argument: Some(CukeArgument::DocString {
            content: "hello".to_string(),
            content_type: None,
        }),
    };
    let m = resolve(&steps, &cuke_step);
    match m {
        StepMatch::Matched { arguments, .. } => {
            assert_eq!(arguments.len(), 1);
            assert!(matches!(&arguments[0], StepArgument::DocString { content, .. } if content == "hello"));
        },
        _ => panic!("expected a match"),
    }
}

#[test]
fn table_is_appended_after_captures() {
    let steps = vec![def(StepKeyword::Given, r"(\d+) rows:", 1)];
    let cuke_step = CukeStep {
        keyword: StepKeyword::Given,
        text: "2 rows:".to_string(),
        argument: Some(CukeArgument::Table {
            rows: vec![vec!["a".to_string()], vec!["b".to_string()]],
        }),
    };
    let m = resolve(&steps, &cuke_step);
    match m {
        StepMatch::Matched { arguments, .. } => {
            assert_eq!(arguments.len(), 2);
            assert!(matches!(&arguments[0], StepArgument::Expression(s) if s == "2"));
            assert!(matches!(&arguments[1], StepArgument::DataTable(t) if t.rows.len() == 2));
        },
        _ => panic!("expected a match"),
    }
}

#[test]
fn two_matching_definitions_are_ambiguous() {
    let steps = vec![def(StepKeyword::Given, "foo.*", 11), def(StepKeyword::Given, r"foo\d+", 22)];
    let m = resolve(&steps, &step(StepKeyword::Given, "foo42"));
    match m {
        StepMatch::Ambiguous { locations } => {
            assert_eq!(locations.len(), 2);
            assert_eq!(locations[0].line_number, 11);
            assert_eq!(locations[1].line_number, 22);
        },
        _ => panic!("expected ambiguity"),
    }
}

#[test]
fn resolving_twice_yields_the_same_classification() {
    let steps = vec![def(StepKeyword::Given, r"(\w+) item", 1)];
    let s = step(StepKeyword::Given, "one item");
    let first = resolve(&steps, &s);
    let second = resolve(&steps, &s);
    match (first, second) {
        (
            StepMatch::Matched { definition_index: d1, arguments: a1 },
            StepMatch::Matched { definition_index: d2, arguments: a2 },
        ) => {
            assert_eq!(d1, d2);
            assert_eq!(a1.len(), a2.len());
            assert!(matches!(&a1[0], StepArgument::Expression(s) if s == "one"));
            assert!(matches!(&a2[0], StepArgument::Expression(s) if s == "one"));
        },
        _ => panic!("expected matches both times"),
    }
}

#[test]
fn matched_arguments_ignores_the_keyword() {
    let d = def(StepKeyword::Given, r"(\d+)", 1);
    let args = d.matched_arguments(&step(StepKeyword::When, "5")).expect("pattern matches");
    assert_eq!(args.len(), 1);
    assert!(matches!(&args[0], StepArgument::Expression(s) if s == "5"));
    assert!(d.matched_arguments(&step(StepKeyword::When, "x")).is_none());
}
