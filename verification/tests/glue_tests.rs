use cuke_runner::glue::{Glue, StaticGlueDefinitions, StaticHookDef, HookType, StepDefinition, StepKeyword};
use cuke_runner::location::CodeLocation;

fn hook(name: &str, order: isize, tag_expression: &str) -> StaticHookDef {
    StaticHookDef {
        name: name.to_string(),
        order,
        tag_expression: tag_expression.to_string(),
        location: CodeLocation { file_path: "hooks.rs".to_string(), line_number: 1 },
    }
}

fn empty_defs() -> StaticGlueDefinitions {
    StaticGlueDefinitions {
        before_scenario_hooks: vec![],
        before_step_hooks: vec![],
        after_step_hooks: vec![],
        after_scenario_hooks: vec![],
        steps: vec![],
    }
}

#[test]
fn hooks_sort_by_order_ascending() {
    let mut defs = empty_defs();
    defs.before_scenario_hooks = vec![hook("zero", 0, ""), hook("minus", -1, ""), hook("ten", 10, "")];
    let glue = Glue::new(defs).expect("all expressions parse");
    let hooks = glue.hooks(HookType::BeforeScenario);
    assert_eq!(hooks.len(), 3);
    assert_eq!(hooks[0].name, "minus");
    assert_eq!(hooks[0].order, -1);
    assert_eq!(hooks[1].name, "zero");
    assert_eq!(hooks[2].name, "ten");
}

#[test]
fn equal_order_keeps_registration_order() {
    let mut defs = empty_defs();
    defs.after_scenario_hooks = vec![
        hook("first", 5, ""),
        hook("second", 5, ""),
        hook("earlier", 1, ""),
        hook("third", 5, ""),
    ];
    let glue = Glue::new(defs).expect("all expressions parse");
    let hooks = glue.hooks(HookType::AfterScenario);
    assert_eq!(hooks[0].name, "earlier");
    assert_eq!(hooks[1].name, "first");
    assert_eq!(hooks[2].name, "second");
    assert_eq!(hooks[3].name, "third");
}

#[test]
fn step_definitions_keep_registration_order() {
    let mut defs = empty_defs();
    defs.steps = vec![
        StepDefinition {
            name: "a".to_string(),
            keyword: StepKeyword::Given,
            pattern: "a".to_string(),
            parameter_count: 0,
            location: CodeLocation { file_path: "steps.rs".to_string(), line_number: 1 },
        },
        StepDefinition {
            name: "b".to_string(),
            keyword: StepKeyword::When,
            pattern: "b".to_string(),
            parameter_count: 2,
            location: CodeLocation { file_path: "steps.rs".to_string(), line_number: 9 },
        },
    ];
    let glue = Glue::new(defs).expect("all expressions parse");
    assert_eq!(glue.steps().len(), 2);
    assert_eq!(glue.steps()[0].name, "a");
    assert_eq!(glue.steps()[1].name, "b");
    assert_eq!(glue.steps()[1].get_parameter_count(), 2);
    assert_eq!(glue.steps()[1].get_pattern(), "b");
    assert_eq!(glue.steps()[1].get_location().line_number, 9);
}

#[test]
fn invalid_tag_expression_is_rejected() {
    let mut defs = empty_defs();
    defs.before_step_hooks = vec![hook("good", 0, "@a"), hook("bad", 0, "@a and")];
    let err = Glue::new(defs).expect_err("the second expression is no sentence");
    assert_eq!(err.hook_name, "bad");
    assert_eq!(err.tag_expression, "@a and");
}

#[test]
fn hook_tag_expressions_are_parsed_per_hook() {
    let mut defs = empty_defs();
    defs.before_scenario_hooks = vec![hook("tagged", 0, "@db and not @slow")];
    let glue = Glue::new(defs).expect("expression parses");
    let hooks = glue.hooks(HookType::BeforeScenario);
    assert_eq!(hooks.len(), 1);
    assert_eq!(hooks[0].tag_expression, "@db and not @slow");
}
