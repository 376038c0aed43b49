use cuke_runner::cuke::{Cuke, CukeArgument, CukeStep, StepArgument};
use cuke_runner::engine::{group_cukes_by_uri, run, EngineConfig, SourceInfo};
use cuke_runner::event::Event;
use cuke_runner::glue::{
    Glue, HookType, StaticGlueDefinitions, StaticHookDef, StepDefinition, StepKeyword,
};
use cuke_runner::listener::EventListener;
use cuke_runner::location::CodeLocation;
use cuke_runner::result::TestResult;
use cuke_runner::runner::{GlueCode, HandlerOutcome, HandlerStatus};

#[derive(Clone, Copy)]
enum Behavior {
    Pass,
    Pend,
    Fail,
    Panic,
}

struct Script {
    clock: u64,
    steps: Vec<Behavior>,
    before_scenario: Vec<Behavior>,
    before_step: Vec<Behavior>,
    after_step: Vec<Behavior>,
    after_scenario: Vec<Behavior>,
    step_calls: Vec<(usize, Vec<String>)>,
    hook_calls: Vec<(HookType, usize)>,
}

impl Script {
    fn new(steps: Vec<Behavior>) -> Script {
        Script {
            clock: 0,
            steps,
            before_scenario: vec![],
            before_step: vec![],
            after_step: vec![],
            after_scenario: vec![],
            step_calls: vec![],
            hook_calls: vec![],
        }
    }
}

fn outcome(b: Behavior) -> HandlerOutcome {
    HandlerOutcome {
        duration: 1,
        status: match b {
            Behavior::Pass => HandlerStatus::Success,
            Behavior::Pend => HandlerStatus::Pending("todo".to_string()),
            Behavior::Fail => HandlerStatus::HandlerError("boom".to_string()),
            Behavior::Panic => HandlerStatus::Panicked("panicked".to_string()),
        },
    }
}

fn describe_argument(a: &StepArgument) -> String {
    match a {
        StepArgument::Expression(s) => format!("expr:{}", s),
        StepArgument::DocString { content, .. } => format!("doc:{}", content),
        StepArgument::DataTable(t) => format!("table:{}", t.rows.len()),
    }
}

impl GlueCode<()> for Script {
    fn now(&mut self) -> u64 {
        self.clock += 1;
        self.clock
    }

    fn new_state(&mut self) -> () {
        ()
    }

    fn run_step(
        &mut self,
        step_index: usize,
        arguments: &Vec<StepArgument>,
        _state: &mut (),
    ) -> HandlerOutcome {
        self.step_calls.push((step_index, arguments.iter().map(describe_argument).collect()));
        outcome(self.steps[step_index])
    }

    fn run_hook(&mut self, hook_type: HookType, hook_index: usize, _state: &mut ()) -> HandlerOutcome {
        self.hook_calls.push((hook_type, hook_index));
        let b = match hook_type {
            HookType::BeforeScenario => self.before_scenario[hook_index],
            HookType::BeforeStep => self.before_step[hook_index],
            HookType::AfterStep => self.after_step[hook_index],
            HookType::AfterScenario => self.after_scenario[hook_index],
        };
        outcome(b)
    }
}

struct Recorder {
    lines: Vec<String>,
}

impl Recorder {
    fn new() -> Recorder {
        Recorder { lines: vec![] }
    }
}

fn result_name(r: &TestResult) -> String {
    match r {
        TestResult::Passed { .. } => "passed".to_string(),
        TestResult::Skipped { reason } => format!("skipped[{}]", reason),
        TestResult::Pending { .. } => "pending".to_string(),
        TestResult::Undefined => "undefined".to_string(),
        TestResult::Ambiguous { .. } => "ambiguous".to_string(),
        TestResult::Failed { .. } => "failed".to_string(),
    }
}

impl EventListener for Recorder {
    fn on_event(&mut self, event: &Event) {
        let line = match event {
            Event::TestRunStarted { num_cukes, .. } => format!("run_started:{}", num_cukes),
            Event::TestSourceRead { uri, .. } => format!("source_read:{}", uri),
            Event::TestCaseStarted { name, .. } => format!("case_started:{}", name),
            Event::TestStepStarted { info, .. } => format!("step_started:{}", info.step_index),
            Event::TestStepFinished { info, result, .. } => {
                format!("step_finished:{}:{}", info.step_index, result_name(result))
            },
            Event::TestCaseFinished { name, result, .. } => {
                format!("case_finished:{}:{}", name, result_name(result))
            },
            Event::TestRunFinished { .. } => "run_finished".to_string(),
        };
        self.lines.push(line);
    }
}

fn def(keyword: StepKeyword, pattern: &str, line: usize) -> StepDefinition {
    StepDefinition {
        name: format!("handler_at_{}", line),
        keyword,
        pattern: pattern.to_string(),
        parameter_count: 0,
        location: CodeLocation { file_path: "steps.rs".to_string(), line_number: line },
    }
}

fn hook(name: &str, order: isize, tag_expression: &str) -> StaticHookDef {
    StaticHookDef {
        name: name.to_string(),
        order,
        tag_expression: tag_expression.to_string(),
        location: CodeLocation { file_path: "hooks.rs".to_string(), line_number: 1 },
    }
}

fn glue_of_steps(steps: Vec<StepDefinition>) -> Glue {
    Glue::new(StaticGlueDefinitions {
        before_scenario_hooks: vec![],
        before_step_hooks: vec![],
        after_step_hooks: vec![],
        after_scenario_hooks: vec![],
        steps,
    })
    .expect("glue builds")
}

fn cuke(uri: &str, name: &str, tags: &[&str], steps: Vec<CukeStep>) -> Cuke {
    Cuke {
        uri: uri.to_string(),
        name: name.to_string(),
        tags: tags.iter().map(|t| t.to_string()).collect(),
        steps,
    }
}

fn step(keyword: StepKeyword, text: &str) -> CukeStep {
    CukeStep { keyword, text: text.to_string(), argument: None }
}

fn basic_glue() -> Glue {
    glue_of_steps(vec![
        def(StepKeyword::Given, "a", 1),
        def(StepKeyword::When, "b", 2),
        def(StepKeyword::Then, "c", 3),
    ])
}

fn basic_cuke() -> Cuke {
    cuke(
        "features/x.feature",
        "S",
        &[],
        vec![
            step(StepKeyword::Given, "a"),
            step(StepKeyword::When, "b"),
            step(StepKeyword::Then, "c"),
        ],
    )
}

fn config(dry_run: bool, strict: bool) -> EngineConfig {
    EngineConfig { dry_run, strict }
}

#[test]
fn basic_pass_runs_every_step_and_exits_zero() {
    let glue = basic_glue();
    let cukes = vec![basic_cuke()];
    let mut script = Script::new(vec![Behavior::Pass, Behavior::Pass, Behavior::Pass]);
    let (exit, _, bus) = run(&glue, &vec![], &cukes, &config(false, false), &mut script, Recorder::new());
    assert_eq!(exit, 0);
    assert_eq!(
        bus.user_listener.lines,
        vec![
            "run_started:1",
            "case_started:S",
            "step_started:0",
            "step_finished:0:passed",
            "step_started:1",
            "step_finished:1:passed",
            "step_started:2",
            "step_finished:2:passed",
            "case_finished:S:passed",
            "run_finished",
        ]
    );
    assert_eq!(script.step_calls.len(), 3);
    assert_eq!(bus.summary_listener.step_count(0), 3);
    assert_eq!(bus.summary_listener.scenario_count(0), 1);
}

#[test]
fn undefined_step_skips_the_rest() {
    let glue = basic_glue();
    let cukes = vec![cuke(
        "features/x.feature",
        "S",
        &[],
        vec![
            step(StepKeyword::Given, "a"),
            step(StepKeyword::When, "q"),
            step(StepKeyword::Then, "c"),
        ],
    )];
    let mut script = Script::new(vec![Behavior::Pass, Behavior::Pass, Behavior::Pass]);
    let (exit, _, bus) =
        run(&glue, &vec![], &cukes, &config(false, false), &mut script, Recorder::new());
    assert_eq!(exit, 0);
    assert_eq!(
        bus.user_listener.lines,
        vec![
            "run_started:1",
            "case_started:S",
            "step_started:0",
            "step_finished:0:passed",
            "step_started:1",
            "step_finished:1:undefined",
            "step_started:2",
            "step_finished:2:skipped[skipped]",
            "case_finished:S:undefined",
            "run_finished",
        ]
    );
    assert_eq!(script.step_calls.len(), 1);

    let mut script2 = Script::new(vec![Behavior::Pass, Behavior::Pass, Behavior::Pass]);
    let (strict_exit, _, _) =
        run(&glue, &vec![], &cukes, &config(false, true), &mut script2, Recorder::new());
    assert_eq!(strict_exit, 1);
}

#[test]
fn ambiguous_step_fails_the_run() {
    let glue = glue_of_steps(vec![
        def(StepKeyword::Given, "foo.*", 11),
        def(StepKeyword::Given, r"foo\d+", 22),
    ]);
    let cukes = vec![cuke("u", "S", &[], vec![step(StepKeyword::Given, "foo42")])];
    let mut script = Script::new(vec![Behavior::Pass, Behavior::Pass]);
    let (exit, _, bus) =
        run(&glue, &vec![], &cukes, &config(false, false), &mut script, Recorder::new());
    assert_eq!(exit, 1);
    assert!(bus.user_listener.lines.contains(&"step_finished:0:ambiguous".to_string()));
    assert!(bus.user_listener.lines.contains(&"case_finished:S:ambiguous".to_string()));
    assert!(script.step_calls.is_empty());
}

#[test]
fn failing_before_scenario_hook_skips_steps_but_after_hooks_run() {
    let mut defs = StaticGlueDefinitions {
        before_scenario_hooks: vec![hook("setup", 0, "@db")],
        before_step_hooks: vec![],
        after_step_hooks: vec![],
        after_scenario_hooks: vec![hook("teardown", 0, "")],
        steps: vec![def(StepKeyword::Given, "a", 1), def(StepKeyword::When, "b", 2)],
    };
    defs.steps.push(def(StepKeyword::Then, "c", 3));
    let glue = Glue::new(defs).expect("glue builds");
    let cukes = vec![cuke(
        "u",
        "S",
        &["@db"],
        vec![
            step(StepKeyword::Given, "a"),
            step(StepKeyword::When, "b"),
            step(StepKeyword::Then, "c"),
        ],
    )];
    let mut script = Script::new(vec![Behavior::Pass, Behavior::Pass, Behavior::Pass]);
    script.before_scenario = vec![Behavior::Panic];
    script.after_scenario = vec![Behavior::Pass];
    let (exit, _, bus) =
        run(&glue, &vec![], &cukes, &config(false, false), &mut script, Recorder::new());
    assert_eq!(exit, 1);
    assert!(script.step_calls.is_empty());
    assert!(script.hook_calls.contains(&(HookType::BeforeScenario, 0)));
    assert!(script.hook_calls.contains(&(HookType::AfterScenario, 0)));
    assert!(bus
        .user_listener
        .lines
        .contains(&"step_finished:0:skipped[scenario hook failed]".to_string()));
    assert!(bus
        .user_listener
        .lines
        .contains(&"step_finished:2:skipped[scenario hook failed]".to_string()));
    assert!(bus.user_listener.lines.contains(&"case_finished:S:failed".to_string()));
}

#[test]
fn failing_before_step_hook_skips_only_that_invocation() {
    let defs = StaticGlueDefinitions {
        before_scenario_hooks: vec![],
        before_step_hooks: vec![hook("guard", 0, "")],
        after_step_hooks: vec![hook("observe", 0, "")],
        after_scenario_hooks: vec![],
        steps: vec![def(StepKeyword::Given, "a", 1)],
    };
    let glue = Glue::new(defs).expect("glue builds");
    let cukes = vec![cuke("u", "S", &[], vec![step(StepKeyword::Given, "a")])];
    let mut script = Script::new(vec![Behavior::Pass]);
    script.before_step = vec![Behavior::Fail];
    script.after_step = vec![Behavior::Pass];
    let (exit, _, bus) =
        run(&glue, &vec![], &cukes, &config(false, false), &mut script, Recorder::new());
    assert_eq!(exit, 1);
    assert!(script.step_calls.is_empty());
    assert!(script.hook_calls.contains(&(HookType::AfterStep, 0)));
    assert!(bus.user_listener.lines.contains(&"step_finished:0:skipped[skipped]".to_string()));
}

#[test]
fn hooks_are_filtered_by_tag_expression() {
    let defs = StaticGlueDefinitions {
        before_scenario_hooks: vec![hook("db_only", 0, "@db"), hook("always", 0, "")],
        before_step_hooks: vec![],
        after_step_hooks: vec![],
        after_scenario_hooks: vec![],
        steps: vec![def(StepKeyword::Given, "a", 1)],
    };
    let glue = Glue::new(defs).expect("glue builds");
    let cukes = vec![cuke("u", "S", &["@web"], vec![step(StepKeyword::Given, "a")])];
    let mut script = Script::new(vec![Behavior::Pass]);
    script.before_scenario = vec![Behavior::Panic, Behavior::Pass];
    let (exit, _, _) =
        run(&glue, &vec![], &cukes, &config(false, false), &mut script, Recorder::new());
    // The panicking @db hook does not apply to a @web scenario.
    assert_eq!(exit, 0);
    assert_eq!(script.hook_calls, vec![(HookType::BeforeScenario, 1)]);
}

#[test]
fn pending_step_skips_the_rest_and_is_no_failure_unless_strict() {
    let glue = basic_glue();
    let cukes = vec![basic_cuke()];
    let mut script = Script::new(vec![Behavior::Pend, Behavior::Pass, Behavior::Pass]);
    let (exit, _, bus) =
        run(&glue, &vec![], &cukes, &config(false, false), &mut script, Recorder::new());
    assert_eq!(exit, 0);
    assert!(bus.user_listener.lines.contains(&"step_finished:0:pending".to_string()));
    assert!(bus.user_listener.lines.contains(&"step_finished:1:skipped[skipped]".to_string()));
    assert!(bus.user_listener.lines.contains(&"case_finished:S:pending".to_string()));
    assert_eq!(script.step_calls.len(), 1);

    let mut script2 = Script::new(vec![Behavior::Pend, Behavior::Pass, Behavior::Pass]);
    let (strict_exit, _, _) =
        run(&glue, &vec![], &cukes, &config(false, true), &mut script2, Recorder::new());
    assert_eq!(strict_exit, 1);
}

#[test]
fn failing_step_fails_the_run() {
    let glue = basic_glue();
    let cukes = vec![basic_cuke()];
    let mut script = Script::new(vec![Behavior::Pass, Behavior::Panic, Behavior::Pass]);
    let (exit, _, bus) =
        run(&glue, &vec![], &cukes, &config(false, false), &mut script, Recorder::new());
    assert_eq!(exit, 1);
    assert!(bus.user_listener.lines.contains(&"step_finished:1:failed".to_string()));
    assert!(bus.user_listener.lines.contains(&"step_finished:2:skipped[skipped]".to_string()));
    assert!(bus.user_listener.lines.contains(&"case_finished:S:failed".to_string()));
    assert_eq!(bus.summary_listener.step_count(5), 1);
    assert_eq!(bus.summary_listener.scenario_count(5), 1);
}

#[test]
fn dry_run_skips_everything_and_invokes_nothing() {
    let defs = StaticGlueDefinitions {
        before_scenario_hooks: vec![hook("setup", 0, "")],
        before_step_hooks: vec![],
        after_step_hooks: vec![],
        after_scenario_hooks: vec![hook("teardown", 0, "")],
        steps: vec![
            def(StepKeyword::Given, "a", 1),
            def(StepKeyword::When, "b", 2),
            def(StepKeyword::Then, "c", 3),
        ],
    };
    let glue = Glue::new(defs).expect("glue builds");
    let cukes = vec![basic_cuke()];
    let mut script = Script::new(vec![Behavior::Pass, Behavior::Pass, Behavior::Pass]);
    script.before_scenario = vec![Behavior::Pass];
    script.after_scenario = vec![Behavior::Pass];
    let (exit, _, bus) =
        run(&glue, &vec![], &cukes, &config(true, false), &mut script, Recorder::new());
    assert_eq!(exit, 0);
    assert!(script.step_calls.is_empty());
    assert!(script.hook_calls.is_empty());
    assert!(bus.user_listener.lines.contains(&"step_finished:0:skipped[dry run]".to_string()));
    assert!(bus.user_listener.lines.contains(&"step_finished:1:skipped[dry run]".to_string()));
    assert!(bus.user_listener.lines.contains(&"step_finished:2:skipped[dry run]".to_string()));
    assert!(bus.user_listener.lines.contains(&"case_finished:S:skipped[dry run]".to_string()));

    let mut script2 = Script::new(vec![Behavior::Pass, Behavior::Pass, Behavior::Pass]);
    script2.before_scenario = vec![Behavior::Pass];
    script2.after_scenario = vec![Behavior::Pass];
    let (strict_exit, _, _) =
        run(&glue, &vec![], &cukes, &config(true, true), &mut script2, Recorder::new());
    assert_eq!(strict_exit, 1);
}

#[test]
fn zero_step_cuke_publishes_only_its_case_pair() {
    let glue = glue_of_steps(vec![]);
    let cukes = vec![cuke("u", "Empty", &[], vec![])];
    let mut script = Script::new(vec![]);
    let (exit, _, bus) =
        run(&glue, &vec![], &cukes, &config(false, false), &mut script, Recorder::new());
    assert_eq!(exit, 0);
    assert_eq!(
        bus.user_listener.lines,
        vec!["run_started:1", "case_started:Empty", "case_finished:Empty:passed", "run_finished"]
    );
}

#[test]
fn handler_with_no_capture_groups_gets_no_positional_arguments() {
    let glue = glue_of_steps(vec![def(StepKeyword::Given, "a plain step", 1)]);
    let cukes = vec![cuke("u", "S", &[], vec![step(StepKeyword::Given, "a plain step")])];
    let mut script = Script::new(vec![Behavior::Pass]);
    let (exit, _, _) =
        run(&glue, &vec![], &cukes, &config(false, false), &mut script, Recorder::new());
    assert_eq!(exit, 0);
    assert_eq!(script.step_calls.len(), 1);
    assert_eq!(script.step_calls[0].0, 0);
    assert!(script.step_calls[0].1.is_empty());
}

#[test]
fn docstring_reaches_the_handler() {
    let glue = glue_of_steps(vec![def(StepKeyword::Given, "text:", 1)]);
    let cukes = vec![cuke(
        "u",
        "S",
        &[],
        vec![CukeStep {
            keyword: StepKeyword::Given,
            text: "text:".to_string(),
            argument: Some(CukeArgument::DocString {
                content: "hello".to_string(),
                content_type: None,
            }),
        }],
    )];
    let mut script = Script::new(vec![Behavior::Pass]);
    let (exit, _, bus) =
        run(&glue, &vec![], &cukes, &config(false, false), &mut script, Recorder::new());
    assert_eq!(exit, 0);
    assert_eq!(script.step_calls.len(), 1);
    assert_eq!(script.step_calls[0].1, vec!["doc:hello".to_string()]);
    assert!(bus.user_listener.lines.contains(&"step_finished:0:passed".to_string()));
}

#[test]
fn capture_groups_reach_the_handler_in_order() {
    let glue = glue_of_steps(vec![def(StepKeyword::Given, r"(\d+) of (\w+)", 1)]);
    let cukes = vec![cuke("u", "S", &[], vec![step(StepKeyword::Given, "3 of cukes")])];
    let mut script = Script::new(vec![Behavior::Pass]);
    let (exit, _, _) =
        run(&glue, &vec![], &cukes, &config(false, false), &mut script, Recorder::new());
    assert_eq!(exit, 0);
    assert_eq!(script.step_calls[0].1, vec!["expr:3".to_string(), "expr:cukes".to_string()]);
}

#[test]
fn sources_are_reported_after_run_start() {
    let glue = glue_of_steps(vec![]);
    let sources = vec![
        SourceInfo { uri: "a.feature".to_string(), source: "Feature: A".to_string() },
        SourceInfo { uri: "b.feature".to_string(), source: "Feature: B".to_string() },
    ];
    let mut script = Script::new(vec![]);
    let (_, _, bus) =
        run(&glue, &sources, &vec![], &config(false, false), &mut script, Recorder::new());
    assert_eq!(
        bus.user_listener.lines,
        vec!["run_started:0", "source_read:a.feature", "source_read:b.feature", "run_finished"]
    );
}

#[test]
fn two_features_run_in_source_order_within_each_feature() {
    let glue = glue_of_steps(vec![def(StepKeyword::Given, "a", 1)]);
    let mk = |uri: &str, name: &str| cuke(uri, name, &[], vec![step(StepKeyword::Given, "a")]);
    let cukes = vec![
        mk("one.feature", "A1"),
        mk("two.feature", "B1"),
        mk("one.feature", "A2"),
        mk("two.feature", "B2"),
    ];
    let groups = group_cukes_by_uri(cukes);
    assert_eq!(groups.len(), 2);
    assert_eq!(groups[0].len(), 2);
    assert_eq!(groups[0][0].name, "A1");
    assert_eq!(groups[0][1].name, "A2");
    assert_eq!(groups[1][0].name, "B1");
    assert_eq!(groups[1][1].name, "B2");

    // Run the groups one after the other: within each feature the case
    // events keep source order, and the run has one started/finished pair.
    let all: Vec<Cuke> = groups.into_iter().flatten().collect();
    let mut script = Script::new(vec![Behavior::Pass]);
    let (exit, _, bus) =
        run(&glue, &vec![], &all, &config(false, false), &mut script, Recorder::new());
    assert_eq!(exit, 0);
    let lines = &bus.user_listener.lines;
    assert_eq!(lines.iter().filter(|l| l.starts_with("run_started")).count(), 1);
    assert_eq!(lines.iter().filter(|l| l.starts_with("run_finished")).count(), 1);
    let a1 = lines.iter().position(|l| l == "case_started:A1").unwrap();
    let a2 = lines.iter().position(|l| l == "case_started:A2").unwrap();
    let b1 = lines.iter().position(|l| l == "case_started:B1").unwrap();
    let b2 = lines.iter().position(|l| l == "case_started:B2").unwrap();
    assert!(a1 < a2);
    assert!(b1 < b2);
}

#[test]
fn sequential_runs_publish_identical_streams() {
    let glue = basic_glue();
    let cukes = vec![basic_cuke()];
    let mut script1 = Script::new(vec![Behavior::Pass, Behavior::Fail, Behavior::Pass]);
    let (_, _, bus1) =
        run(&glue, &vec![], &cukes, &config(false, false), &mut script1, Recorder::new());
    let mut script2 = Script::new(vec![Behavior::Pass, Behavior::Fail, Behavior::Pass]);
    let (_, _, bus2) =
        run(&glue, &vec![], &cukes, &config(false, false), &mut script2, Recorder::new());
    assert_eq!(bus1.user_listener.lines, bus2.user_listener.lines);
}

#[test]
fn summary_counts_steps_and_scenarios_by_severity() {
    let glue = basic_glue();
    let cukes = vec![basic_cuke(), basic_cuke()];
    let mut script = Script::new(vec![Behavior::Pass, Behavior::Pass, Behavior::Fail]);
    let (exit, _, bus) =
        run(&glue, &vec![], &cukes, &config(false, false), &mut script, Recorder::new());
    assert_eq!(exit, 1);
    // Per scenario: two passed steps, one failed step.
    assert_eq!(bus.summary_listener.step_count(0), 4);
    assert_eq!(bus.summary_listener.step_count(5), 2);
    assert_eq!(bus.summary_listener.scenario_count(5), 2);
    assert_eq!(bus.summary_listener.scenario_count(0), 0);
}

#[test]
fn exit_status_tracks_worst_severity() {
    let glue = basic_glue();
    let passing = vec![basic_cuke()];
    let mut script = Script::new(vec![Behavior::Pass, Behavior::Pass, Behavior::Pass]);
    let (_, _, bus) =
        run(&glue, &vec![], &passing, &config(false, false), &mut script, Recorder::new());
    assert_eq!(bus.exit_listener.get_exit_status(false), 0);
    assert_eq!(bus.exit_listener.get_exit_status(true), 0);

    let mut script2 = Script::new(vec![Behavior::Pass, Behavior::Fail, Behavior::Pass]);
    let (_, _, bus2) =
        run(&glue, &vec![], &passing, &config(false, false), &mut script2, Recorder::new());
    assert_eq!(bus2.exit_listener.get_exit_status(false), 1);
    assert_eq!(bus2.exit_listener.get_exit_status(true), 1);
}

#[test]
fn a_failing_scenario_does_not_skip_the_next_scenario() {
    let glue = basic_glue();
    let cukes = vec![basic_cuke(), basic_cuke()];
    // The shared script fails step 0 only on its first invocation.
    struct FlakyFirst {
        clock: u64,
        calls: usize,
    }
    impl GlueCode<()> for FlakyFirst {
        fn now(&mut self) -> u64 {
            self.clock += 1;
            self.clock
        }
        fn new_state(&mut self) -> () {
            ()
        }
        fn run_step(
            &mut self,
            _step_index: usize,
            _arguments: &Vec<StepArgument>,
            _state: &mut (),
        ) -> HandlerOutcome {
            self.calls += 1;
            if self.calls == 1 {
                HandlerOutcome { duration: 1, status: HandlerStatus::HandlerError("boom".to_string()) }
            } else {
                HandlerOutcome { duration: 1, status: HandlerStatus::Success }
            }
        }
        fn run_hook(&mut self, _t: HookType, _i: usize, _state: &mut ()) -> HandlerOutcome {
            HandlerOutcome { duration: 1, status: HandlerStatus::Success }
        }
    }
    let mut script = FlakyFirst { clock: 0, calls: 0 };
    let (exit, _, bus) =
        run(&glue, &vec![], &cukes, &config(false, false), &mut script, Recorder::new());
    assert_eq!(exit, 1);
    let lines = &bus.user_listener.lines;
    // First scenario: step 0 failed, the rest skipped.
    assert_eq!(lines[3], "step_finished:0:failed");
    assert_eq!(lines[5], "step_finished:1:skipped[skipped]");
    assert_eq!(lines[8], "case_finished:S:failed");
    // Second scenario: all steps ran and passed.
    assert_eq!(lines[11], "step_finished:0:passed");
    assert_eq!(lines[13], "step_finished:1:passed");
    assert_eq!(lines[15], "step_finished:2:passed");
    assert_eq!(lines[16], "case_finished:S:passed");
}
