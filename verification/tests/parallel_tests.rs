use std::sync::Mutex;

use rayon::iter::{IntoParallelRefIterator, ParallelIterator};

use cuke_runner::cuke::{Cuke, CukeStep, StepArgument};
use cuke_runner::event::Event;
use cuke_runner::glue::{Glue, HookType, StaticGlueDefinitions, StepDefinition, StepKeyword};
use cuke_runner::listener::{EventBus, EventListener};
use cuke_runner::location::CodeLocation;
use cuke_runner::result::TestResult;
use cuke_runner::runner::{run_scenario, GlueCode, HandlerOutcome, HandlerStatus};

struct AlwaysPass {
    clock: u64,
}

impl GlueCode<()> for AlwaysPass {
    fn now(&mut self) -> u64 {
        self.clock += 1;
        self.clock
    }

    fn new_state(&mut self) -> () {
        ()
    }

    fn run_step(
        &mut self,
        _step_index: usize,
        _arguments: &Vec<StepArgument>,
        _state: &mut (),
    ) -> HandlerOutcome {
        HandlerOutcome { duration: 1, status: HandlerStatus::Success }
    }

    fn run_hook(&mut self, _t: HookType, _i: usize, _state: &mut ()) -> HandlerOutcome {
        HandlerOutcome { duration: 1, status: HandlerStatus::Success }
    }
}

struct SharedRecorder<'a> {
    lines: &'a Mutex<Vec<String>>,
}

fn describe(event: &Event) -> Option<String> {
    match event {
        Event::TestCaseStarted { name, .. } => Some(format!("case_started:{}", name)),
        Event::TestStepStarted { info, .. } => Some(format!("step_started:{}", info.text)),
        Event::TestStepFinished { info, result, .. } => Some(format!(
            "step_finished:{}:{}",
            info.text,
            matches!(result, TestResult::Passed { .. })
        )),
        Event::TestCaseFinished { name, .. } => Some(format!("case_finished:{}", name)),
        _ => None,
    }
}

impl<'a> EventListener for SharedRecorder<'a> {
    fn on_event(&mut self, event: &Event) {
        if let Some(line) = describe(event) {
            self.lines.lock().expect("recorder lock").push(line);
        }
    }
}

fn glue() -> Glue {
    Glue::new(StaticGlueDefinitions {
        before_scenario_hooks: vec![],
        before_step_hooks: vec![],
        after_step_hooks: vec![],
        after_scenario_hooks: vec![],
        steps: vec![StepDefinition {
            name: "any".to_string(),
            keyword: StepKeyword::Star,
            pattern: "step .*".to_string(),
            parameter_count: 0,
            location: CodeLocation { file_path: "steps.rs".to_string(), line_number: 1 },
        }],
    })
    .expect("glue builds")
}

fn cukes() -> Vec<Cuke> {
    (0..4)
        .map(|c| Cuke {
            uri: "u.feature".to_string(),
            name: format!("scenario{}", c),
            tags: vec![],
            steps: (0..3)
                .map(|s| CukeStep {
                    keyword: StepKeyword::Given,
                    text: format!("step {}_{}", c, s),
                    argument: None,
                })
                .collect(),
        })
        .collect()
}

fn run_one(glue: &Glue, cuke: &Cuke, lines: &Mutex<Vec<String>>) {
    let mut glue_code = AlwaysPass { clock: 0 };
    let mut bus = EventBus::new(SharedRecorder { lines });
    let (_terminal, _log) = run_scenario(glue, cuke, false, &mut glue_code, &mut bus);
}

#[test]
fn parallel_scenarios_keep_per_scenario_order_and_the_same_events() {
    let glue = glue();
    let all = cukes();

    let sequential = Mutex::new(Vec::new());
    for cuke in &all {
        run_one(&glue, cuke, &sequential);
    }
    let sequential = sequential.into_inner().expect("recorder lock");

    let parallel = Mutex::new(Vec::new());
    all.par_iter().for_each(|cuke| run_one(&glue, cuke, &parallel));
    let parallel = parallel.into_inner().expect("recorder lock");

    // The same multiset of case-level events in both regimes.
    let mut sorted_sequential = sequential.clone();
    sorted_sequential.sort();
    let mut sorted_parallel = parallel.clone();
    sorted_parallel.sort();
    assert_eq!(sorted_sequential, sorted_parallel);

    // Within each scenario the parallel stream keeps the sequential order.
    for c in 0..4 {
        let marker = format!("{}_", c);
        let of_scenario = |lines: &[String]| -> Vec<String> {
            lines
                .iter()
                .filter(|l| l.contains(&marker) || l.ends_with(&format!("scenario{}", c)))
                .cloned()
                .collect()
        };
        assert_eq!(of_scenario(&sequential), of_scenario(&parallel));
    }
}
