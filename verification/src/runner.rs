//! The scenario runner: executes one cuke against the glue.
//!
//! A scenario runs as: before-scenario hooks, then for each step in source
//! order [before-step hooks, the step, after-step hooks], then
//! after-scenario hooks.  Every hook and step execution is recorded as one
//! `TestResult`; the scenario's terminal result is the most severe of
//! them.  The runner publishes `TestCaseStarted`, one
//! `TestStepStarted`/`TestStepFinished` pair per step in source order, and
//! `TestCaseFinished`, and nothing else.
//!
//! Handler bodies are supplied by the embedding program through the
//! `GlueCode` trait; the engine assumes nothing about them and handles
//! every outcome.  The ghost `ScenarioLog` returned with the terminal
//! result records what happened; the published event segment is a function
//! of the cuke, the glue and that log.

use vstd::prelude::*;

use crate::cuke::{clone_arguments, Cuke, CukeModel, StepArgument, StepArgumentModel};
use crate::event::{Event, EventModel, StepInfoModel, TestStepInfo};
use crate::glue::{Glue, HookDefinition, HookModel, HookType, StepDefModel};
use crate::listener::{EventBus, EventListener};
use crate::location::CodeLocation;
use crate::resolver::{resolve, spec_resolve, StepMatch, StepMatchModel};
use crate::result::{max_severity, spec_terminal, terminal_result, ErrorKind, ResultModel, TestError, TestResult};
use crate::scenario::Scenario;
use crate::tag::spec_eval;

verus! {

/// How a handler invocation ended, as the embedding program reports it.
#[derive(Debug)]
pub enum HandlerStatus {
    /// The handler returned normally.
    Success,
    /// The handler reported that it is not implemented yet.
    Pending(String),
    /// An argument could not be converted to the handler's parameter type.
    ConversionError(String),
    /// The handler returned an error.
    HandlerError(String),
    /// The handler panicked; the panic was captured.
    Panicked(String),
}

/// Mathematical model of a `HandlerStatus`.
pub enum HandlerStatusModel {
    Success,
    Pending(Seq<char>),
    ConversionError(Seq<char>),
    HandlerError(Seq<char>),
    Panicked(Seq<char>),
}

impl DeepView for HandlerStatus {
    type V = HandlerStatusModel;

    open spec fn deep_view(&self) -> HandlerStatusModel {
        match self {
            HandlerStatus::Success => HandlerStatusModel::Success,
            HandlerStatus::Pending(r) => HandlerStatusModel::Pending(r@),
            HandlerStatus::ConversionError(m) => HandlerStatusModel::ConversionError(m@),
            HandlerStatus::HandlerError(m) => HandlerStatusModel::HandlerError(m@),
            HandlerStatus::Panicked(m) => HandlerStatusModel::Panicked(m@),
        }
    }
}

/// One handler invocation's outcome: how it ended and how long it took.
#[derive(Debug)]
pub struct HandlerOutcome {
    pub duration: u64,
    pub status: HandlerStatus,
}

/// The result recorded for a handler that ran and ended with `outcome`.
pub open spec fn spec_result_of_outcome(duration: u64, status: HandlerStatusModel) -> ResultModel {
    match status {
        HandlerStatusModel::Success => ResultModel::Passed { duration },
        HandlerStatusModel::Pending(reason) => ResultModel::Pending { reason },
        HandlerStatusModel::ConversionError(message) => ResultModel::Failed {
            duration,
            kind: ErrorKind::ConversionError,
            message,
        },
        HandlerStatusModel::HandlerError(message) => ResultModel::Failed {
            duration,
            kind: ErrorKind::HandlerError,
            message,
        },
        HandlerStatusModel::Panicked(message) => ResultModel::Failed {
            duration,
            kind: ErrorKind::HandlerPanic,
            message,
        },
    }
}

/// Classifies a handler outcome as a `TestResult`.
pub fn result_of_outcome(outcome: HandlerOutcome) -> (r: TestResult)
    ensures
        r.deep_view() == spec_result_of_outcome(outcome.duration, outcome.status.deep_view()),
        r.deep_view() is Passed || r.deep_view() is Pending || r.deep_view() is Failed,
{
    match outcome.status {
        HandlerStatus::Success => TestResult::Passed { duration: outcome.duration },
        HandlerStatus::Pending(reason) => TestResult::Pending { reason },
        HandlerStatus::ConversionError(message) => TestResult::Failed {
            duration: outcome.duration,
            error: TestError { kind: ErrorKind::ConversionError, message },
        },
        HandlerStatus::HandlerError(message) => TestResult::Failed {
            duration: outcome.duration,
            error: TestError { kind: ErrorKind::HandlerError, message },
        },
        HandlerStatus::Panicked(message) => TestResult::Failed {
            duration: outcome.duration,
            error: TestError { kind: ErrorKind::HandlerPanic, message },
        },
    }
}

/// The handler bodies and the clock, supplied by the embedding program.
///
/// Step handlers are addressed by their index in the glue's step list,
/// hooks by their kind and index in that kind's list.  The engine assumes
/// nothing about these methods: a run is correct for every outcome they
/// report.  The embedding program is expected to catch panics of handler
/// bodies and report them as `HandlerStatus::Panicked`.
pub trait GlueCode<S> {
    /// The wall clock, for event timestamps.
    fn now(&mut self) -> u64;

    /// A fresh per-scenario user state.
    fn new_state(&mut self) -> S;

    /// Invokes the step handler at `step_index` in the glue's step list.
    fn run_step(
        &mut self,
        step_index: usize,
        arguments: &Vec<StepArgument>,
        state: &mut S,
    ) -> HandlerOutcome;

    /// Invokes the hook at `hook_index` in the glue's list for `hook_type`.
    fn run_hook(&mut self, hook_type: HookType, hook_index: usize, state: &mut S) -> HandlerOutcome;
}

/// The result a dry run records for everything it would have invoked.
pub open spec fn skipped_dry() -> ResultModel {
    ResultModel::Skipped { reason: "dry run"@ }
}

/// The result of a step skipped because a before-scenario hook went wrong.
pub open spec fn skipped_scenario_hook() -> ResultModel {
    ResultModel::Skipped { reason: "scenario hook failed"@ }
}

/// The result of a step skipped because of an earlier failure.
pub open spec fn skipped_earlier() -> ResultModel {
    ResultModel::Skipped { reason: "skipped"@ }
}

/// A recorded result at or above `Pending` stops later steps from running.
pub open spec fn spec_bad(results: Seq<ResultModel>) -> bool {
    max_severity(results) >= 2
}

/// The indices of the hooks in `hooks` whose tag expression is true of
/// `tags`, in list order.
pub open spec fn spec_applicable(hooks: Seq<HookModel>, tags: Seq<Seq<char>>) -> Seq<int>
    decreases hooks.len(),
{
    if hooks.len() == 0 {
        Seq::empty()
    } else {
        spec_applicable(hooks.drop_last(), tags) + if spec_eval(
            hooks.last().tag_expr,
            tags,
        ) {
            seq![hooks.len() - 1]
        } else {
            Seq::empty()
        }
    }
}

/// Selects the hooks that apply to a scenario with the given tags, in the
/// pre-sorted hook order.
pub fn applicable_hooks(hooks: &Vec<HookDefinition>, tags: &Vec<String>) -> (r: Vec<usize>)
    ensures
        Seq::new(r@.len(), |k: int| r@[k] as int) =~= spec_applicable(
            hooks.deep_view(),
            tags.deep_view(),
        ),
        forall|k: int| 0 <= k < r@.len() ==> #[trigger] r@[k] < hooks@.len(),
{
    let ghost hm = hooks.deep_view();
    let ghost tm = tags.deep_view();
    let mut out: Vec<usize> = Vec::new();
    let mut i: usize = 0;
    proof {
        assert(spec_applicable(hm.take(0), tm) =~= Seq::<int>::empty());
    }
    while i < hooks.len()
        invariant
            0 <= i <= hooks@.len(),
            hm == hooks.deep_view(),
            tm == tags.deep_view(),
            hm.len() == hooks@.len(),
            Seq::new(out@.len(), |k: int| out@[k] as int) =~= spec_applicable(
                hm.take(i as int),
                tm,
            ),
            forall|k: int| 0 <= k < out@.len() ==> #[trigger] out@[k] < i,
        decreases hooks@.len() - i,
    {
        proof {
            assert(hooks.deep_view()[i as int] == hooks@[i as int].deep_view());
        }
        if crate::tag::evaluate(&hooks[i].tag_expr, tags) {
            out.push(i);
        }
        proof {
            assert(hm.take(i as int + 1).drop_last() =~= hm.take(i as int));
            assert(hm.take(i as int + 1).last() == hm[i as int]);
            assert(Seq::new(out@.len(), |k: int| out@[k] as int) =~= spec_applicable(
                hm.take(i as int + 1),
                tm,
            ));
        }
        i = i + 1;
    }
    proof {
        assert(hm.take(hm.len() as int) =~= hm);
    }
    out
}

/// The most severe result recorded so far.
pub fn worst_severity(results: &Vec<TestResult>) -> (s: u8)
    ensures
        s as int == max_severity(results.deep_view()),
{
    let mut s: u8 = 0;
    let mut i: usize = 0;
    proof {
        assert(results.deep_view().take(0) =~= Seq::<ResultModel>::empty());
    }
    while i < results.len()
        invariant
            0 <= i <= results@.len(),
            results.deep_view().len() == results@.len(),
            s as int == max_severity(results.deep_view().take(i as int)),
        decreases results@.len() - i,
    {
        let v = results[i].severity_value();
        if v > s {
            s = v;
        }
        proof {
            assert(results.deep_view().take(i + 1).drop_last() =~= results.deep_view().take(
                i as int,
            ));
            assert(results.deep_view().take(i + 1).last() == results[i as int].deep_view());
        }
        i = i + 1;
    }
    proof {
        assert(results.deep_view().take(results@.len() as int) =~= results.deep_view());
    }
    s
}

/// What one step contributed to the scenario's record: the results of its
/// before-step hooks, the step's own result, and the results of its
/// after-step hooks.
pub struct StepLog {
    pub before_results: Seq<ResultModel>,
    pub result: ResultModel,
    pub after_results: Seq<ResultModel>,
}

/// Everything one scenario run recorded, in order.
pub struct ScenarioLog {
    /// Time of `TestCaseStarted`.
    pub start_time: u64,
    /// Times of each step's `TestStepStarted` and `TestStepFinished`.
    pub step_times: Seq<(u64, u64)>,
    /// Time of `TestCaseFinished`.
    pub end_time: u64,
    /// Results of the applicable before-scenario hooks, in hook order.
    pub before_scenario_results: Seq<ResultModel>,
    /// One entry per step of the cuke, in source order.
    pub step_logs: Seq<StepLog>,
    /// Results of the applicable after-scenario hooks, in hook order.
    pub after_scenario_results: Seq<ResultModel>,
    /// The scenario's terminal result.
    pub terminal: ResultModel,
}

/// The results recorded while running steps `0 .. upto`, in order.
pub open spec fn blocks_results(step_logs: Seq<StepLog>, upto: int) -> Seq<ResultModel>
    decreases upto,
{
    if upto <= 0 {
        Seq::empty()
    } else {
        blocks_results(step_logs, upto - 1) + step_logs[upto - 1].before_results + seq![
            step_logs[upto - 1].result,
        ] + step_logs[upto - 1].after_results
    }
}

/// Every result one scenario run recorded, in recording order.
pub open spec fn log_all_results(log: ScenarioLog) -> Seq<ResultModel> {
    log.before_scenario_results + blocks_results(log.step_logs, log.step_logs.len() as int)
        + log.after_scenario_results
}

/// The step results of the given step logs, in source order.
pub open spec fn step_logs_results(step_logs: Seq<StepLog>) -> Seq<ResultModel> {
    Seq::new(step_logs.len(), |i: int| step_logs[i].result)
}

/// The step results of a run, in source order.
pub open spec fn log_step_results(log: ScenarioLog) -> Seq<ResultModel> {
    step_logs_results(log.step_logs)
}

/// What holds of the results one hook phase records: on a dry run every
/// hook is skipped without being invoked; otherwise every result is the
/// classification of the handler's outcome.
pub open spec fn hook_results_ok(rs: Seq<ResultModel>, dry_run: bool) -> bool {
    forall|k: int|
        0 <= k < rs.len() ==> ((dry_run ==> #[trigger] rs[k] == skipped_dry()) && (rs[k] is Passed
            || rs[k] is Pending || rs[k] is Failed || rs[k] == skipped_dry()))
}

/// Everything recorded before step `i`'s own invocation: the
/// before-scenario hook results, the full blocks of earlier steps, and
/// step `i`'s before-step hook results.
pub open spec fn results_before_step(log: ScenarioLog, i: int) -> Seq<ResultModel> {
    log.before_scenario_results + blocks_results(log.step_logs, i) + log.step_logs[i].before_results
}

/// What the step events say about step `i`: its keyword and text, and,
/// when it resolved to one definition, the captured arguments and the
/// definition's location.
pub open spec fn spec_step_info(gs: Seq<StepDefModel>, cuke: CukeModel, i: int) -> StepInfoModel {
    match spec_resolve(gs, cuke.steps[i]) {
        StepMatchModel::Matched { definition_index, arguments } => StepInfoModel {
            step_index: i,
            keyword: cuke.steps[i].keyword,
            text: cuke.steps[i].text,
            arguments,
            location: Some(gs[definition_index].location),
        },
        _ => StepInfoModel {
            step_index: i,
            keyword: cuke.steps[i].keyword,
            text: cuke.steps[i].text,
            arguments: Seq::empty(),
            location: None,
        },
    }
}

/// The step events of steps `0 .. upto`: one started/finished pair per
/// step, in source order, nothing between the pair.
pub open spec fn steps_events(
    gs: Seq<StepDefModel>,
    cuke: CukeModel,
    times: Seq<(u64, u64)>,
    results: Seq<ResultModel>,
    upto: int,
) -> Seq<EventModel>
    decreases upto,
{
    if upto <= 0 {
        Seq::empty()
    } else {
        steps_events(gs, cuke, times, results, upto - 1) + seq![
            EventModel::TestStepStarted {
                time: times[upto - 1].0,
                info: spec_step_info(gs, cuke, upto - 1),
            },
            EventModel::TestStepFinished {
                time: times[upto - 1].1,
                info: spec_step_info(gs, cuke, upto - 1),
                result: results[upto - 1],
            },
        ]
    }
}

/// The event segment one scenario publishes: `TestCaseStarted`, the step
/// event pairs in source order, `TestCaseFinished` with the terminal
/// result.
pub open spec fn case_events(gs: Seq<StepDefModel>, cuke: CukeModel, log: ScenarioLog) -> Seq<
    EventModel,
> {
    seq![EventModel::TestCaseStarted { time: log.start_time, uri: cuke.uri, name: cuke.name }]
        + steps_events(
        gs,
        cuke,
        log.step_times,
        log_step_results(log),
        log.step_logs.len() as int,
    ) + seq![
        EventModel::TestCaseFinished {
            time: log.end_time,
            uri: cuke.uri,
            name: cuke.name,
            result: log.terminal,
        },
    ]
}

/// `steps_events` reads only the first `upto` entries of its time and
/// result sequences.
pub proof fn lemma_steps_events_prefix(
    gs: Seq<StepDefModel>,
    cuke: CukeModel,
    times1: Seq<(u64, u64)>,
    results1: Seq<ResultModel>,
    times2: Seq<(u64, u64)>,
    results2: Seq<ResultModel>,
    upto: int,
)
    requires
        forall|j: int| 0 <= j < upto ==> times1[j] == times2[j] && results1[j] == results2[j],
    ensures
        steps_events(gs, cuke, times1, results1, upto) == steps_events(
            gs,
            cuke,
            times2,
            results2,
            upto,
        ),
    decreases upto,
{
    if upto > 0 {
        lemma_steps_events_prefix(gs, cuke, times1, results1, times2, results2, upto - 1);
    }
}

/// `blocks_results` reads only the first `upto` step logs.
pub proof fn lemma_blocks_results_prefix(
    logs1: Seq<StepLog>,
    logs2: Seq<StepLog>,
    upto: int,
)
    requires
        forall|j: int| 0 <= j < upto ==> logs1[j] == logs2[j],
    ensures
        blocks_results(logs1, upto) == blocks_results(logs2, upto),
    decreases upto,
{
    if upto > 0 {
        lemma_blocks_results_prefix(logs1, logs2, upto - 1);
    }
}

/// Each step's recorded result stands in the full record.
pub proof fn lemma_step_result_in_blocks(step_logs: Seq<StepLog>, i: int, upto: int)
    requires
        0 <= i < upto,
    ensures
        exists|p: int|
            0 <= p < blocks_results(step_logs, upto).len() && blocks_results(step_logs, upto)[p]
                == step_logs[i].result,
    decreases upto,
{
    if i == upto - 1 {
        let b = blocks_results(step_logs, upto);
        let p = blocks_results(step_logs, upto - 1).len() + step_logs[upto - 1].before_results.len();
        assert(b[p as int] == step_logs[i].result);
    } else {
        lemma_step_result_in_blocks(step_logs, i, upto - 1);
        let p = choose|p: int|
            0 <= p < blocks_results(step_logs, upto - 1).len() && #[trigger] blocks_results(
                step_logs,
                upto - 1,
            )[p] == step_logs[i].result;
        assert(blocks_results(step_logs, upto)[p] == step_logs[i].result);
    }
}

/// Runs the hooks of one kind that apply to the scenario: invokes each (or
/// records a skip on a dry run) and appends one result per applicable
/// hook, in hook order, to the scenario's record.
fn run_hook_phase<S, G: GlueCode<S>>(
    hook_type: HookType,
    hooks: &Vec<HookDefinition>,
    tags: &Vec<String>,
    dry_run: bool,
    glue_code: &mut G,
    scenario: &mut Scenario<S>,
) -> (r: Ghost<Seq<ResultModel>>)
    ensures
        final(scenario).results.deep_view() == old(scenario).results.deep_view() + r@,
        r@.len() == spec_applicable(hooks.deep_view(), tags.deep_view()).len(),
        hook_results_ok(r@, dry_run),
{
    let indices = applicable_hooks(hooks, tags);
    let ghost base = scenario.results.deep_view();
    let ghost mut recorded: Seq<ResultModel> = Seq::empty();
    let mut k: usize = 0;
    proof {
        assert(base + recorded =~= base);
    }
    while k < indices.len()
        invariant
            0 <= k <= indices@.len(),
            recorded.len() == k,
            scenario.results.deep_view() =~= base + recorded,
            forall|j: int|
                0 <= j < k ==> ((dry_run ==> #[trigger] recorded[j] == skipped_dry()) && (
                recorded[j] is Passed || recorded[j] is Pending || recorded[j] is Failed
                    || recorded[j] == skipped_dry())),
        decreases indices@.len() - k,
    {
        let ghost prev = scenario.results.deep_view();
        let result = if dry_run {
            TestResult::Skipped { reason: dry_run_reason() }
        } else {
            let outcome = glue_code.run_hook(hook_type, indices[k], &mut scenario.state);
            result_of_outcome(outcome)
        };
        proof {
            recorded = recorded.push(result.deep_view());
        }
        scenario.results.push(result);
        proof {
            assert forall|j: int| 0 <= j < scenario.results@.len() implies scenario
                .results
                .deep_view()[j] == (base + recorded)[j] by {
                if j < prev.len() {
                    assert(scenario.results.deep_view()[j] == prev[j]);
                } else {
                    assert(scenario.results.deep_view()[j] == scenario.results@[j].deep_view());
                }
            }
            assert(scenario.results.deep_view() =~= base + recorded);
        }
        k = k + 1;
    }
    Ghost(recorded)
}

/// The reason recorded for everything a dry run skips.
fn dry_run_reason() -> (r: String)
    ensures
        r@ == "dry run"@,
{
    String::from_str("dry run")
}

/// The reason recorded for steps skipped after a before-scenario hook went
/// wrong.
fn scenario_hook_reason() -> (r: String)
    ensures
        r@ == "scenario hook failed"@,
{
    String::from_str("scenario hook failed")
}

/// The reason recorded for steps skipped after an earlier failure.
fn skipped_reason() -> (r: String)
    ensures
        r@ == "skipped"@,
{
    String::from_str("skipped")
}

/// What holds of one step's recorded result, given how it resolved, the
/// dry-run flag, and everything recorded before its invocation.
pub open spec fn step_result_ok(
    gs: Seq<StepDefModel>,
    cuke: CukeModel,
    bs_results: Seq<ResultModel>,
    step_logs: Seq<StepLog>,
    dry_run: bool,
    i: int,
) -> bool {
    let res = step_logs[i].result;
    match spec_resolve(gs, cuke.steps[i]) {
        StepMatchModel::NoneMatching => res == ResultModel::Undefined,
        StepMatchModel::Ambiguous { locations } => res == (ResultModel::Ambiguous { locations }),
        StepMatchModel::Matched { .. } => {
            if dry_run {
                res == skipped_dry()
            } else if spec_bad(
                bs_results + blocks_results(step_logs, i) + step_logs[i].before_results,
            ) {
                res == if spec_bad(bs_results) {
                    skipped_scenario_hook()
                } else {
                    skipped_earlier()
                }
            } else {
                res is Passed || res is Pending || res is Failed
            }
        },
    }
}

/// Everything a scenario run promises of its record: one entry per step;
/// one hook result per applicable hook of each kind, each the handler's
/// classification (or a skip, on a dry run); each step result as
/// `step_result_ok` says; and the terminal result the most severe of the
/// record, earliest first.
pub open spec fn scenario_log_ok(glue: Glue, cuke: CukeModel, dry_run: bool, log: ScenarioLog) -> bool {
    let gs = glue.steps.deep_view();
    &&& log.step_logs.len() == cuke.steps.len()
    &&& log.step_times.len() == cuke.steps.len()
    &&& log.before_scenario_results.len() == spec_applicable(
        glue.before_scenario_hooks.deep_view(),
        cuke.tags,
    ).len()
    &&& log.after_scenario_results.len() == spec_applicable(
        glue.after_scenario_hooks.deep_view(),
        cuke.tags,
    ).len()
    &&& hook_results_ok(log.before_scenario_results, dry_run)
    &&& hook_results_ok(log.after_scenario_results, dry_run)
    &&& forall|i: int|
        0 <= i < log.step_logs.len() ==> (#[trigger] log.step_logs[i].before_results).len()
            == spec_applicable(glue.before_step_hooks.deep_view(), cuke.tags).len()
    &&& forall|i: int|
        0 <= i < log.step_logs.len() ==> (#[trigger] log.step_logs[i].after_results).len()
            == spec_applicable(glue.after_step_hooks.deep_view(), cuke.tags).len()
    &&& forall|i: int|
        0 <= i < log.step_logs.len() ==> hook_results_ok(
            (#[trigger] log.step_logs[i]).before_results,
            dry_run,
        ) && hook_results_ok(log.step_logs[i].after_results, dry_run)
    &&& forall|i: int|
        0 <= i < log.step_logs.len() ==> #[trigger] step_result_ok(
            gs,
            cuke,
            log.before_scenario_results,
            log.step_logs,
            dry_run,
            i,
        )
    &&& log.terminal == spec_terminal(log_all_results(log))
}

/// Runs one scenario: before-scenario hooks, each step bracketed by its
/// hooks and its started/finished events, after-scenario hooks, and the
/// terminal result, which is the most severe result recorded.
///
/// Publishes exactly the segment `case_events` describes: `TestCaseStarted`,
/// one `TestStepStarted`/`TestStepFinished` pair per step in source order,
/// `TestCaseFinished` with the terminal result — a cuke with no steps and
/// no applicable hooks publishes just the started/finished pair with
/// terminal `Passed`.
pub fn run_scenario<S, G: GlueCode<S>, L: EventListener>(
    glue: &Glue,
    cuke: &Cuke,
    dry_run: bool,
    glue_code: &mut G,
    bus: &mut EventBus<L>,
) -> (r: (TestResult, Ghost<ScenarioLog>))
    requires
        old(bus).wf(),
    ensures
        final(bus).wf(),
        final(bus).history@ == old(bus).history@ + case_events(
            glue.steps.deep_view(),
            cuke.deep_view(),
            r.1@,
        ),
        r.0.deep_view() == r.1@.terminal,
        scenario_log_ok(*glue, cuke.deep_view(), dry_run, r.1@),
        forall|i: int|
            0 <= i < r.1@.step_logs.len() ==> (#[trigger] r.1@.step_logs[i]).result.severity()
                <= r.1@.terminal.severity(),
{
    let ghost gs = glue.steps.deep_view();
    let ghost cm = cuke.deep_view();
    let ghost history0 = bus.history@;
    let t0 = glue_code.now();
    bus.send(
        Event::TestCaseStarted { time: t0, uri: cuke.uri.clone(), name: cuke.name.clone() },
    );
    let ghost started = EventModel::TestCaseStarted { time: t0, uri: cm.uri, name: cm.name };
    let ghost history1 = history0 + seq![started];
    proof {
        assert(history0.push(started) =~= history1);
    }
    let mut scenario = Scenario::new(glue_code.new_state());
    let bs_results = run_hook_phase(
        HookType::BeforeScenario,
        glue.hooks(HookType::BeforeScenario),
        &cuke.tags,
        dry_run,
        glue_code,
        &mut scenario,
    );
    proof {
        assert(Seq::<ResultModel>::empty() + bs_results@ =~= bs_results@);
        assert(scenario.results.deep_view() == bs_results@);
    }
    let bs_bad = worst_severity(&scenario.results) >= 2;
    let ghost mut times: Seq<(u64, u64)> = Seq::empty();
    let ghost mut step_logs: Seq<StepLog> = Seq::empty();
    proof {
        assert(bs_results@ + blocks_results(step_logs, 0) =~= bs_results@);
    }
    let mut i: usize = 0;
    while i < cuke.steps.len()
        invariant
            0 <= i <= cuke.steps@.len(),
            gs == glue.steps.deep_view(),
            cm == cuke.deep_view(),
            cm.steps.len() == cuke.steps@.len(),
            bus.wf(),
            times.len() == i,
            step_logs.len() == i,
            bus.history@ == history1 + steps_events(gs, cm, times, step_logs_results(step_logs), i as int),
            scenario.results.deep_view() == bs_results@ + blocks_results(step_logs, i as int),
            bs_bad == spec_bad(bs_results@),
            forall|j: int|
                0 <= j < i ==> (#[trigger] step_logs[j].before_results).len() == spec_applicable(
                    glue.before_step_hooks.deep_view(),
                    cm.tags,
                ).len(),
            forall|j: int|
                0 <= j < i ==> (#[trigger] step_logs[j].after_results).len() == spec_applicable(
                    glue.after_step_hooks.deep_view(),
                    cm.tags,
                ).len(),
            forall|j: int|
                0 <= j < i ==> hook_results_ok((#[trigger] step_logs[j]).before_results, dry_run)
                    && hook_results_ok(step_logs[j].after_results, dry_run),
            forall|j: int|
                0 <= j < i ==> #[trigger] step_result_ok(gs, cm, bs_results@, step_logs, dry_run, j),
        decreases cuke.steps@.len() - i,
    {
        let ghost times_before = times;
        let ghost step_logs_before = step_logs;
        proof {
            assert(cuke.steps.deep_view()[i as int] == cuke.steps@[i as int].deep_view());
        }
        let resolution = resolve(&glue.steps, &cuke.steps[i]);
        let mut immediate: Option<TestResult> = None;
        let mut matched: Option<(usize, Vec<StepArgument>)> = None;
        let info: TestStepInfo;
        match resolution {
            StepMatch::NoneMatching => {
                info = TestStepInfo {
                    step_index: i,
                    keyword: cuke.steps[i].keyword,
                    text: cuke.steps[i].text.clone(),
                    arguments: Vec::new(),
                    location: None,
                };
                immediate = Some(TestResult::Undefined);
                proof {
                    assert(info.arguments.deep_view() =~= Seq::<StepArgumentModel>::empty());
                }
            },
            StepMatch::Ambiguous { locations } => {
                info = TestStepInfo {
                    step_index: i,
                    keyword: cuke.steps[i].keyword,
                    text: cuke.steps[i].text.clone(),
                    arguments: Vec::new(),
                    location: None,
                };
                immediate = Some(TestResult::Ambiguous { locations });
                proof {
                    assert(info.arguments.deep_view() =~= Seq::<StepArgumentModel>::empty());
                }
            },
            StepMatch::Matched { definition_index, arguments } => {
                proof {
                    crate::resolver::lemma_matching_index_matches(gs, cm.steps[i as int], 0);
                    assert(glue.steps.deep_view()[definition_index as int] == glue.steps@[
                        definition_index as int].deep_view());
                }
                info = TestStepInfo {
                    step_index: i,
                    keyword: cuke.steps[i].keyword,
                    text: cuke.steps[i].text.clone(),
                    arguments: clone_arguments(&arguments),
                    location: Some(glue.steps[definition_index].location.clone_loc()),
                };
                matched = Some((definition_index, arguments));
            },
        }
        proof {
            assert(info.deep_view() == spec_step_info(gs, cm, i as int));
        }
        let ts = glue_code.now();
        bus.send(Event::TestStepStarted { time: ts, info: info.clone_info() });
        let before_r = run_hook_phase(
            HookType::BeforeStep,
            glue.hooks(HookType::BeforeStep),
            &cuke.tags,
            dry_run,
            glue_code,
            &mut scenario,
        );
        let result: TestResult = if immediate.is_some() {
            match immediate {
                Some(r) => r,
                None => TestResult::Undefined,
            }
        } else if dry_run {
            TestResult::Skipped { reason: dry_run_reason() }
        } else if worst_severity(&scenario.results) >= 2 {
            if bs_bad {
                TestResult::Skipped { reason: scenario_hook_reason() }
            } else {
                TestResult::Skipped { reason: skipped_reason() }
            }
        } else {
            match matched {
                Some((definition_index, arguments)) => {
                    let outcome = glue_code.run_step(
                        definition_index,
                        &arguments,
                        &mut scenario.state,
                    );
                    result_of_outcome(outcome)
                },
                None => {
                    // A step that was not classified on resolution was
                    // matched; this arm is provably dead.
                    proof {
                        assert(false);
                    }
                    TestResult::Undefined
                },
            }
        };
        let ghost result_model = result.deep_view();
        let ghost pre_record = scenario.results.deep_view();
        scenario.results.push(result.clone_result());
        proof {
            assert forall|j: int| 0 <= j < scenario.results@.len() implies scenario
                .results
                .deep_view()[j] == pre_record.push(result_model)[j] by {
                if j < pre_record.len() {
                    assert(scenario.results.deep_view()[j] == pre_record[j]);
                } else {
                    assert(scenario.results.deep_view()[j] == scenario.results@[j].deep_view());
                }
            }
            assert(scenario.results.deep_view() =~= pre_record.push(result_model));
        }
        let after_r = run_hook_phase(
            HookType::AfterStep,
            glue.hooks(HookType::AfterStep),
            &cuke.tags,
            dry_run,
            glue_code,
            &mut scenario,
        );
        let tf = glue_code.now();
        bus.send(Event::TestStepFinished { time: tf, info, result });
        proof {
            times = times.push((ts, tf));
            step_logs = step_logs.push(
                StepLog {
                    before_results: before_r@,
                    result: result_model,
                    after_results: after_r@,
                },
            );
            lemma_steps_events_prefix(
                gs,
                cm,
                times_before,
                step_logs_results(step_logs_before),
                times,
                step_logs_results(step_logs),
                i as int,
            );
            lemma_blocks_results_prefix(step_logs_before, step_logs, i as int);
            assert(step_logs_results(step_logs)[i as int] == result_model);
            assert(times[i as int] == (ts, tf));
            assert(bus.history@ =~= history1 + steps_events(
                gs,
                cm,
                times,
                step_logs_results(step_logs),
                i + 1,
            ));
            assert(scenario.results.deep_view() =~= bs_results@ + blocks_results(
                step_logs,
                i + 1,
            ));
            assert(step_logs[i as int].before_results == before_r@);
            assert(step_result_ok(gs, cm, bs_results@, step_logs, dry_run, i as int)) by {
                assert(bs_results@ + blocks_results(step_logs_before, i as int) + before_r@
                    =~= pre_record);
            }
            assert forall|j: int| 0 <= j < i + 1 implies #[trigger] step_result_ok(
                gs,
                cm,
                bs_results@,
                step_logs,
                dry_run,
                j,
            ) by {
                if j < i {
                    assert(step_result_ok(gs, cm, bs_results@, step_logs_before, dry_run, j));
                    lemma_blocks_results_prefix(step_logs_before, step_logs, j);
                    assert(step_logs[j] == step_logs_before[j]);
                }
            }
        }
        i = i + 1;
    }
    let as_results = run_hook_phase(
        HookType::AfterScenario,
        glue.hooks(HookType::AfterScenario),
        &cuke.tags,
        dry_run,
        glue_code,
        &mut scenario,
    );
    let terminal = terminal_result(&scenario.results);
    let te = glue_code.now();
    bus.send(
        Event::TestCaseFinished {
            time: te,
            uri: cuke.uri.clone(),
            name: cuke.name.clone(),
            result: terminal.clone_result(),
        },
    );
    let ghost log = ScenarioLog {
        start_time: t0,
        step_times: times,
        end_time: te,
        before_scenario_results: bs_results@,
        step_logs: step_logs,
        after_scenario_results: as_results@,
        terminal: terminal.deep_view(),
    };
    proof {
        assert(log_all_results(log) =~= scenario.results.deep_view());
        assert(bus.history@ =~= history0 + case_events(gs, cm, log));
        crate::result::lemma_terminal_is_max(log_all_results(log));
        assert forall|i2: int| 0 <= i2 < log.step_logs.len() implies (
        #[trigger] log.step_logs[i2]).result.severity() <= log.terminal.severity() by {
            lemma_step_result_in_blocks(log.step_logs, i2, log.step_logs.len() as int);
            let p = choose|p: int|
                0 <= p < blocks_results(log.step_logs, log.step_logs.len() as int).len()
                    && #[trigger] blocks_results(log.step_logs, log.step_logs.len() as int)[p]
                    == log.step_logs[i2].result;
            assert(log_all_results(log)[log.before_scenario_results.len() + p] == log.step_logs[
                i2].result);
        }
    }
    (terminal, Ghost(log))
}

} // verus!
