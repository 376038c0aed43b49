//! The engine's laws: what holds of every run, proved once and for all.
//!
//! These proof functions state the engine's global guarantees over the
//! spec functions that the executable functions' contracts use: the shape
//! of the event stream, the exit-code rule, determinism of sequential
//! runs, the dry-run and empty-scenario behaviours, and the hook order.

use vstd::prelude::*;
use vstd::multiset::Multiset;
use vstd::seq_lib::lemma_multiset_commutative;

use crate::cuke::{CukeModel, CukeStepModel};
use crate::engine::{cases_events, run_events, source_events, RunLog, SourceModel};
use crate::event::EventModel;
use crate::glue::{spec_insert_hook, spec_sort_hooks, HookModel, StepDefModel};
use crate::listener::{event_severity, spec_exit_severity, spec_exit_status};
use crate::resolver::{spec_resolve, StepMatchModel};
use crate::result::{max_severity, spec_terminal, ResultModel};
use crate::runner::{
    blocks_results, case_events, hook_results_ok, log_all_results, log_step_results,
    scenario_log_ok, skipped_dry, spec_applicable, steps_events, ScenarioLog, StepLog,
};

verus! {

/// The greatest severity over a concatenation is the greater of the two
/// parts' greatest severities.
pub proof fn lemma_exit_severity_concat(a: Seq<EventModel>, b: Seq<EventModel>)
    ensures
        spec_exit_severity(a + b) == if spec_exit_severity(a) > spec_exit_severity(b) {
            spec_exit_severity(a)
        } else {
            spec_exit_severity(b)
        },
    decreases b.len(),
{
    if b.len() == 0 {
        assert(a + b =~= a);
    } else {
        lemma_exit_severity_concat(a, b.drop_last());
        assert((a + b).drop_last() =~= a + b.drop_last());
        assert((a + b).last() == b.last());
    }
}

/// Severities are never negative.
pub proof fn lemma_exit_severity_nonneg(a: Seq<EventModel>)
    ensures
        spec_exit_severity(a) >= 0,
    decreases a.len(),
{
    if a.len() > 0 {
        lemma_exit_severity_nonneg(a.drop_last());
    }
}

/// The greatest severity of a one-event stream is that event's severity.
pub proof fn lemma_exit_severity_singleton(e: EventModel)
    ensures
        spec_exit_severity(seq![e]) == if event_severity(e) > 0 {
            event_severity(e)
        } else {
            0int
        },
{
    assert(seq![e].drop_last() =~= Seq::<EventModel>::empty());
    assert(spec_exit_severity(Seq::<EventModel>::empty()) == 0);
    assert(seq![e].last() == e);
}

/// The step events of a scenario report exactly its step results: their
/// greatest severity is the greatest step-result severity.
pub proof fn lemma_exit_severity_steps(
    gs: Seq<StepDefModel>,
    cuke: CukeModel,
    times: Seq<(u64, u64)>,
    results: Seq<ResultModel>,
    upto: int,
)
    requires
        0 <= upto <= results.len(),
    ensures
        spec_exit_severity(steps_events(gs, cuke, times, results, upto)) == max_severity(
            results.take(upto),
        ),
    decreases upto,
{
    if upto == 0 {
        assert(results.take(0) =~= Seq::<ResultModel>::empty());
    } else {
        lemma_exit_severity_steps(gs, cuke, times, results, upto - 1);
        let prefix = steps_events(gs, cuke, times, results, upto - 1);
        let started = EventModel::TestStepStarted {
            time: times[upto - 1].0,
            info: crate::runner::spec_step_info(gs, cuke, upto - 1),
        };
        let finished = EventModel::TestStepFinished {
            time: times[upto - 1].1,
            info: crate::runner::spec_step_info(gs, cuke, upto - 1),
            result: results[upto - 1],
        };
        let pair = seq![started, finished];
        lemma_exit_severity_concat(prefix, pair);
        lemma_exit_severity_singleton(started);
        lemma_exit_severity_singleton(finished);
        assert(pair =~= seq![started] + seq![finished]);
        lemma_exit_severity_concat(seq![started], seq![finished]);
        assert(results[upto - 1].severity() >= 0);
        assert(spec_exit_severity(pair) == results[upto - 1].severity());
        assert(results.take(upto).drop_last() =~= results.take(upto - 1));
        assert(results.take(upto).last() == results[upto - 1]);
    }
}

/// A scenario's event segment reports exactly its terminal severity, since
/// no step result is more severe than the terminal result.
pub proof fn lemma_exit_severity_case(gs: Seq<StepDefModel>, cuke: CukeModel, log: ScenarioLog)
    requires
        forall|i: int|
            0 <= i < log.step_logs.len() ==> (#[trigger] log.step_logs[i]).result.severity()
                <= log.terminal.severity(),
        log.terminal.severity() >= 0,
    ensures
        spec_exit_severity(case_events(gs, cuke, log)) == log.terminal.severity(),
{
    let n = log.step_logs.len() as int;
    let started = seq![
        EventModel::TestCaseStarted { time: log.start_time, uri: cuke.uri, name: cuke.name },
    ];
    let finished = seq![
        EventModel::TestCaseFinished {
            time: log.end_time,
            uri: cuke.uri,
            name: cuke.name,
            result: log.terminal,
        },
    ];
    let steps = steps_events(gs, cuke, log.step_times, log_step_results(log), n);
    lemma_exit_severity_steps(gs, cuke, log.step_times, log_step_results(log), n);
    assert(log_step_results(log).take(n) =~= log_step_results(log));
    crate::result::lemma_terminal_is_max(log_step_results(log));
    assert(max_severity(log_step_results(log)) <= log.terminal.severity()) by {
        if log_step_results(log).len() > 0 {
            let w = choose|w: int|
                0 <= w < log_step_results(log).len() && log_step_results(log)[w] == spec_terminal(
                    log_step_results(log),
                );
            assert(log_step_results(log)[w] == log.step_logs[w].result);
        }
    }
    lemma_exit_severity_singleton(started[0]);
    assert(started =~= seq![started[0]]);
    assert(spec_exit_severity(started) == 0);
    lemma_exit_severity_singleton(finished[0]);
    assert(finished =~= seq![finished[0]]);
    assert(spec_exit_severity(finished) == log.terminal.severity());
    lemma_exit_severity_concat(started, steps);
    lemma_exit_severity_concat(started + steps, finished);
}

/// The terminal results of the scenarios of a run, in source order.
pub open spec fn terminals(logs: Seq<ScenarioLog>) -> Seq<ResultModel> {
    Seq::new(logs.len(), |j: int| logs[j].terminal)
}

/// A sequence of scenario segments reports exactly the greatest terminal
/// severity.
pub proof fn lemma_exit_severity_cases(
    gs: Seq<StepDefModel>,
    cukes: Seq<CukeModel>,
    logs: Seq<ScenarioLog>,
    upto: int,
)
    requires
        0 <= upto <= logs.len(),
        forall|j: int|
            0 <= j < logs.len() ==> forall|i: int|
                0 <= i < (#[trigger] logs[j]).step_logs.len() ==> (
                #[trigger] logs[j].step_logs[i]).result.severity() <= logs[j].terminal.severity(),
    ensures
        spec_exit_severity(cases_events(gs, cukes, logs, upto)) == max_severity(
            terminals(logs).take(upto),
        ),
    decreases upto,
{
    if upto == 0 {
        assert(terminals(logs).take(0) =~= Seq::<ResultModel>::empty());
    } else {
        lemma_exit_severity_cases(gs, cukes, logs, upto - 1);
        lemma_exit_severity_case(gs, cukes[upto - 1], logs[upto - 1]);
        lemma_exit_severity_concat(
            cases_events(gs, cukes, logs, upto - 1),
            case_events(gs, cukes[upto - 1], logs[upto - 1]),
        );
        assert(terminals(logs).take(upto).drop_last() =~= terminals(logs).take(upto - 1));
        assert(terminals(logs).take(upto).last() == logs[upto - 1].terminal);
        lemma_exit_severity_nonneg(cases_events(gs, cukes, logs, upto - 1));
    }
}

/// Source-read events report no results.
pub proof fn lemma_exit_severity_sources(sources: Seq<SourceModel>, times: Seq<u64>, upto: int)
    ensures
        spec_exit_severity(source_events(sources, times, upto)) == 0,
    decreases upto,
{
    if upto > 0 {
        lemma_exit_severity_sources(sources, times, upto - 1);
        let prefix = source_events(sources, times, upto - 1);
        let e = EventModel::TestSourceRead {
            time: times[upto - 1],
            uri: sources[upto - 1].uri,
            source: sources[upto - 1].source,
        };
        lemma_exit_severity_concat(prefix, seq![e]);
        lemma_exit_severity_singleton(e);
    }
}

/// A whole run's stream reports exactly the greatest terminal severity of
/// its scenarios.
pub proof fn lemma_exit_severity_run(
    gs: Seq<StepDefModel>,
    sources: Seq<SourceModel>,
    cukes: Seq<CukeModel>,
    log: RunLog,
)
    requires
        log.case_logs.len() == cukes.len(),
        forall|j: int|
            0 <= j < log.case_logs.len() ==> forall|i: int|
                0 <= i < (#[trigger] log.case_logs[j]).step_logs.len() ==> (
                #[trigger] log.case_logs[j].step_logs[i]).result.severity()
                    <= log.case_logs[j].terminal.severity(),
    ensures
        spec_exit_severity(run_events(gs, sources, cukes, log)) == max_severity(
            terminals(log.case_logs),
        ),
{
    let started = seq![
        EventModel::TestRunStarted { time: log.start_time, num_cukes: cukes.len() as int },
    ];
    let finished = seq![EventModel::TestRunFinished { time: log.end_time }];
    let srcs = source_events(sources, log.source_times, sources.len() as int);
    let cases = cases_events(gs, cukes, log.case_logs, cukes.len() as int);
    lemma_exit_severity_singleton(started[0]);
    assert(started =~= seq![started[0]]);
    assert(spec_exit_severity(started) == 0);
    lemma_exit_severity_singleton(finished[0]);
    assert(finished =~= seq![finished[0]]);
    assert(spec_exit_severity(finished) == 0);
    lemma_exit_severity_sources(sources, log.source_times, sources.len() as int);
    lemma_exit_severity_cases(gs, cukes, log.case_logs, cukes.len() as int);
    assert(terminals(log.case_logs).take(log.case_logs.len() as int) =~= terminals(log.case_logs));
    lemma_exit_severity_concat(started, srcs);
    lemma_exit_severity_concat(started + srcs, cases);
    lemma_exit_severity_concat(started + srcs + cases, finished);
    crate::result::lemma_terminal_is_max(terminals(log.case_logs));
}

/// Only a passed result has the least severity.
proof fn lemma_severity_zero_is_passed(r: ResultModel)
    ensures
        (r.severity() == 0) == (r is Passed),
        r.severity() >= 0,
{
}

/// The exit-code law: a run exits `0` exactly when every scenario's
/// terminal result is `Passed`, or the run is not strict and every
/// scenario's terminal result is no worse than `Undefined` (skipped,
/// pending or undefined).
pub proof fn lemma_exit_code(
    gs: Seq<StepDefModel>,
    sources: Seq<SourceModel>,
    cukes: Seq<CukeModel>,
    log: RunLog,
    strict: bool,
)
    requires
        log.case_logs.len() == cukes.len(),
        forall|j: int|
            0 <= j < log.case_logs.len() ==> forall|i: int|
                0 <= i < (#[trigger] log.case_logs[j]).step_logs.len() ==> (
                #[trigger] log.case_logs[j].step_logs[i]).result.severity()
                    <= log.case_logs[j].terminal.severity(),
    ensures
        (spec_exit_status(spec_exit_severity(run_events(gs, sources, cukes, log)), strict) == 0)
            == ((forall|j: int|
            0 <= j < log.case_logs.len() ==> (#[trigger] log.case_logs[j]).terminal is Passed) || (
        !strict && forall|j: int|
            0 <= j < log.case_logs.len() ==> (#[trigger] log.case_logs[j]).terminal.severity()
                <= 3)),
{
    lemma_exit_severity_run(gs, sources, cukes, log);
    let ts = terminals(log.case_logs);
    let m = max_severity(ts);
    crate::result::lemma_terminal_is_max(ts);
    assert forall|j: int| 0 <= j < log.case_logs.len() implies (#[trigger] log.case_logs[j]).terminal.severity()
        <= m by {
        assert(ts[j] == log.case_logs[j].terminal);
        assert(ts[j].severity() <= m);
    }
    assert forall|r: ResultModel| true implies ((r.severity() == 0) == (r is Passed)) && r.severity()
        >= 0 by {
        lemma_severity_zero_is_passed(r);
    }
    if ts.len() == 0 {
        assert(m == 0);
    } else {
        let w = choose|w: int| 0 <= w < ts.len() && ts[w] == spec_terminal(ts);
        assert(ts[w].severity() == m);
        assert(log.case_logs[w].terminal == ts[w]);
        if m > 0 {
            assert(!(log.case_logs[w].terminal is Passed));
        }
        if m > 3 {
            assert(!(log.case_logs[w].terminal.severity() <= 3));
        }
    }
}

/// The resolver law: resolution is a pure function of the step definitions
/// and the step, so resolving the same step text against the same glue
/// twice yields the same classification — the same verdict, the same
/// definition, the same captured arguments.
pub proof fn lemma_resolver_deterministic(
    steps: Seq<StepDefModel>,
    step: CukeStepModel,
    first: StepMatchModel,
    second: StepMatchModel,
)
    requires
        first == spec_resolve(steps, step),
        second == spec_resolve(steps, step),
    ensures
        first == second,
{
}

/// Sequential runs are deterministic: the published stream is a function
/// of the glue, the sources, the cukes, and the recorded log (the handler
/// outcomes and times), so repeated runs that record the same log publish
/// byte-identical streams.
pub proof fn lemma_sequential_deterministic(
    gs: Seq<StepDefModel>,
    sources: Seq<SourceModel>,
    cukes: Seq<CukeModel>,
    log1: RunLog,
    log2: RunLog,
)
    requires
        log1.start_time == log2.start_time,
        log1.end_time == log2.end_time,
        log1.source_times == log2.source_times,
        log1.case_logs == log2.case_logs,
    ensures
        run_events(gs, sources, cukes, log1) == run_events(gs, sources, cukes, log2),
{
}

/// The dry-run law, for a scenario whose steps all resolve: every recorded
/// result is `Skipped("dry run")`, and the terminal result is at most
/// `Skipped` — so the run exits `0` unless it is strict.
pub proof fn lemma_dry_run(glue: crate::glue::Glue, cuke: CukeModel, log: ScenarioLog)
    requires
        scenario_log_ok(glue, cuke, true, log),
        forall|i: int|
            0 <= i < cuke.steps.len() ==> spec_resolve(
                glue.steps.deep_view(),
                #[trigger] cuke.steps[i],
            ) is Matched,
    ensures
        forall|p: int|
            0 <= p < log_all_results(log).len() ==> #[trigger] log_all_results(log)[p]
                == skipped_dry(),
        log.terminal.severity() <= 1,
        spec_exit_status(log.terminal.severity(), false) == 0,
{
    let n = log.step_logs.len() as int;
    assert forall|i: int| 0 <= i < n implies (#[trigger] log.step_logs[i]).result
        == skipped_dry() by {
        assert(crate::runner::step_result_ok(
            glue.steps.deep_view(),
            cuke,
            log.before_scenario_results,
            log.step_logs,
            true,
            i,
        ));
    }
    lemma_dry_blocks(log.step_logs, n);
    let all = log_all_results(log);
    let bs = log.before_scenario_results;
    let blocks = blocks_results(log.step_logs, n);
    assert forall|p: int| 0 <= p < all.len() implies #[trigger] all[p] == skipped_dry() by {
        if p < bs.len() {
            assert(all[p] == bs[p]);
        } else if p < bs.len() + blocks.len() {
            assert(all[p] == blocks[p - bs.len()]);
        } else {
            assert(all[p] == log.after_scenario_results[p - bs.len() - blocks.len()]);
        }
    }
    crate::result::lemma_terminal_is_max(all);
    if all.len() > 0 {
        let w = choose|w: int| 0 <= w < all.len() && all[w] == spec_terminal(all);
        assert(all[w] == skipped_dry());
    }
}

/// In a dry run every result recorded while running the steps is a dry-run
/// skip, provided each step's own result is.
proof fn lemma_dry_blocks(step_logs: Seq<StepLog>, upto: int)
    requires
        forall|i: int| 0 <= i < upto ==> (#[trigger] step_logs[i]).result == skipped_dry(),
        forall|i: int|
            0 <= i < upto ==> hook_results_ok((#[trigger] step_logs[i]).before_results, true)
                && hook_results_ok(step_logs[i].after_results, true),
    ensures
        forall|p: int|
            0 <= p < blocks_results(step_logs, upto).len() ==> #[trigger] blocks_results(
                step_logs,
                upto,
            )[p] == skipped_dry(),
    decreases upto,
{
    if upto > 0 {
        lemma_dry_blocks(step_logs, upto - 1);
        let prev = blocks_results(step_logs, upto - 1);
        let cur = blocks_results(step_logs, upto);
        assert forall|p: int| 0 <= p < cur.len() implies #[trigger] cur[p] == skipped_dry() by {
            if p < prev.len() {
                assert(cur[p] == prev[p]);
            } else if p < prev.len() + step_logs[upto - 1].before_results.len() {
                assert(cur[p] == step_logs[upto - 1].before_results[p - prev.len()]);
            } else if p == prev.len() + step_logs[upto - 1].before_results.len() {
                assert(cur[p] == step_logs[upto - 1].result);
            } else {
                assert(cur[p] == step_logs[upto - 1].after_results[p - prev.len() - step_logs[upto
                    - 1].before_results.len() - 1]);
            }
        }
    }
}

/// The empty-scenario law: a cuke with no steps and no applicable hooks
/// records nothing, its terminal result is `Passed` with duration `0`, and
/// its event segment is exactly the started/finished pair.
pub proof fn lemma_empty_cuke(glue: crate::glue::Glue, cuke: CukeModel, log: ScenarioLog)
    requires
        scenario_log_ok(glue, cuke, false, log),
        cuke.steps.len() == 0,
        spec_applicable(glue.before_scenario_hooks.deep_view(), cuke.tags).len() == 0,
        spec_applicable(glue.after_scenario_hooks.deep_view(), cuke.tags).len() == 0,
    ensures
        log.terminal == (ResultModel::Passed { duration: 0 }),
        case_events(glue.steps.deep_view(), cuke, log) =~= seq![
            EventModel::TestCaseStarted { time: log.start_time, uri: cuke.uri, name: cuke.name },
            EventModel::TestCaseFinished {
                time: log.end_time,
                uri: cuke.uri,
                name: cuke.name,
                result: ResultModel::Passed { duration: 0 },
            },
        ],
{
    assert(log_all_results(log) =~= Seq::<ResultModel>::empty());
}

/// Hooks run in order rank: after sorting, no hook stands before one of a
/// lower rank, so a hook of order `-1` runs before every hook of order `0`.
pub proof fn lemma_hooks_sorted_by_order(hooks: Seq<HookModel>)
    ensures
        forall|k: int, l: int|
            0 <= k < l < spec_sort_hooks(hooks).len() ==> (#[trigger] spec_sort_hooks(
                hooks,
            )[k]).order <= (#[trigger] spec_sort_hooks(hooks)[l]).order,
    decreases hooks.len(),
{
    if hooks.len() > 0 {
        lemma_hooks_sorted_by_order(hooks.drop_last());
        lemma_insert_sorted(spec_sort_hooks(hooks.drop_last()), hooks.last());
    }
}

/// Inserting into a sorted list keeps it sorted.
proof fn lemma_insert_sorted(sorted: Seq<HookModel>, h: HookModel)
    requires
        forall|k: int, l: int|
            0 <= k < l < sorted.len() ==> (#[trigger] sorted[k]).order <= (
            #[trigger] sorted[l]).order,
    ensures
        forall|k: int, l: int|
            0 <= k < l < spec_insert_hook(sorted, h).len() ==> (#[trigger] spec_insert_hook(
                sorted,
                h,
            )[k]).order <= (#[trigger] spec_insert_hook(sorted, h)[l]).order,
        spec_insert_hook(sorted, h).len() == sorted.len() + 1,
        forall|k: int|
            0 <= k < spec_insert_hook(sorted, h).len() ==> (#[trigger] spec_insert_hook(
                sorted,
                h,
            )[k]).order <= h.order || spec_insert_hook(sorted, h)[k] == h || exists|l: int|
                0 <= l < sorted.len() && sorted[l] == spec_insert_hook(sorted, h)[k],
    decreases sorted.len(),
{
    if sorted.len() == 0 {
    } else if sorted.last().order <= h.order {
    } else {
        let rest = sorted.drop_last();
        assert(forall|k: int, l: int|
            0 <= k < l < rest.len() ==> (#[trigger] rest[k]).order <= (#[trigger] rest[l]).order);
        lemma_insert_sorted(rest, h);
        let inner = spec_insert_hook(rest, h);
        let out = spec_insert_hook(sorted, h);
        assert(out =~= inner.push(sorted.last()));
        assert forall|k: int, l: int| 0 <= k < l < out.len() implies (#[trigger] out[k]).order <= (
        #[trigger] out[l]).order by {
            if l < out.len() - 1 {
                assert(out[k] == inner[k] && out[l] == inner[l]);
            } else {
                assert(out[l] == sorted.last());
                assert(out[k] == inner[k]);
                if inner[k].order > h.order {
                    let w = choose|w: int| 0 <= w < rest.len() && rest[w] == inner[k];
                    assert(sorted[w].order <= sorted[sorted.len() - 1].order);
                }
            }
        }
    }
}

/// Hooks of equal rank keep their registration order: sorting does not
/// reorder the hooks of any one rank.
pub proof fn lemma_hooks_stable(hooks: Seq<HookModel>, rank: int)
    ensures
        spec_sort_hooks(hooks).filter(|h: HookModel| h.order == rank) == hooks.filter(
            |h: HookModel| h.order == rank,
        ),
    decreases hooks.len(),
{
    reveal(Seq::filter);
    if hooks.len() > 0 {
        lemma_hooks_stable(hooks.drop_last(), rank);
        lemma_insert_filter(spec_sort_hooks(hooks.drop_last()), hooks.last(), rank);
    }
}

/// Insertion adds the new hook behind the existing hooks of its own rank
/// and does not disturb any rank's subsequence.
proof fn lemma_insert_filter(sorted: Seq<HookModel>, h: HookModel, rank: int)
    ensures
        spec_insert_hook(sorted, h).filter(|x: HookModel| x.order == rank) == if h.order == rank {
            sorted.filter(|x: HookModel| x.order == rank).push(h)
        } else {
            sorted.filter(|x: HookModel| x.order == rank)
        },
    decreases sorted.len(),
{
    reveal(Seq::filter);
    let pred = |x: HookModel| x.order == rank;
    if sorted.len() == 0 {
        assert(spec_insert_hook(sorted, h) =~= seq![h]);
        assert(seq![h].drop_last() =~= Seq::<HookModel>::empty());
        assert(Seq::<HookModel>::empty().filter(pred) =~= Seq::<HookModel>::empty());
        if h.order == rank {
            assert(spec_insert_hook(sorted, h).filter(pred) =~= sorted.filter(pred).push(h));
        }
    } else if sorted.last().order <= h.order {
        assert(spec_insert_hook(sorted, h) == sorted.push(h));
        assert(sorted.push(h).drop_last() =~= sorted);
    } else {
        let rest = sorted.drop_last();
        lemma_insert_filter(rest, h, rank);
        let out = spec_insert_hook(sorted, h);
        assert(out == spec_insert_hook(rest, h).push(sorted.last()));
        assert(out.drop_last() =~= spec_insert_hook(rest, h));
        assert(sorted.last().order > h.order);
        if h.order == rank {
            assert(!pred(sorted.last()));
            assert(out.filter(pred) == spec_insert_hook(rest, h).filter(pred));
            assert(sorted.filter(pred) == rest.filter(pred));
        } else {
            if pred(sorted.last()) {
                assert(out.filter(pred) == spec_insert_hook(rest, h).filter(pred).push(
                    sorted.last(),
                ));
                assert(sorted.filter(pred) == rest.filter(pred).push(sorted.last()));
            }
        }
    }
}

/// Length of one scenario's event segment.
pub open spec fn seg_len(log: ScenarioLog) -> int {
    2 + 2 * (log.step_logs.len() as int)
}

/// Combined length of the event segments of scenarios `0 .. upto`.
pub open spec fn cases_len(logs: Seq<ScenarioLog>, upto: int) -> int
    decreases upto,
{
    if upto <= 0 {
        0
    } else {
        cases_len(logs, upto - 1) + seg_len(logs[upto - 1])
    }
}

proof fn lemma_steps_events_len(
    gs: Seq<StepDefModel>,
    cuke: CukeModel,
    times: Seq<(u64, u64)>,
    results: Seq<ResultModel>,
    upto: int,
)
    requires
        upto >= 0,
    ensures
        steps_events(gs, cuke, times, results, upto).len() == 2 * upto,
    decreases upto,
{
    if upto > 0 {
        lemma_steps_events_len(gs, cuke, times, results, upto - 1);
    }
}

proof fn lemma_steps_events_index(
    gs: Seq<StepDefModel>,
    cuke: CukeModel,
    times: Seq<(u64, u64)>,
    results: Seq<ResultModel>,
    upto: int,
    i: int,
)
    requires
        0 <= i < upto,
    ensures
        steps_events(gs, cuke, times, results, upto)[2 * i] == (EventModel::TestStepStarted {
            time: times[i].0,
            info: crate::runner::spec_step_info(gs, cuke, i),
        }),
        steps_events(gs, cuke, times, results, upto)[2 * i + 1] == (EventModel::TestStepFinished {
            time: times[i].1,
            info: crate::runner::spec_step_info(gs, cuke, i),
            result: results[i],
        }),
    decreases upto,
{
    lemma_steps_events_len(gs, cuke, times, results, upto - 1);
    if i < upto - 1 {
        lemma_steps_events_index(gs, cuke, times, results, upto - 1, i);
    }
}

/// The exact layout of one scenario's event segment: `TestCaseStarted`
/// first, then the started/finished pair of each step in source order,
/// then `TestCaseFinished` with the terminal result, and nothing else.
pub proof fn lemma_case_events_layout(gs: Seq<StepDefModel>, cuke: CukeModel, log: ScenarioLog)
    ensures
        case_events(gs, cuke, log).len() == seg_len(log),
        case_events(gs, cuke, log)[0] == (EventModel::TestCaseStarted {
            time: log.start_time,
            uri: cuke.uri,
            name: cuke.name,
        }),
        case_events(gs, cuke, log)[seg_len(log) - 1] == (EventModel::TestCaseFinished {
            time: log.end_time,
            uri: cuke.uri,
            name: cuke.name,
            result: log.terminal,
        }),
        forall|i: int|
            0 <= i < log.step_logs.len() ==> case_events(gs, cuke, log)[1 + 2 * i] == (
            EventModel::TestStepStarted {
                time: log.step_times[i].0,
                info: crate::runner::spec_step_info(gs, cuke, i),
            }),
        forall|i: int|
            0 <= i < log.step_logs.len() ==> case_events(gs, cuke, log)[2 + 2 * i] == (
            EventModel::TestStepFinished {
                time: log.step_times[i].1,
                info: crate::runner::spec_step_info(gs, cuke, i),
                result: log.step_logs[i].result,
            }),
{
    let n = log.step_logs.len() as int;
    lemma_steps_events_len(gs, cuke, log.step_times, log_step_results(log), n);
    assert forall|i: int| 0 <= i < n implies case_events(gs, cuke, log)[1 + 2 * i] == (
    EventModel::TestStepStarted {
        time: log.step_times[i].0,
        info: crate::runner::spec_step_info(gs, cuke, i),
    }) && case_events(gs, cuke, log)[2 + 2 * i] == (EventModel::TestStepFinished {
        time: log.step_times[i].1,
        info: crate::runner::spec_step_info(gs, cuke, i),
        result: log.step_logs[i].result,
    }) by {
        lemma_steps_events_index(gs, cuke, log.step_times, log_step_results(log), n, i);
        assert(log_step_results(log)[i] == log.step_logs[i].result);
    }
}

proof fn lemma_cases_events_len(
    gs: Seq<StepDefModel>,
    cukes: Seq<CukeModel>,
    logs: Seq<ScenarioLog>,
    upto: int,
)
    requires
        upto >= 0,
    ensures
        cases_events(gs, cukes, logs, upto).len() == cases_len(logs, upto),
    decreases upto,
{
    if upto > 0 {
        lemma_cases_events_len(gs, cukes, logs, upto - 1);
        lemma_case_events_layout(gs, cukes[upto - 1], logs[upto - 1]);
    }
}

proof fn lemma_cases_events_index(
    gs: Seq<StepDefModel>,
    cukes: Seq<CukeModel>,
    logs: Seq<ScenarioLog>,
    upto: int,
    j: int,
    k: int,
)
    requires
        0 <= j < upto,
        0 <= k < seg_len(logs[j]),
    ensures
        0 <= cases_len(logs, j) + k < cases_events(gs, cukes, logs, upto).len(),
        cases_events(gs, cukes, logs, upto)[cases_len(logs, j) + k] == case_events(
            gs,
            cukes[j],
            logs[j],
        )[k],
    decreases upto,
{
    lemma_cases_events_len(gs, cukes, logs, upto);
    lemma_cases_events_len(gs, cukes, logs, upto - 1);
    lemma_case_events_layout(gs, cukes[upto - 1], logs[upto - 1]);
    if j == upto - 1 {
        assert(cases_len(logs, j) == cases_events(gs, cukes, logs, upto - 1).len());
    } else {
        lemma_cases_events_index(gs, cukes, logs, upto - 1, j, k);
    }
}

proof fn lemma_source_events_len(sources: Seq<SourceModel>, times: Seq<u64>, upto: int)
    requires
        upto >= 0,
    ensures
        source_events(sources, times, upto).len() == upto,
    decreases upto,
{
    if upto > 0 {
        lemma_source_events_len(sources, times, upto - 1);
    }
}

/// The stream-shape law: a run's event stream begins with `TestRunStarted`
/// and ends with `TestRunFinished`; between them, after the source-read
/// events, each cuke contributes exactly one `TestCaseStarted` /
/// `TestCaseFinished` pair, in source order, and between those each step's
/// `TestStepStarted` immediately precedes its `TestStepFinished`, pairs in
/// source order of the steps.  Every position of the stream is pinned.
#[verifier::rlimit(100)]
#[verifier::spinoff_prover]
pub proof fn lemma_run_stream_structure(
    gs: Seq<StepDefModel>,
    sources: Seq<SourceModel>,
    cukes: Seq<CukeModel>,
    log: RunLog,
)
    requires
        log.case_logs.len() == cukes.len(),
    ensures
        ({
            let stream = run_events(gs, sources, cukes, log);
            let first_case = 1 + sources.len();
            &&& stream.len() == 2 + sources.len() + cases_len(log.case_logs, cukes.len() as int)
            &&& stream[0] == (EventModel::TestRunStarted {
                time: log.start_time,
                num_cukes: cukes.len() as int,
            })
            &&& stream[stream.len() - 1] == (EventModel::TestRunFinished { time: log.end_time })
            &&& forall|j: int|
                0 <= j < cukes.len() ==> stream[first_case + cases_len(log.case_logs, j)] == (
                EventModel::TestCaseStarted {
                    time: (#[trigger] log.case_logs[j]).start_time,
                    uri: cukes[j].uri,
                    name: cukes[j].name,
                })
            &&& forall|j: int|
                0 <= j < cukes.len() ==> stream[first_case + cases_len(log.case_logs, j) + seg_len(
                    log.case_logs[j],
                ) - 1] == (EventModel::TestCaseFinished {
                    time: (#[trigger] log.case_logs[j]).end_time,
                    uri: cukes[j].uri,
                    name: cukes[j].name,
                    result: log.case_logs[j].terminal,
                })
            &&& forall|j: int, i: int|
                0 <= j < cukes.len() && 0 <= i < log.case_logs[j].step_logs.len()
                    ==> stream[#[trigger] (first_case + cases_len(log.case_logs, j) + 1 + 2 * i)] == (
                EventModel::TestStepStarted {
                    time: log.case_logs[j].step_times[i].0,
                    info: crate::runner::spec_step_info(gs, cukes[j], i),
                }) && stream[first_case + cases_len(log.case_logs, j) + 2 + 2 * i] == (
                EventModel::TestStepFinished {
                    time: log.case_logs[j].step_times[i].1,
                    info: crate::runner::spec_step_info(gs, cukes[j], i),
                    result: log.case_logs[j].step_logs[i].result,
                })
        }),
{
    let stream = run_events(gs, sources, cukes, log);
    let n = cukes.len() as int;
    let first_case = 1 + sources.len() as int;
    let started = seq![EventModel::TestRunStarted { time: log.start_time, num_cukes: n }];
    let srcs = source_events(sources, log.source_times, sources.len() as int);
    let cases = cases_events(gs, cukes, log.case_logs, n);
    let finished = seq![EventModel::TestRunFinished { time: log.end_time }];
    lemma_source_events_len(sources, log.source_times, sources.len() as int);
    lemma_cases_events_len(gs, cukes, log.case_logs, n);
    assert(stream.len() == 2 + sources.len() + cases_len(log.case_logs, n));
    assert forall|j: int| 0 <= j < n implies cases_len(log.case_logs, j) >= 0 && cases_len(
        log.case_logs,
        j,
    ) + seg_len(log.case_logs[j]) <= cases_len(log.case_logs, n) by {
        lemma_cases_len_bounds(log.case_logs, j, n);
    }
    assert forall|j: int| 0 <= j < n implies stream[first_case + cases_len(log.case_logs, j)] == (
    EventModel::TestCaseStarted {
        time: (#[trigger] log.case_logs[j]).start_time,
        uri: cukes[j].uri,
        name: cukes[j].name,
    }) && stream[first_case + cases_len(log.case_logs, j) + seg_len(log.case_logs[j]) - 1] == (
    EventModel::TestCaseFinished {
        time: log.case_logs[j].end_time,
        uri: cukes[j].uri,
        name: cukes[j].name,
        result: log.case_logs[j].terminal,
    }) by {
        lemma_case_events_layout(gs, cukes[j], log.case_logs[j]);
        lemma_cases_events_index(gs, cukes, log.case_logs, n, j, 0);
        lemma_cases_events_index(gs, cukes, log.case_logs, n, j, seg_len(log.case_logs[j]) - 1);
        lemma_cases_len_bounds(log.case_logs, j, n);
        assert(stream[first_case + cases_len(log.case_logs, j)] == cases[cases_len(
            log.case_logs,
            j,
        )]);
        assert(stream[first_case + cases_len(log.case_logs, j) + seg_len(log.case_logs[j]) - 1]
            == cases[cases_len(log.case_logs, j) + seg_len(log.case_logs[j]) - 1]);
    }
    assert forall|j: int, i: int|
        0 <= j < n && 0 <= i < log.case_logs[j].step_logs.len() implies stream[#[trigger] (
    first_case + cases_len(log.case_logs, j) + 1 + 2 * i)] == (EventModel::TestStepStarted {
        time: log.case_logs[j].step_times[i].0,
        info: crate::runner::spec_step_info(gs, cukes[j], i),
    }) && stream[first_case + cases_len(log.case_logs, j) + 2 + 2 * i] == (
    EventModel::TestStepFinished {
        time: log.case_logs[j].step_times[i].1,
        info: crate::runner::spec_step_info(gs, cukes[j], i),
        result: log.case_logs[j].step_logs[i].result,
    }) by {
        lemma_case_events_layout(gs, cukes[j], log.case_logs[j]);
        lemma_cases_events_index(gs, cukes, log.case_logs, n, j, 1 + 2 * i);
        lemma_cases_events_index(gs, cukes, log.case_logs, n, j, 2 + 2 * i);
        lemma_cases_len_bounds(log.case_logs, j, n);
        assert(stream[first_case + cases_len(log.case_logs, j) + 1 + 2 * i] == cases[cases_len(
            log.case_logs,
            j,
        ) + 1 + 2 * i]);
        assert(stream[first_case + cases_len(log.case_logs, j) + 2 + 2 * i] == cases[cases_len(
            log.case_logs,
            j,
        ) + 2 + 2 * i]);
    }
}

/// Segment offsets grow with the scenario index and stay inside the whole.
proof fn lemma_cases_len_bounds(logs: Seq<ScenarioLog>, j: int, upto: int)
    requires
        0 <= j < upto,
    ensures
        cases_len(logs, j) >= 0,
        cases_len(logs, j) + seg_len(logs[j]) <= cases_len(logs, upto),
    decreases upto,
{
    lemma_cases_len_nonneg(logs, j);
    if j == upto - 1 {
    } else {
        lemma_cases_len_bounds(logs, j, upto - 1);
    }
}

proof fn lemma_cases_len_nonneg(logs: Seq<ScenarioLog>, upto: int)
    ensures
        cases_len(logs, upto) >= 0,
    decreases upto,
{
    if upto > 0 {
        lemma_cases_len_nonneg(logs, upto - 1);
    }
}

/// Whether `t` is an interleaving of the streams `parts`: `t` is built by
/// repeatedly taking the next event of some part, so every part appears in
/// `t` as a subsequence in its own order.
pub open spec fn is_interleaving(t: Seq<EventModel>, parts: Seq<Seq<EventModel>>) -> bool
    decreases t.len(),
{
    if t.len() == 0 {
        forall|k: int| 0 <= k < parts.len() ==> (#[trigger] parts[k]).len() == 0
    } else {
        exists|k: int|
            0 <= k < parts.len() && (#[trigger] parts[k]).len() > 0 && t[0] == parts[k][0]
                && is_interleaving(t.drop_first(), parts.update(k, parts[k].drop_first()))
    }
}

/// The events of parts `0 .. upto`, as a multiset.
pub open spec fn parts_multiset(parts: Seq<Seq<EventModel>>, upto: int) -> Multiset<EventModel>
    decreases upto,
{
    if upto <= 0 {
        Multiset::empty()
    } else {
        parts_multiset(parts, upto - 1).add(parts[upto - 1].to_multiset())
    }
}

proof fn lemma_parts_multiset_prefix(
    parts1: Seq<Seq<EventModel>>,
    parts2: Seq<Seq<EventModel>>,
    upto: int,
)
    requires
        forall|k: int| 0 <= k < upto ==> parts1[k] == parts2[k],
    ensures
        parts_multiset(parts1, upto) == parts_multiset(parts2, upto),
    decreases upto,
{
    if upto > 0 {
        lemma_parts_multiset_prefix(parts1, parts2, upto - 1);
    }
}

/// The empty stream carries no events.
proof fn lemma_empty_to_multiset()
    ensures
        Seq::<EventModel>::empty().to_multiset() =~= Multiset::<EventModel>::empty(),
{
    broadcast use vstd::seq_lib::group_to_multiset_ensures;

    assert forall|a: EventModel| Seq::<EventModel>::empty().to_multiset().count(a) == 0 by {
        assert(!Seq::<EventModel>::empty().contains(a));
    }
}

proof fn lemma_parts_multiset_empty(parts: Seq<Seq<EventModel>>, upto: int)
    requires
        forall|k: int| 0 <= k < upto ==> (#[trigger] parts[k]).len() == 0,
    ensures
        parts_multiset(parts, upto) =~= Multiset::<EventModel>::empty(),
    decreases upto,
{
    if upto > 0 {
        lemma_parts_multiset_empty(parts, upto - 1);
        assert(parts[upto - 1] =~= Seq::<EventModel>::empty());
        lemma_empty_to_multiset();
        assert(parts[upto - 1].to_multiset() =~= Multiset::<EventModel>::empty());
    }
}

/// A non-empty stream's multiset is its tail's with its head put back.
proof fn lemma_to_multiset_head(s: Seq<EventModel>)
    requires
        s.len() > 0,
    ensures
        s.to_multiset() =~= s.drop_first().to_multiset().insert(s[0]),
{
    broadcast use vstd::seq_lib::group_to_multiset_ensures;

    assert(s =~= s.drop_first().insert(0, s[0]));
    vstd::seq_lib::to_multiset_insert(s.drop_first(), 0, s[0]);
}

/// Taking the head of part `k` moves exactly that event out of the pool.
proof fn lemma_parts_multiset_take(parts: Seq<Seq<EventModel>>, k: int, upto: int)
    requires
        0 <= k < upto <= parts.len(),
        parts[k].len() > 0,
    ensures
        parts_multiset(parts, upto) =~= parts_multiset(
            parts.update(k, parts[k].drop_first()),
            upto,
        ).insert(parts[k][0]),
    decreases upto,
{
    let upd = parts.update(k, parts[k].drop_first());
    if k == upto - 1 {
        assert forall|j: int| 0 <= j < upto - 1 implies parts[j] == upd[j] by {}
        lemma_parts_multiset_prefix(parts, upd, upto - 1);
        lemma_to_multiset_head(parts[k]);
        assert(upd[upto - 1] == parts[k].drop_first());
    } else {
        lemma_parts_multiset_take(parts, k, upto - 1);
        assert(upd[upto - 1] == parts[upto - 1]);
    }
}

/// The interleaving law: any interleaving of a family of per-scenario
/// streams carries exactly the same multiset of events as the streams
/// themselves; and, being an interleaving, it keeps each stream's own
/// order.
pub proof fn lemma_interleaving_multiset(t: Seq<EventModel>, parts: Seq<Seq<EventModel>>)
    requires
        is_interleaving(t, parts),
    ensures
        t.to_multiset() =~= parts_multiset(parts, parts.len() as int),
    decreases t.len(),
{
    if t.len() == 0 {
        lemma_parts_multiset_empty(parts, parts.len() as int);
        assert(t =~= Seq::<EventModel>::empty());
        lemma_empty_to_multiset();
    } else {
        let k = choose|k: int|
            0 <= k < parts.len() && (#[trigger] parts[k]).len() > 0 && t[0] == parts[k][0]
                && is_interleaving(t.drop_first(), parts.update(k, parts[k].drop_first()));
        let upd = parts.update(k, parts[k].drop_first());
        lemma_interleaving_multiset(t.drop_first(), upd);
        lemma_parts_multiset_take(parts, k, parts.len() as int);
        lemma_to_multiset_head(t);
    }
}

/// The event segments of the scenarios of a run, one per cuke.
pub open spec fn case_segments(
    gs: Seq<StepDefModel>,
    cukes: Seq<CukeModel>,
    logs: Seq<ScenarioLog>,
) -> Seq<Seq<EventModel>> {
    Seq::new(logs.len(), |j: int| case_events(gs, cukes[j], logs[j]))
}

proof fn lemma_cases_events_multiset(
    gs: Seq<StepDefModel>,
    cukes: Seq<CukeModel>,
    logs: Seq<ScenarioLog>,
    upto: int,
)
    requires
        0 <= upto <= logs.len(),
    ensures
        cases_events(gs, cukes, logs, upto).to_multiset() =~= parts_multiset(
            case_segments(gs, cukes, logs),
            upto,
        ),
    decreases upto,
{
    if upto == 0 {
        assert(cases_events(gs, cukes, logs, 0) =~= Seq::<EventModel>::empty());
        lemma_empty_to_multiset();
    } else {
        lemma_cases_events_multiset(gs, cukes, logs, upto - 1);
        lemma_multiset_commutative(
            cases_events(gs, cukes, logs, upto - 1),
            case_events(gs, cukes[upto - 1], logs[upto - 1]),
        );
    }
}

/// The parallel-scenarios law: a run that interleaves the scenarios' event
/// segments in any way publishes the same multiset of case-level events as
/// the sequential run of the same scenarios, and each scenario's own
/// events stay in their sequential order.
pub proof fn lemma_parallel_same_events(
    gs: Seq<StepDefModel>,
    cukes: Seq<CukeModel>,
    logs: Seq<ScenarioLog>,
    t: Seq<EventModel>,
)
    requires
        logs.len() == cukes.len(),
        is_interleaving(t, case_segments(gs, cukes, logs)),
    ensures
        t.to_multiset() =~= cases_events(gs, cukes, logs, cukes.len() as int).to_multiset(),
{
    lemma_interleaving_multiset(t, case_segments(gs, cukes, logs));
    lemma_cases_events_multiset(gs, cukes, logs, cukes.len() as int);
}

} // verus!
