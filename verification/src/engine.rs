//! The execution scheduler's core: the sequential engine entry.
//!
//! `run` drives a whole suite on the calling thread: `TestRunStarted`, one
//! `TestSourceRead` per feature source, every cuke through the scenario
//! runner in source-discovery order, `TestRunFinished`, and the exit code
//! from the exit-status listener.  The parallel modes reuse the same
//! scenario runner from worker threads, which the embedding program
//! provides; `group_cukes_by_uri` computes the per-feature groups that the
//! parallel-features mode fans out.

use vstd::prelude::*;

use crate::cuke::{Cuke, CukeModel};
use crate::event::{Event, EventModel};
use crate::glue::Glue;
use crate::listener::{spec_exit_severity, spec_exit_status, EventBus, EventListener};
use crate::runner::{case_events, run_scenario, scenario_log_ok, GlueCode, ScenarioLog};

verus! {

/// What the engine needs to know about a run.
#[derive(Debug, Clone, Copy)]
pub struct EngineConfig {
    /// Resolve and order everything but invoke nothing.
    pub dry_run: bool,
    /// Count skipped, pending and undefined results as failures for the
    /// exit code.
    pub strict: bool,
}

/// One feature source that was read, reported through `TestSourceRead`.
#[derive(Debug)]
pub struct SourceInfo {
    pub uri: String,
    pub source: String,
}

/// Mathematical model of a `SourceInfo`.
pub struct SourceModel {
    pub uri: Seq<char>,
    pub source: Seq<char>,
}

impl DeepView for SourceInfo {
    type V = SourceModel;

    open spec fn deep_view(&self) -> SourceModel {
        SourceModel { uri: self.uri@, source: self.source@ }
    }
}

/// Everything one run recorded: the event times and each scenario's log.
pub struct RunLog {
    /// Time of `TestRunStarted`.
    pub start_time: u64,
    /// Times of the `TestSourceRead` events, one per source.
    pub source_times: Seq<u64>,
    /// One scenario log per cuke, in source order.
    pub case_logs: Seq<ScenarioLog>,
    /// Time of `TestRunFinished`.
    pub end_time: u64,
}

/// The `TestSourceRead` events of sources `0 .. upto`.
pub open spec fn source_events(sources: Seq<SourceModel>, times: Seq<u64>, upto: int) -> Seq<
    EventModel,
>
    decreases upto,
{
    if upto <= 0 {
        Seq::empty()
    } else {
        source_events(sources, times, upto - 1) + seq![
            EventModel::TestSourceRead {
                time: times[upto - 1],
                uri: sources[upto - 1].uri,
                source: sources[upto - 1].source,
            },
        ]
    }
}

/// The event segments of cukes `0 .. upto`, one after the other in source
/// order.
pub open spec fn cases_events(
    gs: Seq<crate::glue::StepDefModel>,
    cukes: Seq<CukeModel>,
    logs: Seq<ScenarioLog>,
    upto: int,
) -> Seq<EventModel>
    decreases upto,
{
    if upto <= 0 {
        Seq::empty()
    } else {
        cases_events(gs, cukes, logs, upto - 1) + case_events(
            gs,
            cukes[upto - 1],
            logs[upto - 1],
        )
    }
}

/// The whole event stream of a sequential run: `TestRunStarted` first, the
/// source-read events, each cuke's segment in source order, and
/// `TestRunFinished` last.
pub open spec fn run_events(
    gs: Seq<crate::glue::StepDefModel>,
    sources: Seq<SourceModel>,
    cukes: Seq<CukeModel>,
    log: RunLog,
) -> Seq<EventModel> {
    seq![EventModel::TestRunStarted { time: log.start_time, num_cukes: cukes.len() as int }]
        + source_events(sources, log.source_times, sources.len() as int) + cases_events(
        gs,
        cukes,
        log.case_logs,
        cukes.len() as int,
    ) + seq![EventModel::TestRunFinished { time: log.end_time }]
}

/// `source_events` reads only the first `upto` times.
proof fn lemma_source_events_prefix(
    sources: Seq<SourceModel>,
    times1: Seq<u64>,
    times2: Seq<u64>,
    upto: int,
)
    requires
        forall|j: int| 0 <= j < upto ==> times1[j] == times2[j],
    ensures
        source_events(sources, times1, upto) == source_events(sources, times2, upto),
    decreases upto,
{
    if upto > 0 {
        lemma_source_events_prefix(sources, times1, times2, upto - 1);
    }
}

/// `cases_events` reads only the first `upto` logs.
proof fn lemma_cases_events_prefix(
    gs: Seq<crate::glue::StepDefModel>,
    cukes: Seq<CukeModel>,
    logs1: Seq<ScenarioLog>,
    logs2: Seq<ScenarioLog>,
    upto: int,
)
    requires
        forall|j: int| 0 <= j < upto ==> logs1[j] == logs2[j],
    ensures
        cases_events(gs, cukes, logs1, upto) == cases_events(gs, cukes, logs2, upto),
    decreases upto,
{
    if upto > 0 {
        lemma_cases_events_prefix(gs, cukes, logs1, logs2, upto - 1);
    }
}

/// Runs a whole suite sequentially and returns its exit code, the ghost
/// run log, and the bus with the built-in listeners' final state.
///
/// The published stream is exactly `run_events` of the returned log; each
/// scenario's record satisfies `scenario_log_ok`; the exit code is the
/// exit-status listener's verdict over the whole stream.
pub fn run<S, G: GlueCode<S>, L: EventListener>(
    glue: &Glue,
    sources: &Vec<SourceInfo>,
    cukes: &Vec<Cuke>,
    config: &EngineConfig,
    glue_code: &mut G,
    user_listener: L,
) -> (r: (i32, Ghost<RunLog>, EventBus<L>))
    ensures
        ({
            let (exit, log, bus) = r;
            &&& bus.wf()
            &&& bus.history@ == run_events(
                glue.steps.deep_view(),
                sources.deep_view(),
                cukes.deep_view(),
                log@,
            )
            &&& log@.case_logs.len() == cukes@.len()
            &&& log@.source_times.len() == sources@.len()
            &&& forall|j: int|
                0 <= j < cukes@.len() ==> scenario_log_ok(
                    *glue,
                    cukes.deep_view()[j],
                    config.dry_run,
                    #[trigger] log@.case_logs[j],
                )
            &&& forall|j: int|
                0 <= j < cukes@.len() ==> forall|i: int|
                    0 <= i < (#[trigger] log@.case_logs[j]).step_logs.len() ==> (
                    #[trigger] log@.case_logs[j].step_logs[i]).result.severity()
                        <= log@.case_logs[j].terminal.severity()
            &&& exit as int == spec_exit_status(spec_exit_severity(bus.history@), config.strict)
            &&& (exit == 0) == ((forall|j: int|
                0 <= j < log@.case_logs.len() ==> (#[trigger] log@.case_logs[j]).terminal
                    is Passed) || (!config.strict && forall|j: int|
                0 <= j < log@.case_logs.len() ==> (#[trigger] log@.case_logs[j]).terminal.severity()
                    <= 3))
        }),
{
    let ghost gs = glue.steps.deep_view();
    let ghost sm = sources.deep_view();
    let ghost cm = cukes.deep_view();
    let mut bus = EventBus::new(user_listener);
    let t0 = glue_code.now();
    bus.send(Event::TestRunStarted { time: t0, num_cukes: cukes.len() });
    let ghost run_started = EventModel::TestRunStarted {
        time: t0,
        num_cukes: cukes@.len() as int,
    };
    proof {
        assert(bus.history@ =~= seq![run_started]);
    }
    let ghost mut source_times: Seq<u64> = Seq::empty();
    let mut s: usize = 0;
    while s < sources.len()
        invariant
            0 <= s <= sources@.len(),
            sm == sources.deep_view(),
            sm.len() == sources@.len(),
            bus.wf(),
            source_times.len() == s,
            bus.history@ == seq![run_started] + source_events(sm, source_times, s as int),
        decreases sources@.len() - s,
    {
        let ghost times_before = source_times;
        let t = glue_code.now();
        bus.send(
            Event::TestSourceRead {
                time: t,
                uri: sources[s].uri.clone(),
                source: sources[s].source.clone(),
            },
        );
        proof {
            source_times = source_times.push(t);
            lemma_source_events_prefix(sm, times_before, source_times, s as int);
            assert(sources.deep_view()[s as int] == sources@[s as int].deep_view());
            assert(bus.history@ =~= seq![run_started] + source_events(
                sm,
                source_times,
                s as int + 1,
            ));
        }
        s = s + 1;
    }
    let ghost prefix = seq![run_started] + source_events(sm, source_times, sm.len() as int);
    let ghost mut case_logs: Seq<ScenarioLog> = Seq::empty();
    let mut c: usize = 0;
    while c < cukes.len()
        invariant
            0 <= c <= cukes@.len(),
            gs == glue.steps.deep_view(),
            cm == cukes.deep_view(),
            cm.len() == cukes@.len(),
            bus.wf(),
            case_logs.len() == c,
            bus.history@ == prefix + cases_events(gs, cm, case_logs, c as int),
            forall|j: int|
                0 <= j < c ==> scenario_log_ok(*glue, cm[j], config.dry_run, #[trigger] case_logs[j]),
            forall|j: int|
                0 <= j < c ==> forall|i: int|
                    0 <= i < (#[trigger] case_logs[j]).step_logs.len() ==> (
                    #[trigger] case_logs[j].step_logs[i]).result.severity()
                        <= case_logs[j].terminal.severity(),
        decreases cukes@.len() - c,
    {
        let ghost logs_before = case_logs;
        let (_terminal, log) = run_scenario(glue, &cukes[c], config.dry_run, glue_code, &mut bus);
        proof {
            case_logs = case_logs.push(log@);
            lemma_cases_events_prefix(gs, cm, logs_before, case_logs, c as int);
            assert(cukes.deep_view()[c as int] == cukes@[c as int].deep_view());
            assert(bus.history@ =~= prefix + cases_events(gs, cm, case_logs, c as int + 1));
        }
        c = c + 1;
    }
    let te = glue_code.now();
    bus.send(Event::TestRunFinished { time: te });
    let ghost log = RunLog {
        start_time: t0,
        source_times: source_times,
        case_logs: case_logs,
        end_time: te,
    };
    proof {
        assert(bus.history@ =~= run_events(gs, sm, cm, log));
        crate::laws::lemma_exit_code(gs, sm, cm, log, config.strict);
    }
    let exit = bus.exit_status(config.strict);
    (exit, Ghost(log), bus)
}

/// The index of the group in `groups` whose cukes carry `uri`, or the
/// number of groups when none does.  Groups are never empty; a group's uri
/// is its first cuke's.
pub open spec fn find_group(groups: Seq<Seq<CukeModel>>, uri: Seq<char>) -> int
    decreases groups.len(),
{
    if groups.len() == 0 {
        0
    } else if groups[0].len() > 0 && groups[0][0].uri == uri {
        0
    } else {
        1 + find_group(groups.drop_first(), uri)
    }
}

/// `find_group` names a position inside the group list or just past it.
pub proof fn lemma_find_group_bounds(groups: Seq<Seq<CukeModel>>, uri: Seq<char>)
    ensures
        0 <= find_group(groups, uri) <= groups.len(),
    decreases groups.len(),
{
    if groups.len() > 0 && !(groups[0].len() > 0 && groups[0][0].uri == uri) {
        lemma_find_group_bounds(groups.drop_first(), uri);
    }
}

/// Adds one cuke to the group of its uri, or opens a new group at the end.
pub open spec fn add_to_groups(groups: Seq<Seq<CukeModel>>, c: CukeModel) -> Seq<Seq<CukeModel>> {
    let g = find_group(groups, c.uri);
    if g < groups.len() {
        groups.update(g, groups[g].push(c))
    } else {
        groups.push(seq![c])
    }
}

/// The cukes grouped by their uri: groups in order of first appearance,
/// each group's cukes in source order.
pub open spec fn spec_group_by_uri(cukes: Seq<CukeModel>) -> Seq<Seq<CukeModel>>
    decreases cukes.len(),
{
    if cukes.len() == 0 {
        Seq::empty()
    } else {
        add_to_groups(spec_group_by_uri(cukes.drop_last()), cukes.last())
    }
}

/// Grouping never makes an empty group.
pub proof fn lemma_groups_nonempty(cukes: Seq<CukeModel>)
    ensures
        forall|k: int|
            0 <= k < spec_group_by_uri(cukes).len() ==> (#[trigger] spec_group_by_uri(
                cukes,
            )[k]).len() > 0,
    decreases cukes.len(),
{
    if cukes.len() > 0 {
        lemma_groups_nonempty(cukes.drop_last());
        let prev = spec_group_by_uri(cukes.drop_last());
        let c = cukes.last();
        let g = find_group(prev, c.uri);
        lemma_find_group_bounds(prev, c.uri);
        assert(spec_group_by_uri(cukes) == add_to_groups(prev, c));
        if g < prev.len() {
            assert(add_to_groups(prev, c) == prev.update(g, prev[g].push(c)));
        } else {
            assert(add_to_groups(prev, c) == prev.push(seq![c]));
        }
        assert forall|k: int| 0 <= k < spec_group_by_uri(cukes).len() implies (
        #[trigger] spec_group_by_uri(cukes)[k]).len() > 0 by {
            if g < prev.len() {
                assert(prev.update(g, prev[g].push(c)).len() == prev.len());
                assert(k < prev.len());
                if k == g {
                    assert(spec_group_by_uri(cukes)[k] == prev[g].push(c));
                } else {
                    assert(prev.update(g, prev[g].push(c))[k] == prev[k]);
                    assert(spec_group_by_uri(cukes)[k] == prev[k]);
                    assert(spec_group_by_uri(cukes.drop_last())[k].len() > 0);
                }
            } else {
                assert(prev.push(seq![c]).len() == prev.len() + 1);
                if k < prev.len() {
                    assert(prev.push(seq![c])[k] == prev[k]);
                    assert(spec_group_by_uri(cukes)[k] == prev[k]);
                    assert(spec_group_by_uri(cukes.drop_last())[k].len() > 0);
                } else {
                    assert(spec_group_by_uri(cukes)[k] == seq![c]);
                }
            }
        }
    }
}

/// Groups the cukes of a run by their source uri, for the
/// parallel-features mode: groups in order of first appearance, each
/// group's cukes in source order.
pub fn group_cukes_by_uri(cukes: Vec<Cuke>) -> (r: Vec<Vec<Cuke>>)
    ensures
        r.deep_view() == spec_group_by_uri(cukes.deep_view()),
{
    let ghost input = cukes.deep_view();
    let mut rest = cukes;
    let total = rest.len();
    proof {
        assert(input.len() == total);
    }
    let mut out: Vec<Vec<Cuke>> = Vec::new();
    let mut i: usize = 0;
    proof {
        assert(spec_group_by_uri(input.take(0)) =~= Seq::<Seq<CukeModel>>::empty());
    }
    while rest.len() > 0
        invariant
            input.len() == total,
            i + rest@.len() == input.len(),
            rest.deep_view() =~= input.skip(i as int),
            out.deep_view() == spec_group_by_uri(input.take(i as int)),
            forall|k: int| 0 <= k < out@.len() ==> (#[trigger] out@[k])@.len() > 0,
        decreases rest@.len(),
    {
        let ghost pre = rest.deep_view();
        let ghost pre_raw = rest@;
        let ghost groups_before = out.deep_view();
        let c = rest.remove(0);
        proof {
            assert(pre.len() == pre_raw.len());
            assert(pre[0] == pre_raw[0].deep_view());
            assert(c.deep_view() == input[i as int]);
            assert forall|j: int| 0 <= j < rest@.len() implies rest.deep_view()[j] == input.skip(
                i as int + 1,
            )[j] by {
                assert(rest@[j] == pre_raw[j + 1]);
                assert(pre[j + 1] == input.skip(i as int)[j + 1]);
            }
            assert(rest.deep_view() =~= input.skip(i as int + 1));
            lemma_groups_nonempty(input.take(i as int));
            assert(groups_before.skip(0) =~= groups_before);
        }
        let mut g: usize = 0;
        let mut found = false;
        while g < out.len() && !found
            invariant
                0 <= g <= out@.len(),
                out.deep_view() == groups_before,
                forall|k: int| 0 <= k < out@.len() ==> (#[trigger] out@[k])@.len() > 0,
                !found ==> find_group(groups_before.skip(g as int), c.deep_view().uri) + g
                    == find_group(groups_before, c.deep_view().uri),
                found ==> g < out@.len() && find_group(groups_before, c.deep_view().uri)
                    == g as int,
                c.deep_view() == input[i as int],
            decreases out@.len() - g + if found {
                0int
            } else {
                1int
            },
        {
            proof {
                assert(out.deep_view()[g as int] == out@[g as int].deep_view());
                assert(out@[g as int].deep_view()[0] == out@[g as int]@[0].deep_view());
                assert(groups_before.skip(g as int)[0] == groups_before[g as int]);
            }
            if crate::tag::str_equal(out[g][0].uri.as_str(), c.uri.as_str()) {
                found = true;
            } else {
                proof {
                    assert(groups_before.skip(g as int).drop_first() =~= groups_before.skip(
                        g as int + 1,
                    ));
                }
                g = g + 1;
            }
        }
        proof {
            if !found {
                assert(groups_before.skip(out@.len() as int) =~= Seq::<Seq<CukeModel>>::empty());
                assert(find_group(groups_before, c.deep_view().uri) == out@.len() as int);
            }
        }
        if found {
            let mut grp = out.remove(g);
            grp.push(c);
            let ghost grp_model = grp.deep_view();
            out.insert(g, grp);
            proof {
                assert(grp_model =~= groups_before[g as int].push(input[i as int]));
                assert forall|k: int| 0 <= k < out@.len() implies out.deep_view()[k]
                    == add_to_groups(groups_before, input[i as int])[k] by {
                    assert(out.deep_view()[k] == out@[k].deep_view());
                }
                assert(out.deep_view() =~= add_to_groups(groups_before, input[i as int]));
            }
        } else {
            let mut grp: Vec<Cuke> = Vec::new();
            grp.push(c);
            let ghost grp_model = grp.deep_view();
            out.push(grp);
            proof {
                assert(grp_model =~= seq![input[i as int]]);
                assert forall|k: int| 0 <= k < out@.len() implies out.deep_view()[k]
                    == add_to_groups(groups_before, input[i as int])[k] by {
                    assert(out.deep_view()[k] == out@[k].deep_view());
                    if k < groups_before.len() {
                        assert(out@[k].deep_view() == groups_before[k]);
                    }
                }
                assert(out.deep_view() =~= add_to_groups(groups_before, input[i as int]));
            }
        }
        proof {
            assert(input.take(i as int + 1).drop_last() =~= input.take(i as int));
            assert(input.take(i as int + 1).last() == input[i as int]);
        }
        i = i + 1;
    }
    proof {
        assert(input.take(input.len() as int) =~= input);
    }
    out
}

} // verus!
