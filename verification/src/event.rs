//! Lifecycle events published while a suite runs.

use vstd::prelude::*;

use crate::cuke::{clone_arguments, StepArgument, StepArgumentModel};
use crate::glue::StepKeyword;
use crate::location::{CodeLocation, LocationModel};
use crate::result::{ResultModel, TestResult};

verus! {

/// What a step event says about its step: position, keyword and text of
/// the step, and, when the step resolved to one definition, the captured
/// arguments and the definition's location.
#[derive(Debug)]
pub struct TestStepInfo {
    pub step_index: usize,
    pub keyword: StepKeyword,
    pub text: String,
    pub arguments: Vec<StepArgument>,
    pub location: Option<CodeLocation>,
}

/// Mathematical model of a `TestStepInfo`.
pub struct StepInfoModel {
    pub step_index: int,
    pub keyword: StepKeyword,
    pub text: Seq<char>,
    pub arguments: Seq<StepArgumentModel>,
    pub location: Option<LocationModel>,
}

impl DeepView for TestStepInfo {
    type V = StepInfoModel;

    open spec fn deep_view(&self) -> StepInfoModel {
        StepInfoModel {
            step_index: self.step_index as int,
            keyword: self.keyword,
            text: self.text@,
            arguments: self.arguments.deep_view(),
            location: match self.location {
                Some(l) => Some(l.deep_view()),
                None => None,
            },
        }
    }
}

impl TestStepInfo {
    /// Copies the info; the copy models the same info.
    pub fn clone_info(&self) -> (c: TestStepInfo)
        ensures
            c.deep_view() == self.deep_view(),
    {
        TestStepInfo {
            step_index: self.step_index,
            keyword: self.keyword,
            text: self.text.clone(),
            arguments: clone_arguments(&self.arguments),
            location: match &self.location {
                Some(l) => Some(l.clone_loc()),
                None => None,
            },
        }
    }
}

/// One lifecycle event.
#[derive(Debug)]
pub enum Event {
    /// The run begins; no case event precedes this.
    TestRunStarted { time: u64, num_cukes: usize },
    /// One feature source was read and compiled.
    TestSourceRead { time: u64, uri: String, source: String },
    /// A scenario begins.
    TestCaseStarted { time: u64, uri: String, name: String },
    /// A step of the running scenario begins.
    TestStepStarted { time: u64, info: TestStepInfo },
    /// A step of the running scenario ended with `result`.
    TestStepFinished { time: u64, info: TestStepInfo, result: TestResult },
    /// A scenario ended with its terminal `result`.
    TestCaseFinished { time: u64, uri: String, name: String, result: TestResult },
    /// The run is over; no case event follows this.
    TestRunFinished { time: u64 },
}

/// Mathematical model of an `Event`.
pub enum EventModel {
    TestRunStarted { time: u64, num_cukes: int },
    TestSourceRead { time: u64, uri: Seq<char>, source: Seq<char> },
    TestCaseStarted { time: u64, uri: Seq<char>, name: Seq<char> },
    TestStepStarted { time: u64, info: StepInfoModel },
    TestStepFinished { time: u64, info: StepInfoModel, result: ResultModel },
    TestCaseFinished { time: u64, uri: Seq<char>, name: Seq<char>, result: ResultModel },
    TestRunFinished { time: u64 },
}

impl DeepView for Event {
    type V = EventModel;

    open spec fn deep_view(&self) -> EventModel {
        match self {
            Event::TestRunStarted { time, num_cukes } => EventModel::TestRunStarted {
                time: *time,
                num_cukes: *num_cukes as int,
            },
            Event::TestSourceRead { time, uri, source } => EventModel::TestSourceRead {
                time: *time,
                uri: uri@,
                source: source@,
            },
            Event::TestCaseStarted { time, uri, name } => EventModel::TestCaseStarted {
                time: *time,
                uri: uri@,
                name: name@,
            },
            Event::TestStepStarted { time, info } => EventModel::TestStepStarted {
                time: *time,
                info: info.deep_view(),
            },
            Event::TestStepFinished { time, info, result } => EventModel::TestStepFinished {
                time: *time,
                info: info.deep_view(),
                result: result.deep_view(),
            },
            Event::TestCaseFinished { time, uri, name, result } => EventModel::TestCaseFinished {
                time: *time,
                uri: uri@,
                name: name@,
                result: result.deep_view(),
            },
            Event::TestRunFinished { time } => EventModel::TestRunFinished { time: *time },
        }
    }
}

/// The result an event reports, if it reports one.
pub open spec fn event_result(e: EventModel) -> Option<ResultModel> {
    match e {
        EventModel::TestStepFinished { result, .. } => Some(result),
        EventModel::TestCaseFinished { result, .. } => Some(result),
        _ => None,
    }
}

} // verus!
