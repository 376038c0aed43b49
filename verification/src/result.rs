//! Test results and their severity ordering.
//!
//! Every step and hook execution is classified as one `TestResult`.  The
//! results are totally ordered by severity; a scenario's terminal result is
//! the most severe result recorded while running it, with earlier results
//! winning ties.

use vstd::prelude::*;

use crate::location::{clone_locations, CodeLocation, LocationModel};

verus! {

/// How a single step or hook execution ended.
#[derive(Debug)]
pub enum TestResult {
    /// The handler ran and returned normally.
    Passed { duration: u64 },
    /// The handler was not invoked (dry run, or an earlier failure).
    Skipped { reason: String },
    /// The handler reported that it is not implemented yet.
    Pending { reason: String },
    /// No step definition matched the step text.
    Undefined,
    /// More than one step definition matched the step text.
    Ambiguous { locations: Vec<CodeLocation> },
    /// The handler returned an error or panicked.
    Failed { duration: u64, error: TestError },
}

/// The error carried by a `TestResult::Failed`.
#[derive(Debug)]
pub struct TestError {
    pub kind: ErrorKind,
    pub message: String,
}

/// What made a step or hook fail.
#[derive(Debug, Clone, Copy, PartialEq, Eq, Structural)]
pub enum ErrorKind {
    /// An argument converter rejected a captured value.
    ConversionError,
    /// The handler panicked and the panic was captured.
    HandlerPanic,
    /// The handler returned an error result.
    HandlerError,
}

/// Mathematical model of a `TestResult`.
pub enum ResultModel {
    Passed { duration: u64 },
    Skipped { reason: Seq<char> },
    Pending { reason: Seq<char> },
    Undefined,
    Ambiguous { locations: Seq<LocationModel> },
    Failed { duration: u64, kind: ErrorKind, message: Seq<char> },
}

impl DeepView for TestResult {
    type V = ResultModel;

    open spec fn deep_view(&self) -> ResultModel {
        match *self {
            TestResult::Passed { duration } => ResultModel::Passed { duration },
            TestResult::Skipped { reason } => ResultModel::Skipped { reason: reason@ },
            TestResult::Pending { reason } => ResultModel::Pending { reason: reason@ },
            TestResult::Undefined => ResultModel::Undefined,
            TestResult::Ambiguous { locations } => ResultModel::Ambiguous {
                locations: locations.deep_view(),
            },
            TestResult::Failed { duration, error } => ResultModel::Failed {
                duration,
                kind: error.kind,
                message: error.message@,
            },
        }
    }
}

impl ResultModel {
    /// Position of this result in the severity order
    /// `Passed < Skipped < Pending < Undefined < Ambiguous < Failed`.
    pub open spec fn severity(self) -> int {
        match self {
            ResultModel::Passed { .. } => 0,
            ResultModel::Skipped { .. } => 1,
            ResultModel::Pending { .. } => 2,
            ResultModel::Undefined => 3,
            ResultModel::Ambiguous { .. } => 4,
            ResultModel::Failed { .. } => 5,
        }
    }
}

impl TestResult {
    /// Severity as a number, `0` for `Passed` up to `5` for `Failed`.
    pub fn severity_value(&self) -> (s: u8)
        ensures
            s as int == self.deep_view().severity(),
    {
        match self {
            TestResult::Passed { .. } => 0,
            TestResult::Skipped { .. } => 1,
            TestResult::Pending { .. } => 2,
            TestResult::Undefined => 3,
            TestResult::Ambiguous { .. } => 4,
            TestResult::Failed { .. } => 5,
        }
    }

    /// Copies a result; the copy models the same result.
    pub fn clone_result(&self) -> (c: TestResult)
        ensures
            c.deep_view() == self.deep_view(),
    {
        match self {
            TestResult::Passed { duration } => TestResult::Passed { duration: *duration },
            TestResult::Skipped { reason } => TestResult::Skipped { reason: reason.clone() },
            TestResult::Pending { reason } => TestResult::Pending { reason: reason.clone() },
            TestResult::Undefined => TestResult::Undefined,
            TestResult::Ambiguous { locations } => TestResult::Ambiguous {
                locations: clone_locations(locations),
            },
            TestResult::Failed { duration, error } => TestResult::Failed {
                duration: *duration,
                error: TestError { kind: error.kind, message: error.message.clone() },
            },
        }
    }
}

/// The greatest severity among `results`, `0` when there are none.
pub open spec fn max_severity(results: Seq<ResultModel>) -> int
    decreases results.len(),
{
    if results.len() == 0 {
        0
    } else {
        let prev = max_severity(results.drop_last());
        if results.last().severity() > prev {
            results.last().severity()
        } else {
            prev
        }
    }
}

/// The terminal result of a sequence of recorded results: the earliest
/// result of greatest severity, or `Passed { duration: 0 }` when none were
/// recorded.
pub open spec fn spec_terminal(results: Seq<ResultModel>) -> ResultModel
    decreases results.len(),
{
    if results.len() == 0 {
        ResultModel::Passed { duration: 0 }
    } else if results.len() == 1 {
        results[0]
    } else {
        let prev = spec_terminal(results.drop_last());
        if results.last().severity() > prev.severity() {
            results.last()
        } else {
            prev
        }
    }
}

/// The terminal result is at least as severe as every recorded result, and
/// when anything was recorded it is one of the recorded results.
pub proof fn lemma_terminal_is_max(results: Seq<ResultModel>)
    ensures
        spec_terminal(results).severity() == max_severity(results),
        forall|i: int|
            0 <= i < results.len() ==> #[trigger] results[i].severity() <= max_severity(results),
        results.len() > 0 ==> exists|i: int|
            0 <= i < results.len() && results[i] == spec_terminal(results),
    decreases results.len(),
{
    if results.len() > 0 {
        let rest = results.drop_last();
        lemma_terminal_is_max(rest);
        assert(results.last() == results[results.len() - 1]);
        assert forall|i: int| 0 <= i < results.len() implies #[trigger] results[i].severity()
            <= max_severity(results) by {
            if i < results.len() - 1 {
                assert(rest[i] == results[i]);
                assert(rest[i].severity() <= max_severity(rest));
            }
        }
        if results.len() > 1 && spec_terminal(results) == spec_terminal(rest) {
            let j = choose|j: int| 0 <= j < rest.len() && rest[j] == spec_terminal(rest);
            assert(results[j] == spec_terminal(results));
        }
    }
}

/// Computes the terminal result of the recorded `results`.
pub fn terminal_result(results: &Vec<TestResult>) -> (r: TestResult)
    ensures
        r.deep_view() == spec_terminal(results.deep_view()),
{
    if results.len() == 0 {
        return TestResult::Passed { duration: 0 };
    }
    let mut best = results[0].clone_result();
    let mut best_severity: u8 = best.severity_value();
    let mut i: usize = 1;
    proof {
        assert(results.deep_view().take(1) =~= seq![results[0].deep_view()]);
    }
    while i < results.len()
        invariant
            1 <= i <= results@.len(),
            results.deep_view().len() == results@.len(),
            best.deep_view() == spec_terminal(results.deep_view().take(i as int)),
            best_severity as int == best.deep_view().severity(),
        decreases results@.len() - i,
    {
        let s = results[i].severity_value();
        if s > best_severity {
            best = results[i].clone_result();
            best_severity = s;
        }
        proof {
            assert(results.deep_view().take(i + 1).drop_last() =~= results.deep_view().take(
                i as int,
            ));
            assert(results.deep_view().take(i + 1).last() == results[i as int].deep_view());
        }
        i = i + 1;
    }
    proof {
        assert(results.deep_view().take(results@.len() as int) =~= results.deep_view());
    }
    best
}

} // verus!
