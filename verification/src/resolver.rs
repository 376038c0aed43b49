//! The step-match resolver.
//!
//! For one step of a cuke, the resolver finds every step definition whose
//! keyword applies and whose anchored pattern matches the full step text.
//! No match classifies the step `Undefined`, one match yields the handler
//! with its argument vector, two or more are ambiguous and are all
//! reported.  The resolver is a pure function of the glue and the step:
//! resolving the same step against the same definitions twice yields the
//! same classification.

use vstd::prelude::*;

use crate::cuke::{CukeArgument, CukeArgumentModel, CukeStep, CukeStepModel, DataTable, StepArgument, StepArgumentModel, clone_content_type, clone_rows};
use crate::glue::{spec_keyword_matches, keyword_matches, StepDefModel, StepDefinition};
use crate::location::{CodeLocation, LocationModel};
use crate::step_expression::{captured_args, spec_captured_args};

verus! {

/// The resolver's verdict on one step.
#[derive(Debug)]
pub enum StepMatch {
    /// Exactly one definition matched: its index in the glue's step list,
    /// and the arguments for the handler.
    Matched { definition_index: usize, arguments: Vec<StepArgument> },
    /// No definition matched.
    NoneMatching,
    /// Two or more definitions matched; their declaration sites, in
    /// registration order.
    Ambiguous { locations: Vec<CodeLocation> },
}

/// Mathematical model of a `StepMatch`.
pub enum StepMatchModel {
    Matched { definition_index: int, arguments: Seq<StepArgumentModel> },
    NoneMatching,
    Ambiguous { locations: Seq<LocationModel> },
}

impl DeepView for StepMatch {
    type V = StepMatchModel;

    open spec fn deep_view(&self) -> StepMatchModel {
        match self {
            StepMatch::Matched { definition_index, arguments } => StepMatchModel::Matched {
                definition_index: *definition_index as int,
                arguments: arguments.deep_view(),
            },
            StepMatch::NoneMatching => StepMatchModel::NoneMatching,
            StepMatch::Ambiguous { locations } => StepMatchModel::Ambiguous {
                locations: locations.deep_view(),
            },
        }
    }
}

/// Whether one step definition matches a step: its keyword applies and its
/// anchored pattern matches the full step text.
pub open spec fn spec_is_matching(def: StepDefModel, step: CukeStepModel) -> bool {
    spec_keyword_matches(def.keyword, step.keyword) && spec_captured_args(def.pattern, step.text)
        is Some
}

/// The argument vector of a matched step: one `Expression` per capture
/// group, then the step's docstring or table if it carries one.
pub open spec fn spec_matched_arguments(def: StepDefModel, step: CukeStepModel) -> Option<
    Seq<StepArgumentModel>,
> {
    match spec_captured_args(def.pattern, step.text) {
        None => None,
        Some(captures) => {
            let expressions = Seq::new(
                captures.len(),
                |i: int| StepArgumentModel::Expression(captures[i]),
            );
            Some(
                match step.argument {
                    None => expressions,
                    Some(CukeArgumentModel::DocString { content, content_type }) =>
                        expressions.push(StepArgumentModel::DocString { content, content_type }),
                    Some(CukeArgumentModel::Table { rows }) => expressions.push(
                        StepArgumentModel::DataTable { rows },
                    ),
                },
            )
        },
    }
}


/// The indices of the definitions in `steps` that match `step`, in
/// registration order.
pub open spec fn matching_indices(steps: Seq<StepDefModel>, step: CukeStepModel) -> Seq<int>
    decreases steps.len(),
{
    if steps.len() == 0 {
        Seq::empty()
    } else {
        matching_indices(steps.drop_last(), step) + if spec_is_matching(steps.last(), step) {
            seq![steps.len() - 1]
        } else {
            Seq::empty()
        }
    }
}

/// The resolver's verdict as a function of the step definitions and the
/// step: `NoneMatching` for zero matching definitions, `Matched` with the
/// captured arguments for exactly one, `Ambiguous` with every matching
/// definition's location for two or more.
pub open spec fn spec_resolve(steps: Seq<StepDefModel>, step: CukeStepModel) -> StepMatchModel {
    let matching = matching_indices(steps, step);
    if matching.len() == 0 {
        StepMatchModel::NoneMatching
    } else if matching.len() == 1 {
        StepMatchModel::Matched {
            definition_index: matching[0],
            arguments: spec_matched_arguments(steps[matching[0]], step).unwrap(),
        }
    } else {
        StepMatchModel::Ambiguous {
            locations: Seq::new(matching.len(), |k: int| steps[matching[k]].location),
        }
    }
}

impl StepDefinition {
    /// The arguments this definition captures from `step`, or `None` when
    /// its anchored pattern does not match the step text.  The keyword is
    /// not consulted; the resolver checks it separately.
    pub fn matched_arguments(&self, step: &CukeStep) -> (r: Option<Vec<StepArgument>>)
        ensures
            r.deep_view() == spec_matched_arguments(self.deep_view(), step.deep_view()),
    {
        let captures = match captured_args(self.pattern.as_str(), step.text.as_str()) {
            None => {
                return None;
            },
            Some(c) => c,
        };
        let ghost spec_captures = spec_captured_args(self.pattern@, step.text@).unwrap();
        let mut out: Vec<StepArgument> = Vec::new();
        let mut i: usize = 0;
        while i < captures.len()
            invariant
                0 <= i <= captures@.len(),
                captures.deep_view() =~= spec_captures,
                out@.len() == i,
                forall|j: int|
                    0 <= j < i ==> #[trigger] out.deep_view()[j] == StepArgumentModel::Expression(
                        spec_captures[j],
                    ),
            decreases captures@.len() - i,
        {
            let ghost prev = out.deep_view();
            out.push(StepArgument::Expression(captures[i].clone()));
            proof {
                assert forall|j: int| 0 <= j < i + 1 implies #[trigger] out.deep_view()[j]
                    == StepArgumentModel::Expression(spec_captures[j]) by {
                    if j < i {
                        assert(out.deep_view()[j] == prev[j]);
                    } else {
                        assert(out.deep_view()[j] == out@[j].deep_view());
                        assert(captures.deep_view()[j] == captures@[j]@);
                    }
                }
            }
            i = i + 1;
        }
        let ghost expressions = Seq::new(
            spec_captures.len(),
            |k: int| StepArgumentModel::Expression(spec_captures[k]),
        );
        proof {
            assert(out.deep_view() =~= expressions);
        }
        let ghost before_arg = out.deep_view();
        match &step.argument {
            None => {},
            Some(CukeArgument::DocString { content, content_type }) => {
                out.push(
                    StepArgument::DocString {
                        content: content.clone(),
                        content_type: clone_content_type(content_type),
                    },
                );
                proof {
                    assert forall|j: int| 0 <= j < out@.len() implies out.deep_view()[j]
                        == before_arg.push(out@[out@.len() - 1].deep_view())[j] by {
                        if j < out@.len() - 1 {
                            assert(out.deep_view()[j] == before_arg[j]);
                        }
                    }
                    assert(out.deep_view() =~= before_arg.push(out@[out@.len() - 1].deep_view()));
                }
            },
            Some(CukeArgument::Table { rows }) => {
                out.push(StepArgument::DataTable(DataTable { rows: clone_rows(rows) }));
                proof {
                    assert forall|j: int| 0 <= j < out@.len() implies out.deep_view()[j]
                        == before_arg.push(out@[out@.len() - 1].deep_view())[j] by {
                        if j < out@.len() - 1 {
                            assert(out.deep_view()[j] == before_arg[j]);
                        }
                    }
                    assert(out.deep_view() =~= before_arg.push(out@[out@.len() - 1].deep_view()));
                }
            },
        }
        proof {
            assert(Some(out.deep_view()) =~= spec_matched_arguments(
                self.deep_view(),
                step.deep_view(),
            ));
        }
        Some(out)
    }
}

/// Resolves one step against the registered step definitions.
///
/// The verdict is a pure function of the definitions and the step, so
/// resolving the same step text twice yields the same classification and
/// the same captured arguments.
pub fn resolve(steps: &Vec<StepDefinition>, step: &CukeStep) -> (r: StepMatch)
    ensures
        r.deep_view() == spec_resolve(steps.deep_view(), step.deep_view()),
{
    let ghost smodel = steps.deep_view();
    let ghost stepm = step.deep_view();
    let mut matches: Vec<usize> = Vec::new();
    let mut i: usize = 0;
    proof {
        assert(matching_indices(smodel.take(0), stepm) =~= Seq::<int>::empty());
    }
    while i < steps.len()
        invariant
            0 <= i <= steps@.len(),
            smodel == steps.deep_view(),
            stepm == step.deep_view(),
            smodel.len() == steps@.len(),
            Seq::new(matches@.len(), |k: int| matches@[k] as int) =~= matching_indices(
                smodel.take(i as int),
                stepm,
            ),
            forall|k: int| 0 <= k < matches@.len() ==> #[trigger] matches@[k] < i,
        decreases steps@.len() - i,
    {
        let ghost prev = Seq::new(matches@.len(), |k: int| matches@[k] as int);
        let keyword_ok = keyword_matches(steps[i].keyword, step.keyword);
        let pattern_ok = if keyword_ok {
            match captured_args(steps[i].pattern.as_str(), step.text.as_str()) {
                Some(_) => true,
                None => false,
            }
        } else {
            false
        };
        proof {
            assert(steps.deep_view()[i as int] == steps@[i as int].deep_view());
        }
        if keyword_ok && pattern_ok {
            matches.push(i);
        }
        proof {
            assert(smodel.take(i as int + 1).drop_last() =~= smodel.take(i as int));
            assert(smodel.take(i as int + 1).last() == smodel[i as int]);
            assert(Seq::new(matches@.len(), |k: int| matches@[k] as int) =~= matching_indices(
                smodel.take(i as int + 1),
                stepm,
            ));
        }
        i = i + 1;
    }
    proof {
        assert(smodel.take(smodel.len() as int) =~= smodel);
    }
    if matches.len() == 0 {
        StepMatch::NoneMatching
    } else if matches.len() == 1 {
        let d = matches[0];
        proof {
            assert(matching_indices(smodel, stepm)[0] == d as int);
            assert(steps.deep_view()[d as int] == steps@[d as int].deep_view());
        }
        match steps[d].matched_arguments(step) {
            Some(arguments) => StepMatch::Matched { definition_index: d, arguments },
            None => {
                // A definition on the matching list always captures its
                // arguments; this arm is provably dead.
                proof {
                    lemma_matching_index_matches(smodel, stepm, 0);
                    assert(false);
                }
                StepMatch::NoneMatching
            },
        }
    } else {
        let ghost matching = matching_indices(smodel, stepm);
        let mut locations: Vec<CodeLocation> = Vec::new();
        let mut k: usize = 0;
        while k < matches.len()
            invariant
                0 <= k <= matches@.len(),
                smodel == steps.deep_view(),
                smodel.len() == steps@.len(),
                matching == matching_indices(smodel, stepm),
                Seq::new(matches@.len(), |j: int| matches@[j] as int) =~= matching,
                forall|j: int| 0 <= j < matches@.len() ==> #[trigger] matches@[j] < steps@.len(),
                locations@.len() == k,
                forall|j: int|
                    0 <= j < k ==> #[trigger] locations.deep_view()[j]
                        == smodel[matching[j]].location,
            decreases matches@.len() - k,
        {
            let ghost prev = locations.deep_view();
            let d = matches[k];
            locations.push(steps[d].location.clone_loc());
            proof {
                assert forall|j: int| 0 <= j < k + 1 implies #[trigger] locations.deep_view()[j]
                    == smodel[matching[j]].location by {
                    if j < k {
                        assert(locations.deep_view()[j] == prev[j]);
                    } else {
                        assert(locations.deep_view()[j] == locations@[j].deep_view());
                        assert(steps.deep_view()[d as int] == steps@[d as int].deep_view());
                    }
                }
            }
            k = k + 1;
        }
        proof {
            assert(locations.deep_view() =~= Seq::new(
                matching.len(),
                |j: int| smodel[matching[j]].location,
            ));
        }
        StepMatch::Ambiguous { locations }
    }
}

/// Every index that `matching_indices` lists points at a matching
/// definition inside the list.
pub proof fn lemma_matching_index_matches(steps: Seq<StepDefModel>, step: CukeStepModel, k: int)
    requires
        0 <= k < matching_indices(steps, step).len(),
    ensures
        0 <= matching_indices(steps, step)[k] < steps.len(),
        spec_is_matching(steps[matching_indices(steps, step)[k]], step),
    decreases steps.len(),
{
    if steps.len() > 0 {
        let rest = steps.drop_last();
        let m = matching_indices(steps, step);
        let mrest = matching_indices(rest, step);
        if k < mrest.len() {
            lemma_matching_index_matches(rest, step, k);
            assert(rest[mrest[k]] == steps[mrest[k]]);
        } else {
            assert(spec_is_matching(steps.last(), step));
            assert(m[k] == steps.len() - 1);
        }
    }
}

} // verus!
