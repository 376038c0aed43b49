//! The glue registry: the immutable index of step definitions and hooks.
//!
//! The registry is built once from the static descriptors that the
//! code-generation layer emits.  Hooks are sorted by their declared order,
//! ascending, with ties keeping registration order; step definitions keep
//! registration order.

use vstd::prelude::*;

use crate::location::{CodeLocation, LocationModel};
use crate::tag::{parse_tag_expression, spec_parse_tag_expression, TagExpr, TagModel};

verus! {

/// The keyword a step definition is registered under.  `Star` matches any
/// step keyword; a concrete step never carries `Star`.
#[derive(Debug, Clone, Copy, PartialEq, Eq, Structural)]
pub enum StepKeyword {
    Given,
    When,
    Then,
    Star,
}

/// Whether a definition registered under `declared` applies to a step read
/// with keyword `actual`.
pub open spec fn spec_keyword_matches(declared: StepKeyword, actual: StepKeyword) -> bool {
    declared == actual || declared == StepKeyword::Star
}

/// Whether a definition registered under `declared` applies to a step read
/// with keyword `actual`: the keywords are equal or the definition is a
/// wildcard.
pub fn keyword_matches(declared: StepKeyword, actual: StepKeyword) -> (r: bool)
    ensures
        r == spec_keyword_matches(declared, actual),
{
    declared == actual || declared == StepKeyword::Star
}

/// The four lifecycle hook kinds.
#[derive(Debug, Clone, Copy, PartialEq, Eq, Structural)]
pub enum HookType {
    BeforeScenario,
    BeforeStep,
    AfterStep,
    AfterScenario,
}

/// A registered step definition.  The handler body itself is dispatched by
/// the embedding program through the index of the definition in the glue.
#[derive(Debug)]
pub struct StepDefinition {
    /// Handler name, for diagnostics.
    pub name: String,
    /// Keyword the handler was registered under.
    pub keyword: StepKeyword,
    /// Regular expression over the full step text.
    pub pattern: String,
    /// Number of declared parameters of the handler.
    pub parameter_count: u8,
    /// Where the handler was declared.
    pub location: CodeLocation,
}

/// Mathematical model of a `StepDefinition`.
pub struct StepDefModel {
    pub name: Seq<char>,
    pub keyword: StepKeyword,
    pub pattern: Seq<char>,
    pub parameter_count: u8,
    pub location: LocationModel,
}

impl DeepView for StepDefinition {
    type V = StepDefModel;

    open spec fn deep_view(&self) -> StepDefModel {
        StepDefModel {
            name: self.name@,
            keyword: self.keyword,
            pattern: self.pattern@,
            parameter_count: self.parameter_count,
            location: self.location.deep_view(),
        }
    }
}

impl StepDefinition {
    /// The source location where the step definition is declared.
    pub fn get_location(&self) -> (r: &CodeLocation)
        ensures
            r == self.location,
    {
        &self.location
    }

    /// The number of declared parameters of this step definition.
    pub fn get_parameter_count(&self) -> (r: u8)
        ensures
            r == self.parameter_count,
    {
        self.parameter_count
    }

    /// The step definition pattern, for error reporting.
    pub fn get_pattern(&self) -> (r: &String)
        ensures
            r == self.pattern,
    {
        &self.pattern
    }
}

/// A hook descriptor as the code-generation layer emits it: the tag
/// expression is still plain text.
#[derive(Debug)]
pub struct StaticHookDef {
    /// Handler name, for diagnostics.
    pub name: String,
    /// Rank: lower runs first; ties keep registration order.
    pub order: isize,
    /// Tag expression text; the empty text applies to every scenario.
    pub tag_expression: String,
    /// Where the handler was declared.
    pub location: CodeLocation,
}

/// Mathematical model of a `StaticHookDef`.
pub struct StaticHookModel {
    pub name: Seq<char>,
    pub order: int,
    pub tag_expression: Seq<char>,
    pub location: LocationModel,
}

impl DeepView for StaticHookDef {
    type V = StaticHookModel;

    open spec fn deep_view(&self) -> StaticHookModel {
        StaticHookModel {
            name: self.name@,
            order: self.order as int,
            tag_expression: self.tag_expression@,
            location: self.location.deep_view(),
        }
    }
}

/// A registered hook, with its tag expression parsed.  The handler body is
/// dispatched by the embedding program through the index of the hook in its
/// list.
#[derive(Debug)]
pub struct HookDefinition {
    /// Handler name, for diagnostics.
    pub name: String,
    /// Rank: lower runs first; ties keep registration order.
    pub order: isize,
    /// Tag expression text as registered.
    pub tag_expression: String,
    /// The parsed tag expression.
    pub tag_expr: TagExpr,
    /// Where the handler was declared.
    pub location: CodeLocation,
}

/// Mathematical model of a `HookDefinition`.
pub struct HookModel {
    pub name: Seq<char>,
    pub order: int,
    pub tag_expression: Seq<char>,
    pub tag_expr: TagModel,
    pub location: LocationModel,
}

impl DeepView for HookDefinition {
    type V = HookModel;

    open spec fn deep_view(&self) -> HookModel {
        HookModel {
            name: self.name@,
            order: self.order as int,
            tag_expression: self.tag_expression@,
            tag_expr: self.tag_expr.model(),
            location: self.location.deep_view(),
        }
    }
}

/// The static descriptors the registry is built from: one list per hook
/// kind, plus the step definitions, each in registration order.
#[derive(Debug)]
pub struct StaticGlueDefinitions {
    pub before_scenario_hooks: Vec<StaticHookDef>,
    pub before_step_hooks: Vec<StaticHookDef>,
    pub after_step_hooks: Vec<StaticHookDef>,
    pub after_scenario_hooks: Vec<StaticHookDef>,
    pub steps: Vec<StepDefinition>,
}

/// A descriptor whose tag expression is not a sentence of the tag
/// expression language.
#[derive(Debug)]
pub struct GlueError {
    pub hook_name: String,
    pub tag_expression: String,
}

/// The glue registry: every step definition and hook known to the engine,
/// hooks pre-sorted by order (ascending, ties in registration order).
#[derive(Debug)]
pub struct Glue {
    pub steps: Vec<StepDefinition>,
    pub before_scenario_hooks: Vec<HookDefinition>,
    pub before_step_hooks: Vec<HookDefinition>,
    pub after_step_hooks: Vec<HookDefinition>,
    pub after_scenario_hooks: Vec<HookDefinition>,
}

impl Glue {
    /// The registered step definitions, in registration order.
    pub fn steps(&self) -> (r: &Vec<StepDefinition>)
        ensures
            r == self.steps,
    {
        &self.steps
    }

    /// The registered hooks of one kind, sorted by order ascending, ties in
    /// registration order.
    pub fn hooks(&self, hook_type: HookType) -> (r: &Vec<HookDefinition>)
        ensures
            r == self.spec_hooks(hook_type),
    {
        match hook_type {
            HookType::BeforeScenario => &self.before_scenario_hooks,
            HookType::BeforeStep => &self.before_step_hooks,
            HookType::AfterStep => &self.after_step_hooks,
            HookType::AfterScenario => &self.after_scenario_hooks,
        }
    }

    /// The hook list of one kind.
    pub open spec fn spec_hooks(&self, hook_type: HookType) -> Vec<HookDefinition> {
        match hook_type {
            HookType::BeforeScenario => self.before_scenario_hooks,
            HookType::BeforeStep => self.before_step_hooks,
            HookType::AfterStep => self.after_step_hooks,
            HookType::AfterScenario => self.after_scenario_hooks,
        }
    }
}

/// Inserts `h` behind every element whose order is at most `h`'s, and in
/// front of every element whose order is greater.
pub open spec fn spec_insert_hook(sorted: Seq<HookModel>, h: HookModel) -> Seq<HookModel>
    decreases sorted.len(),
{
    if sorted.len() == 0 {
        seq![h]
    } else if sorted.last().order <= h.order {
        sorted.push(h)
    } else {
        spec_insert_hook(sorted.drop_last(), h).push(sorted.last())
    }
}

/// Insertion sort of hooks by order, ascending; equal orders keep their
/// relative position.
pub open spec fn spec_sort_hooks(hooks: Seq<HookModel>) -> Seq<HookModel>
    decreases hooks.len(),
{
    if hooks.len() == 0 {
        Seq::empty()
    } else {
        spec_insert_hook(spec_sort_hooks(hooks.drop_last()), hooks.last())
    }
}

/// Inserting at the position `at` that the exec search finds is what
/// `spec_insert_hook` does.
proof fn lemma_insert_hook_at(s: Seq<HookModel>, h: HookModel, at: int)
    requires
        0 <= at <= s.len(),
        at > 0 ==> s[at - 1].order <= h.order,
        forall|j: int| at <= j < s.len() ==> #[trigger] s[j].order > h.order,
    ensures
        spec_insert_hook(s, h) =~= s.take(at).push(h) + s.skip(at),
    decreases s.len(),
{
    if at == s.len() {
        if s.len() == 0 {
            assert(spec_insert_hook(s, h) =~= s.take(at).push(h) + s.skip(at));
        } else {
            assert(s.last().order <= h.order);
            assert(s.take(at) =~= s);
            assert(spec_insert_hook(s, h) =~= s.take(at).push(h) + s.skip(at));
        }
    } else {
        assert(s[s.len() - 1].order > h.order);
        let rest = s.drop_last();
        assert(forall|j: int| at <= j < rest.len() ==> #[trigger] rest[j].order > h.order);
        if at > 0 {
            assert(rest[at - 1] == s[at - 1]);
        }
        lemma_insert_hook_at(rest, h, at);
        assert(rest.take(at) =~= s.take(at));
        assert(spec_insert_hook(s, h) =~= (rest.take(at).push(h) + rest.skip(at)).push(s.last()));
        assert((rest.take(at).push(h) + rest.skip(at)).push(s.last()) =~= s.take(at).push(h)
            + s.skip(at));
    }
}

/// Inserts one hook into an already sorted list, behind its equals.
fn insert_hook(out: &mut Vec<HookDefinition>, h: HookDefinition)
    ensures
        final(out).deep_view() == spec_insert_hook(old(out).deep_view(), h.deep_view()),
{
    let mut at: usize = out.len();
    while at > 0 && out[at - 1].order > h.order
        invariant
            0 <= at <= out@.len(),
            forall|j: int| at <= j < out@.len() ==> #[trigger] out@[j].order > h.order,
        decreases at,
    {
        at = at - 1;
    }
    proof {
        assert(forall|j: int|
            at <= j < out@.len() ==> #[trigger] out.deep_view()[j].order > h.deep_view().order);
        if at > 0 {
            assert(out.deep_view()[at - 1].order <= h.deep_view().order);
        }
        lemma_insert_hook_at(out.deep_view(), h.deep_view(), at as int);
    }
    let ghost before = out.deep_view();
    out.insert(at, h);
    proof {
        assert forall|j: int| 0 <= j < out@.len() implies out.deep_view()[j] == (before.take(
            at as int,
        ).push(h.deep_view()) + before.skip(at as int))[j] by {
            if j < at {
            } else if j == at {
            } else {
            }
        }
        assert(out.deep_view() =~= before.take(at as int).push(h.deep_view()) + before.skip(
            at as int,
        ));
    }
}

/// Sorts hooks by order, ascending, keeping registration order among equal
/// orders.
fn sort_hooks(hooks: Vec<HookDefinition>) -> (r: Vec<HookDefinition>)
    ensures
        r.deep_view() == spec_sort_hooks(hooks.deep_view()),
{
    let ghost input = hooks.deep_view();
    let mut rest = hooks;
    let total = rest.len();
    proof {
        assert(input.len() == total);
    }
    let mut out: Vec<HookDefinition> = Vec::new();
    proof {
        assert(input.take(0) =~= Seq::<HookModel>::empty());
    }
    let mut i: usize = 0;
    while rest.len() > 0
        invariant
            input.len() == total,
            i + rest@.len() == input.len(),
            rest.deep_view() =~= input.skip(i as int),
            out.deep_view() == spec_sort_hooks(input.take(i as int)),
        decreases rest@.len(),
    {
        let ghost pre = rest.deep_view();
        let ghost pre_raw = rest@;
        let h = rest.remove(0);
        proof {
            assert(pre.len() == pre_raw.len());
            assert(pre[0] == pre_raw[0].deep_view());
            assert(h.deep_view() == input[i as int]);
            assert forall|j: int| 0 <= j < rest@.len() implies rest.deep_view()[j] == input.skip(
                i as int + 1,
            )[j] by {
                assert(rest@[j] == pre_raw[j + 1]);
                assert(pre[j + 1] == input.skip(i as int)[j + 1]);
            }
            assert(rest.deep_view() =~= input.skip(i as int + 1));
            assert(input.take(i as int + 1).drop_last() =~= input.take(i as int));
            assert(input.take(i as int + 1).last() == input[i as int]);
        }
        insert_hook(&mut out, h);
        i = i + 1;
    }
    proof {
        assert(input.take(input.len() as int) =~= input);
    }
    out
}

/// `e` identifies a descriptor in `defs` whose tag expression is not a
/// sentence of the tag expression language.
pub open spec fn names_failing_hook(e: GlueError, defs: Seq<StaticHookModel>) -> bool {
    exists|i: int|
        0 <= i < defs.len() && spec_parse_tag_expression(
            #[trigger] defs[i].tag_expression,
        ) is None && e.hook_name@ == defs[i].name && e.tag_expression@ == defs[i].tag_expression
}

/// Parses the tag expression of every hook in `hooks`; fails on the first
/// descriptor whose expression is not a sentence of the language.
fn build_hooks(hooks: &Vec<StaticHookDef>) -> (r: Result<Vec<HookDefinition>, GlueError>)
    ensures
        (r is Ok) == all_tag_expressions_parse(hooks.deep_view()),
        r matches Ok(hs) ==> hs.deep_view() =~= parsed_hooks(hooks.deep_view()),
        r matches Err(e) ==> names_failing_hook(e, hooks.deep_view()),
{
    let mut out: Vec<HookDefinition> = Vec::new();
    let mut i: usize = 0;
    while i < hooks.len()
        invariant
            0 <= i <= hooks@.len(),
            out@.len() == i,
            forall|j: int|
                0 <= j < i ==> #[trigger] spec_parse_tag_expression(
                    hooks.deep_view()[j].tag_expression,
                ) is Some,
            forall|j: int|
                0 <= j < i ==> #[trigger] out.deep_view()[j] == parsed_hooks(hooks.deep_view())[j],
        decreases hooks@.len() - i,
    {
        let h = &hooks[i];
        match parse_tag_expression(h.tag_expression.as_str()) {
            None => {
                let e = GlueError {
                    hook_name: h.name.clone(),
                    tag_expression: h.tag_expression.clone(),
                };
                proof {
                    assert(spec_parse_tag_expression(hooks.deep_view()[i as int].tag_expression)
                        is None);
                    assert(!all_tag_expressions_parse(hooks.deep_view()));
                }
                return Err(e);
            },
            Some(expr) => {
                let ghost prev = out.deep_view();
                out.push(
                    HookDefinition {
                        name: h.name.clone(),
                        order: h.order,
                        tag_expression: h.tag_expression.clone(),
                        tag_expr: expr,
                        location: h.location.clone_loc(),
                    },
                );
                proof {
                    assert forall|j: int| 0 <= j < i + 1 implies #[trigger] out.deep_view()[j]
                        == parsed_hooks(hooks.deep_view())[j] by {
                        if j < i {
                            assert(out.deep_view()[j] == prev[j]);
                        } else {
                            assert(out.deep_view()[j] == out@[j].deep_view());
                        }
                    }
                }
            },
        }
        i = i + 1;
    }
    Ok(out)
}

/// The hook descriptors with their tag expressions parsed, in registration
/// order.
pub open spec fn parsed_hooks(defs: Seq<StaticHookModel>) -> Seq<HookModel> {
    Seq::new(
        defs.len(),
        |i: int|
            HookModel {
                name: defs[i].name,
                order: defs[i].order,
                tag_expression: defs[i].tag_expression,
                tag_expr: spec_parse_tag_expression(defs[i].tag_expression).unwrap(),
                location: defs[i].location,
            },
    )
}

/// What the glue built from `defs` holds for one hook kind: the descriptors
/// with their tag expressions parsed, sorted by order.
pub open spec fn spec_built_hooks(defs: Seq<StaticHookModel>) -> Seq<HookModel> {
    spec_sort_hooks(parsed_hooks(defs))
}

/// Every tag expression in `defs` is a sentence of the tag expression
/// language.
pub open spec fn all_tag_expressions_parse(defs: Seq<StaticHookModel>) -> bool {
    forall|i: int|
        0 <= i < defs.len() ==> #[trigger] spec_parse_tag_expression(defs[i].tag_expression)
            is Some
}

impl Glue {
    /// Builds the registry from the static descriptors: parses every
    /// hook's tag expression and sorts each hook list by order, ascending,
    /// ties keeping registration order.  Fails exactly when some hook's tag
    /// expression is not a sentence of the tag expression language.
    pub fn new(defs: StaticGlueDefinitions) -> (r: Result<Glue, GlueError>)
        ensures
            (r is Ok) == {
                &&& all_tag_expressions_parse(defs.before_scenario_hooks.deep_view())
                &&& all_tag_expressions_parse(defs.before_step_hooks.deep_view())
                &&& all_tag_expressions_parse(defs.after_step_hooks.deep_view())
                &&& all_tag_expressions_parse(defs.after_scenario_hooks.deep_view())
            },
            r matches Err(e) ==> names_failing_hook(e, defs.before_scenario_hooks.deep_view())
                || names_failing_hook(e, defs.before_step_hooks.deep_view())
                || names_failing_hook(e, defs.after_step_hooks.deep_view())
                || names_failing_hook(e, defs.after_scenario_hooks.deep_view()),
            r matches Ok(g) ==> {
                &&& g.steps.deep_view() == defs.steps.deep_view()
                &&& g.before_scenario_hooks.deep_view() == spec_built_hooks(
                    defs.before_scenario_hooks.deep_view(),
                )
                &&& g.before_step_hooks.deep_view() == spec_built_hooks(
                    defs.before_step_hooks.deep_view(),
                )
                &&& g.after_step_hooks.deep_view() == spec_built_hooks(
                    defs.after_step_hooks.deep_view(),
                )
                &&& g.after_scenario_hooks.deep_view() == spec_built_hooks(
                    defs.after_scenario_hooks.deep_view(),
                )
            },
    {
        let StaticGlueDefinitions {
            before_scenario_hooks,
            before_step_hooks,
            after_step_hooks,
            after_scenario_hooks,
            steps,
        } = defs;
        let built_bs = match build_hooks(&before_scenario_hooks) {
            Ok(hs) => hs,
            Err(e) => {
                return Err(e);
            },
        };
        let built_bt = match build_hooks(&before_step_hooks) {
            Ok(hs) => hs,
            Err(e) => {
                return Err(e);
            },
        };
        let built_at = match build_hooks(&after_step_hooks) {
            Ok(hs) => hs,
            Err(e) => {
                return Err(e);
            },
        };
        let built_asc = match build_hooks(&after_scenario_hooks) {
            Ok(hs) => hs,
            Err(e) => {
                return Err(e);
            },
        };
        Ok(
            Glue {
                steps,
                before_scenario_hooks: sort_hooks(built_bs),
                before_step_hooks: sort_hooks(built_bt),
                after_step_hooks: sort_hooks(built_at),
                after_scenario_hooks: sort_hooks(built_asc),
            },
        )
    }
}

} // verus!
