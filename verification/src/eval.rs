//! The evaluator: what a type makes of an input.
//!
//! Evaluation walks the type. Where the type names another, the evaluation
//! goes on with what the world holds under that name; so that this ends, it
//! counts how many names deep it is, and it does not enter a named type
//! again with an input that it is already being evaluated against.

use crate::expr::expr_value;
use crate::function::Function;
use crate::names::{NameModel, TypeName};
use crate::runtime::{
    bound_type, ContextModel, Environment, EnvironmentModel, EvalContext, RuntimeError,
    RuntimeErrorModel, World, WorldModel,
};
use crate::table::{find, index_of, keys, names};
use crate::types::{
    fields_view, Field, FieldModel, PrimordialModel, PrimordialType, Type,
    TypeModel,
};
use crate::value::{
    items_view, members_view, same_value, Output, OutputModel, RuntimeValue, ValueModel,
};
use vstd::prelude::*;
use vstd::string::*;

verus! {

/// What an entry of a trace holds.
pub struct TraceEntryModel {
    pub pattern: Seq<char>,
    pub matched: bool,
    pub diagnostic: Option<RuntimeErrorModel>,
}

/// One step of an evaluation: the named pattern that was evaluated, whether
/// the input matched it, and a diagnostic where there is something to say.
#[derive(Debug, PartialEq, Eq)]
pub struct TraceEntry {
    pub pattern: String,
    pub matched: bool,
    pub diagnostic: Option<RuntimeError>,
}

impl View for TraceEntry {
    type V = TraceEntryModel;

    open spec fn view(&self) -> TraceEntryModel {
        TraceEntryModel {
            pattern: self.pattern@,
            matched: self.matched,
            diagnostic: match self.diagnostic {
                Some(error) => Some(error@),
                None => None,
            },
        }
    }
}

/// What each entry of `trace` holds.
pub open spec fn trace_view(trace: Seq<TraceEntry>) -> Seq<TraceEntryModel> {
    Seq::new(trace.len(), |i: int| trace[i]@)
}

/// What the result of an evaluation holds.
pub struct OutcomeModel {
    pub matched: bool,
    pub output: OutputModel,
    pub trace: Seq<TraceEntryModel>,
}

/// The result of an evaluation: whether the input matched, what the pattern
/// hands back, and the trace, which is empty unless one was asked for.
#[derive(Debug, PartialEq)]
pub struct EvaluationResult {
    pub matched: bool,
    pub output: Output,
    pub trace: Vec<TraceEntry>,
}

impl View for EvaluationResult {
    type V = OutcomeModel;

    open spec fn view(&self) -> OutcomeModel {
        OutcomeModel { matched: self.matched, output: self.output@, trace: trace_view(self.trace@) }
    }
}

impl EvaluationResult {
    /// Tells whether the input matched.
    pub fn matches(&self) -> (r: bool)
        ensures
            r == self@.matched,
    {
        self.matched
    }

    /// What the pattern hands back.
    pub fn raw_output(&self) -> (r: &Output)
        ensures
            r@ == self@.output,
    {
        &self.output
    }

    /// The trace of the evaluation.
    pub fn trace(&self) -> (r: &Vec<TraceEntry>)
        ensures
            trace_view(r@) == self@.trace,
    {
        &self.trace
    }
}

/// What an evaluation came to.
pub open spec fn outcome_model(result: Result<EvaluationResult, RuntimeError>) -> Result<
    OutcomeModel,
    RuntimeErrorModel,
> {
    match result {
        Ok(outcome) => Ok(outcome@),
        Err(error) => Err(error@),
    }
}

/// The outcome of a pattern that looks at the input alone: on a match the
/// input passes through; otherwise there is no value.
pub open spec fn atom(matched: bool) -> OutcomeModel {
    OutcomeModel {
        matched,
        output: if matched {
            OutputModel::Identity
        } else {
            OutputModel::Nothing
        },
        trace: Seq::empty(),
    }
}

/// The outcome of a pattern that did not match.
pub open spec fn unmatched(trace: Seq<TraceEntryModel>) -> OutcomeModel {
    OutcomeModel { matched: false, output: OutputModel::Nothing, trace }
}

/// `trace` with `entry` at its end, where a trace was asked for.
pub open spec fn with_entry(
    trace: Seq<TraceEntryModel>,
    context: ContextModel,
    entry: TraceEntryModel,
) -> Seq<TraceEntryModel> {
    if context.tracing {
        trace.push(entry)
    } else {
        trace
    }
}

/// The reason given where an expression gave something other than a truth
/// value.
pub open spec fn not_a_constraint() -> Seq<char> {
    "expression is not a truth value"@
}

/// Whether the named type `key` is being evaluated against `input` already.
pub open spec fn seen(visited: Seq<(Seq<char>, ValueModel)>, key: Seq<char>, input: ValueModel) -> bool
    decreases visited.len(),
{
    if visited.len() == 0 {
        false
    } else {
        (visited.last().0 == key && same_value(visited.last().1, input)) || seen(
            visited.drop_last(),
            key,
            input,
        )
    }
}

/// What a call of the native function `key` comes to: its output is
/// forwarded, and it counts as a match unless there is no value; its error
/// is wrapped with the name.
pub open spec fn called<F: Function>(
    function: F,
    key: Seq<char>,
    input: ValueModel,
    environment: EnvironmentModel,
    context: ContextModel,
) -> Result<OutcomeModel, RuntimeErrorModel> {
    match function.outcome(input, environment, context) {
        Ok(output) => Ok(
            OutcomeModel {
                matched: !(output is Nothing),
                output,
                trace: with_entry(
                    Seq::empty(),
                    context,
                    TraceEntryModel { pattern: key, matched: !(output is Nothing), diagnostic: None },
                ),
            },
        ),
        Err(error) => Err(RuntimeErrorModel::NativeFunctionError(key, Box::new(error))),
    }
}

/// What a call of the native function `key` comes to where the evaluation
/// may still go `depth` deep: a call is a step of its own, so with nothing
/// left the evaluation is cancelled and the function is not called.
pub open spec fn called_within<F: Function>(
    function: F,
    key: Seq<char>,
    input: ValueModel,
    environment: EnvironmentModel,
    depth: nat,
    context: ContextModel,
) -> Result<OutcomeModel, RuntimeErrorModel> {
    if depth == 0 {
        Err(RuntimeErrorModel::Cancelled)
    } else {
        called(function, key, input, environment, context)
    }
}

/// What two outcomes that both matched hand back together: the new value of
/// the right one where it has one, else what the left one hands back.
pub open spec fn combined(left: OutputModel, right: OutputModel) -> OutputModel {
    match right {
        OutputModel::Transform(value) => OutputModel::Transform(value),
        _ => left,
    }
}

/// The value that an outcome passes on: its new value where it has one, else
/// the input.
pub open spec fn passed_on(output: OutputModel, input: ValueModel) -> ValueModel {
    match output {
        OutputModel::Transform(value) => value,
        _ => input,
    }
}

/// How far the evaluation of an object type has come.
pub struct ObjectState {
    pub matched: bool,
    pub members: Seq<(Seq<char>, ValueModel)>,
    pub transformed: bool,
    pub trace: Seq<TraceEntryModel>,
}

/// How far the evaluation of a list type has come.
pub struct ListState {
    pub matched: bool,
    pub items: Seq<ValueModel>,
    pub transformed: bool,
    pub trace: Seq<TraceEntryModel>,
}

/// The outcome of an object type, from the state after its last field.
pub open spec fn object_outcome(state: ObjectState) -> OutcomeModel {
    if !state.matched {
        unmatched(state.trace)
    } else if state.transformed {
        OutcomeModel {
            matched: true,
            output: OutputModel::Transform(ValueModel::Object(state.members)),
            trace: state.trace,
        }
    } else {
        OutcomeModel { matched: true, output: OutputModel::Identity, trace: state.trace }
    }
}

/// The outcome of a list type, from the state after the last item.
pub open spec fn list_outcome(state: ListState) -> OutcomeModel {
    if !state.matched {
        unmatched(state.trace)
    } else if state.transformed {
        OutcomeModel {
            matched: true,
            output: OutputModel::Transform(ValueModel::List(state.items)),
            trace: state.trace,
        }
    } else {
        OutcomeModel { matched: true, output: OutputModel::Identity, trace: state.trace }
    }
}

/// What the type `ty` makes of `input` in `world`.
///
/// `environment` holds the bindings in force, `visited` the named types that
/// are being evaluated with the inputs that they were entered with, and
/// `depth` how many steps deep the evaluation may still go: entering a
/// named type, resolving an argument and calling a native function is a
/// step each. An evaluation that is cancelled, or that would go deeper,
/// comes to `Cancelled`.
pub open spec fn evaluated<F: Function>(
    world: WorldModel<F>,
    ty: TypeModel,
    input: ValueModel,
    environment: EnvironmentModel,
    visited: Seq<(Seq<char>, ValueModel)>,
    depth: nat,
    context: ContextModel,
) -> Result<OutcomeModel, RuntimeErrorModel>
    decreases depth, ty, 0nat,
{
    if context.cancelled {
        Err(RuntimeErrorModel::Cancelled)
    } else {
        match ty {
            TypeModel::Anything => Ok(atom(true)),
            TypeModel::Nothing => Ok(atom(false)),
            TypeModel::Primordial(PrimordialModel::Integer) => Ok(atom(input is Integer)),
            TypeModel::Primordial(PrimordialModel::Decimal) => Ok(
                atom(input is Decimal || input is Integer),
            ),
            TypeModel::Primordial(PrimordialModel::Boolean) => Ok(atom(input is Boolean)),
            TypeModel::Primordial(PrimordialModel::String) => Ok(atom(input is String)),
            TypeModel::Primordial(PrimordialModel::Function(name)) => match world.function_of(
                name.type_str(),
            ) {
                Some(function) => called_within(
                    function,
                    name.type_str(),
                    input,
                    environment,
                    depth,
                    context,
                ),
                None => Err(RuntimeErrorModel::NoSuchType(name.type_str())),
            },
            TypeModel::Const(value) => Ok(atom(same_value(input, value))),
            TypeModel::Object(fields) => match input {
                ValueModel::Object(members) => match evaluated_fields(
                    world,
                    fields,
                    fields.len() as int,
                    members,
                    environment,
                    visited,
                    depth,
                    context,
                ) {
                    Ok(state) => Ok(object_outcome(state)),
                    Err(error) => Err(error),
                },
                _ => Ok(atom(false)),
            },
            TypeModel::List(item) => match input {
                ValueModel::List(items) => match evaluated_items(
                    world,
                    *item,
                    items,
                    items.len() as int,
                    environment,
                    visited,
                    depth,
                    context,
                ) {
                    Ok(state) => Ok(list_outcome(state)),
                    Err(error) => Err(error),
                },
                _ => Ok(atom(false)),
            },
            TypeModel::Join(left, right) => match evaluated(
                world,
                *left,
                input,
                environment,
                visited,
                depth,
                context,
            ) {
                Err(error) => Err(error),
                Ok(first) => if first.matched {
                    Ok(first)
                } else {
                    match evaluated(world, *right, input, environment, visited, depth, context) {
                        Err(error) => Err(error),
                        Ok(second) => Ok(
                            OutcomeModel { trace: first.trace + second.trace, ..second },
                        ),
                    }
                },
            },
            TypeModel::Meet(left, right) => match evaluated(
                world,
                *left,
                input,
                environment,
                visited,
                depth,
                context,
            ) {
                Err(error) => Err(error),
                Ok(first) => if !first.matched {
                    Ok(unmatched(first.trace))
                } else {
                    match evaluated(world, *right, input, environment, visited, depth, context) {
                        Err(error) => Err(error),
                        Ok(second) => if !second.matched {
                            Ok(unmatched(first.trace + second.trace))
                        } else {
                            Ok(
                                OutcomeModel {
                                    matched: true,
                                    output: combined(first.output, second.output),
                                    trace: first.trace + second.trace,
                                },
                            )
                        },
                    }
                },
            },
            TypeModel::Refinement(base, predicate) => match evaluated(
                world,
                *base,
                input,
                environment,
                visited,
                depth,
                context,
            ) {
                Err(error) => Err(error),
                Ok(first) => if !first.matched {
                    Ok(unmatched(first.trace))
                } else {
                    match evaluated(
                        world,
                        *predicate,
                        passed_on(first.output, input),
                        environment,
                        visited,
                        depth,
                        context,
                    ) {
                        Err(error) => Err(error),
                        Ok(second) => if !second.matched {
                            Ok(unmatched(first.trace + second.trace))
                        } else {
                            Ok(
                                OutcomeModel {
                                    matched: true,
                                    output: combined(first.output, second.output),
                                    trace: first.trace + second.trace,
                                },
                            )
                        },
                    }
                },
            },
            TypeModel::Bound(generic, bindings) => evaluated(
                world,
                *generic,
                input,
                seq![bindings] + environment,
                visited,
                depth,
                context,
            ),
            TypeModel::Argument(name) => match bound_type(environment, name) {
                None => Err(RuntimeErrorModel::UnboundArgument(name)),
                Some(bound) => if depth == 0 {
                    Err(RuntimeErrorModel::Cancelled)
                } else {
                    evaluated(
                        world,
                        bound,
                        input,
                        environment,
                        visited,
                        (depth - 1) as nat,
                        context,
                    )
                },
            },
            TypeModel::Expr(expr) => match expr_value(expr, input) {
                Ok(ValueModel::Boolean(b)) => Ok(atom(b)),
                Ok(_) => Err(RuntimeErrorModel::ExpressionEvaluation(not_a_constraint())),
                Err(reason) => Err(RuntimeErrorModel::ExpressionEvaluation(reason)),
            },
            TypeModel::Ref(name) => {
                let key = name.type_str();
                match world.type_of(key) {
                    Some(body) => if seen(visited, key, input) {
                        Ok(
                            unmatched(
                                with_entry(
                                    Seq::empty(),
                                    context,
                                    TraceEntryModel {
                                        pattern: key,
                                        matched: false,
                                        diagnostic: Some(
                                            RuntimeErrorModel::CyclicSelfReference(key),
                                        ),
                                    },
                                ),
                            ),
                        )
                    } else if depth == 0 {
                        Err(RuntimeErrorModel::Cancelled)
                    } else {
                        match evaluated(
                            world,
                            body,
                            input,
                            environment,
                            visited.push((key, input)),
                            (depth - 1) as nat,
                            context,
                        ) {
                            Err(error) => Err(error),
                            Ok(inner) => Ok(
                                OutcomeModel {
                                    trace: with_entry(
                                        inner.trace,
                                        context,
                                        TraceEntryModel {
                                            pattern: key,
                                            matched: inner.matched,
                                            diagnostic: None,
                                        },
                                    ),
                                    ..inner
                                },
                            ),
                        }
                    },
                    None => match world.function_of(key) {
                        Some(function) => called_within(
                            function,
                            key,
                            input,
                            environment,
                            depth,
                            context,
                        ),
                        None => Err(RuntimeErrorModel::NoSuchType(key)),
                    },
                }
            },
        }
    }
}

/// The state of an object type after its first `k` fields. A field that the
/// input lacks must be optional; one that it has must match, against the
/// member of the input as it was given. A field that hands back a new value
/// has it put in place of the member.
pub open spec fn evaluated_fields<F: Function>(
    world: WorldModel<F>,
    fields: Seq<FieldModel>,
    k: int,
    members: Seq<(Seq<char>, ValueModel)>,
    environment: EnvironmentModel,
    visited: Seq<(Seq<char>, ValueModel)>,
    depth: nat,
    context: ContextModel,
) -> Result<ObjectState, RuntimeErrorModel>
    decreases depth, fields, k,
{
    if 0 < k <= fields.len() {
        match evaluated_fields(world, fields, k - 1, members, environment, visited, depth, context) {
            Err(error) => Err(error),
            Ok(state) => match index_of(keys(members), fields[k - 1].name) {
                None => Ok(
                    ObjectState { matched: state.matched && fields[k - 1].optional, ..state },
                ),
                Some(i) => match evaluated(
                    world,
                    fields[k - 1].ty,
                    members[i].1,
                    environment,
                    visited,
                    depth,
                    context,
                ) {
                    Err(error) => Err(error),
                    Ok(outcome) => Ok(
                        ObjectState {
                            matched: state.matched && outcome.matched,
                            members: match outcome.output {
                                OutputModel::Transform(value) => state.members.update(
                                    i,
                                    (fields[k - 1].name, value),
                                ),
                                _ => state.members,
                            },
                            transformed: state.transformed || outcome.output is Transform,
                            trace: state.trace + outcome.trace,
                        },
                    ),
                },
            },
        }
    } else {
        Ok(ObjectState { matched: true, members, transformed: false, trace: Seq::empty() })
    }
}

/// The state of a list type after the first `k` items: every item must
/// match, and each passes on its new value where it has one.
pub open spec fn evaluated_items<F: Function>(
    world: WorldModel<F>,
    item: TypeModel,
    items: Seq<ValueModel>,
    k: int,
    environment: EnvironmentModel,
    visited: Seq<(Seq<char>, ValueModel)>,
    depth: nat,
    context: ContextModel,
) -> Result<ListState, RuntimeErrorModel>
    decreases depth, item, k + 1,
{
    if 0 < k <= items.len() {
        match evaluated_items(world, item, items, k - 1, environment, visited, depth, context) {
            Err(error) => Err(error),
            Ok(state) => match evaluated(
                world,
                item,
                items[k - 1],
                environment,
                visited,
                depth,
                context,
            ) {
                Err(error) => Err(error),
                Ok(outcome) => Ok(
                    ListState {
                        matched: state.matched && outcome.matched,
                        items: state.items.push(passed_on(outcome.output, items[k - 1])),
                        transformed: state.transformed || outcome.output is Transform,
                        trace: state.trace + outcome.trace,
                    },
                ),
            },
        }
    } else {
        Ok(ListState { matched: true, items: Seq::empty(), transformed: false, trace: Seq::empty() })
    }
}

/// How deep an evaluation in this context may go.
pub open spec fn depth_of(context: ContextModel) -> nat {
    match context.deadline {
        Some(deadline) => deadline as nat,
        None => u64::MAX as nat,
    }
}

/// What evaluating the pattern `key` of `world` against `input` comes to. A
/// named type starts with the bindings of the context; a native function is
/// called with no binding.
pub open spec fn world_evaluated<F: Function>(
    world: WorldModel<F>,
    key: Seq<char>,
    input: ValueModel,
    context: ContextModel,
) -> Result<OutcomeModel, RuntimeErrorModel> {
    if context.cancelled {
        Err(RuntimeErrorModel::Cancelled)
    } else if world.type_of(key) is Some {
        evaluated(
            world,
            TypeModel::Ref(NameModel { package: None, name: key }),
            input,
            seq![context.bindings],
            Seq::empty(),
            depth_of(context),
            context,
        )
    } else {
        match world.function_of(key) {
            Some(function) => called_within(
                function,
                key,
                input,
                Seq::empty(),
                depth_of(context),
                context,
            ),
            None => Err(RuntimeErrorModel::NoSuchType(key)),
        }
    }
}

/// The named types that are being evaluated, each with the input that it was
/// entered with, innermost first.
pub enum Visited<'a> {
    /// None yet.
    Start,
    /// One named type and its input, inside those that were entered before.
    Then(&'a String, &'a RuntimeValue, &'a Visited<'a>),
}

/// What a list of visited types holds, outermost first.
pub open spec fn visited_model(visited: Visited<'_>) -> Seq<(Seq<char>, ValueModel)>
    decreases visited,
{
    match visited {
        Visited::Start => Seq::empty(),
        Visited::Then(key, input, rest) => visited_model(*rest).push((key@, input@)),
    }
}

impl<'a> View for Visited<'a> {
    type V = Seq<(Seq<char>, ValueModel)>;

    open spec fn view(&self) -> Seq<(Seq<char>, ValueModel)> {
        visited_model(*self)
    }
}

impl<'a> Visited<'a> {
    /// Tells whether the named type `key` is being evaluated against `input`
    /// already.
    pub fn holds(&self, key: &String, input: &RuntimeValue) -> (r: bool)
        ensures
            r == seen(self@, key@, input@),
        decreases self,
    {
        match self {
            Visited::Start => false,
            Visited::Then(name, value, rest) => {
                proof {
                    assert(self@.drop_last() =~= rest@);
                }
                (**name == *key && value.same(input)) || rest.holds(key, input)
            },
        }
    }
}

/// Once the fields of an object type have come to an error, it stays.
proof fn lemma_fields_error<F: Function>(
    world: WorldModel<F>,
    fields: Seq<FieldModel>,
    k: int,
    n: int,
    members: Seq<(Seq<char>, ValueModel)>,
    environment: EnvironmentModel,
    visited: Seq<(Seq<char>, ValueModel)>,
    depth: nat,
    context: ContextModel,
)
    requires
        0 <= k <= n <= fields.len(),
        evaluated_fields(world, fields, k, members, environment, visited, depth, context) is Err,
    ensures
        evaluated_fields(world, fields, n, members, environment, visited, depth, context)
            == evaluated_fields(world, fields, k, members, environment, visited, depth, context),
    decreases n - k,
{
    if k < n {
        lemma_fields_error(world, fields, k, n - 1, members, environment, visited, depth, context);
    }
}

/// Once the items of a list have come to an error, it stays.
proof fn lemma_items_error<F: Function>(
    world: WorldModel<F>,
    item: TypeModel,
    items: Seq<ValueModel>,
    k: int,
    n: int,
    environment: EnvironmentModel,
    visited: Seq<(Seq<char>, ValueModel)>,
    depth: nat,
    context: ContextModel,
)
    requires
        0 <= k <= n <= items.len(),
        evaluated_items(world, item, items, k, environment, visited, depth, context) is Err,
    ensures
        evaluated_items(world, item, items, n, environment, visited, depth, context)
            == evaluated_items(world, item, items, k, environment, visited, depth, context),
    decreases n - k,
{
    if k < n {
        lemma_items_error(world, item, items, k, n - 1, environment, visited, depth, context);
    }
}

/// The result of a pattern that looks at the input alone.
fn atom_result(matched: bool) -> (r: EvaluationResult)
    ensures
        r@ == atom(matched),
{
    let r = EvaluationResult {
        matched,
        output: if matched {
            Output::Identity
        } else {
            Output::Nothing
        },
        trace: Vec::new(),
    };
    assert(trace_view(r.trace@) =~= Seq::empty());
    r
}

/// The result of a pattern that did not match.
fn unmatched_result(trace: Vec<TraceEntry>) -> (r: EvaluationResult)
    ensures
        r@ == unmatched(trace_view(trace@)),
{
    EvaluationResult { matched: false, output: Output::Nothing, trace }
}

/// Puts the entries of `more` behind those of `trace`.
fn extend_trace(trace: &mut Vec<TraceEntry>, more: Vec<TraceEntry>)
    ensures
        trace_view(final(trace)@) == trace_view(old(trace)@) + trace_view(more@),
{
    let ghost added = more@;
    let mut rest = more;
    trace.append(&mut rest);
    assert(trace_view(trace@) =~= trace_view(old(trace)@) + trace_view(added));
}

/// Puts an entry at the end of `trace`, where a trace was asked for.
fn note(
    trace: &mut Vec<TraceEntry>,
    context: &EvalContext,
    pattern: &String,
    matched: bool,
    diagnostic: Option<RuntimeError>,
)
    ensures
        trace_view(final(trace)@) == with_entry(
            trace_view(old(trace)@),
            context@,
            (TraceEntry { pattern: *pattern, matched, diagnostic })@,
        ),
{
    if context.tracing {
        let entry = TraceEntry { pattern: pattern.clone(), matched, diagnostic };
        trace.push(entry);
        assert(trace_view(trace@) =~= trace_view(old(trace)@).push(entry@));
    }
}

/// A copy of the members of an object.
fn copy_members(members: &Vec<(String, RuntimeValue)>) -> (r: Vec<(String, RuntimeValue)>)
    ensures
        members_view(r@) == members_view(members@),
{
    let mut out: Vec<(String, RuntimeValue)> = Vec::new();
    let mut i: usize = 0;
    while i < members.len()
        invariant
            i <= members.len(),
            out@.len() == i,
            forall|k: int|
                0 <= k < i ==> out@[k].0@ == members@[k].0@ && out@[k].1@ == members@[k].1@,
        decreases members.len() - i,
    {
        out.push((members[i].0.clone(), members[i].1.clone()));
        i += 1;
    }
    assert(members_view(out@) =~= members_view(members@));
    out
}

/// What two outputs of patterns that both matched give together.
fn combine(left: Output, right: Output) -> (r: Output)
    ensures
        r@ == combined(left@, right@),
{
    match right {
        Output::Transform(value) => Output::Transform(value),
        _ => left,
    }
}

/// Calls the native function `key`, unless the evaluation may go no
/// deeper.
fn call_function<F: Function>(
    function: &F,
    key: String,
    input: &RuntimeValue,
    environment: &Environment,
    depth: u64,
    context: &EvalContext,
) -> (r: Result<EvaluationResult, RuntimeError>)
    ensures
        outcome_model(r) == called_within(
            *function,
            key@,
            input@,
            environment@,
            depth as nat,
            context@,
        ),
{
    if depth == 0 {
        return Err(RuntimeError::Cancelled);
    }
    match function.call(input, environment, context) {
        Ok(output) => {
            let matched = match &output {
                Output::Nothing => false,
                _ => true,
            };
            let mut trace: Vec<TraceEntry> = Vec::new();
            assert(trace_view(trace@) =~= Seq::empty());
            note(&mut trace, context, &key, matched, None);
            Ok(EvaluationResult { matched, output, trace })
        },
        Err(error) => Err(RuntimeError::NativeFunctionError(key, Box::new(error))),
    }
}

impl<F: Function> World<F> {
    /// Evaluates the pattern `name` against `input`.
    ///
    /// A context whose cancellation signal is set gives `Cancelled` at once,
    /// and so does one whose deadline leaves no step, for every name that
    /// the world holds. A name that the world does not hold gives
    /// `NoSuchType`.
    pub fn evaluate(&self, name: &String, input: &RuntimeValue, context: &EvalContext) -> (r:
        Result<EvaluationResult, RuntimeError>)
        ensures
            outcome_model(r) == world_evaluated(self@, name@, input@, context@),
            context@.cancelled ==> r == Err::<EvaluationResult, RuntimeError>(
                RuntimeError::Cancelled,
            ),
    {
        if context.cancelled {
            return Err(RuntimeError::Cancelled);
        }
        let depth = match context.deadline {
            Some(deadline) => deadline,
            None => u64::MAX,
        };
        if self.get(name).is_some() {
            let pattern = Type::Ref(TypeName { package: None, name: name.clone() });
            let start = Environment::Empty;
            let environment = Environment::Frame(&context.bindings, &start);
            assert(start@ =~= Seq::empty());
            assert(environment@ =~= seq![context@.bindings]);
            self.eval(&pattern, input, &environment, &Visited::Start, depth, context)
        } else {
            match self.get_function(name) {
                Some(function) => call_function(
                    function,
                    name.clone(),
                    input,
                    &Environment::Empty,
                    depth,
                    context,
                ),
                None => Err(RuntimeError::NoSuchType(name.clone())),
            }
        }
    }

    /// Evaluates `ty` against `input`.
    pub fn eval(
        &self,
        ty: &Type,
        input: &RuntimeValue,
        environment: &Environment,
        visited: &Visited,
        depth: u64,
        context: &EvalContext,
    ) -> (r: Result<EvaluationResult, RuntimeError>)
        ensures
            outcome_model(r) == evaluated(
                self@,
                ty@,
                input@,
                environment@,
                visited@,
                depth as nat,
                context@,
            ),
        decreases depth, ty, 0nat,
    {
        if context.cancelled {
            return Err(RuntimeError::Cancelled);
        }
        match ty {
            Type::Anything => Ok(atom_result(true)),
            Type::Nothing => Ok(atom_result(false)),
            Type::Primordial(kind) => match kind {
                PrimordialType::Integer => Ok(
                    atom_result(
                        match input {
                            RuntimeValue::Integer(_) => true,
                            _ => false,
                        },
                    ),
                ),
                PrimordialType::Decimal => Ok(
                    atom_result(
                        match input {
                            RuntimeValue::Decimal(_) => true,
                            RuntimeValue::Integer(_) => true,
                            _ => false,
                        },
                    ),
                ),
                PrimordialType::Boolean => Ok(
                    atom_result(
                        match input {
                            RuntimeValue::Boolean(_) => true,
                            _ => false,
                        },
                    ),
                ),
                PrimordialType::String => Ok(
                    atom_result(
                        match input {
                            RuntimeValue::String(_) => true,
                            _ => false,
                        },
                    ),
                ),
                PrimordialType::Function(name) => {
                    let key = name.as_type_str();
                    match self.get_function(&key) {
                        Some(function) => call_function(
                            function,
                            key,
                            input,
                            environment,
                            depth,
                            context,
                        ),
                        None => Err(RuntimeError::NoSuchType(key)),
                    }
                },
            },
            Type::Const(value) => Ok(atom_result(input.same(value))),
            Type::Object(fields) => match input {
                RuntimeValue::Object(members) => self.eval_fields(
                    fields,
                    members,
                    environment,
                    visited,
                    depth,
                    context,
                ),
                _ => Ok(atom_result(false)),
            },
            Type::List(item) => match input {
                RuntimeValue::List(items) => self.eval_items(
                    item,
                    items,
                    environment,
                    visited,
                    depth,
                    context,
                ),
                _ => Ok(atom_result(false)),
            },
            Type::Join(left, right) => match self.eval(
                left,
                input,
                environment,
                visited,
                depth,
                context,
            ) {
                Err(error) => Err(error),
                Ok(first) => if first.matched {
                    Ok(first)
                } else {
                    match self.eval(right, input, environment, visited, depth, context) {
                        Err(error) => Err(error),
                        Ok(second) => {
                            let mut trace = first.trace;
                            extend_trace(&mut trace, second.trace);
                            Ok(
                                EvaluationResult {
                                    matched: second.matched,
                                    output: second.output,
                                    trace,
                                },
                            )
                        },
                    }
                },
            },
            Type::Meet(left, right) => match self.eval(
                left,
                input,
                environment,
                visited,
                depth,
                context,
            ) {
                Err(error) => Err(error),
                Ok(first) => if !first.matched {
                    Ok(unmatched_result(first.trace))
                } else {
                    match self.eval(right, input, environment, visited, depth, context) {
                        Err(error) => Err(error),
                        Ok(second) => {
                            let mut trace = first.trace;
                            extend_trace(&mut trace, second.trace);
                            if !second.matched {
                                Ok(unmatched_result(trace))
                            } else {
                                Ok(
                                    EvaluationResult {
                                        matched: true,
                                        output: combine(first.output, second.output),
                                        trace,
                                    },
                                )
                            }
                        },
                    }
                },
            },
            Type::Refinement(base, predicate) => match self.eval(
                base,
                input,
                environment,
                visited,
                depth,
                context,
            ) {
                Err(error) => Err(error),
                Ok(first) => if !first.matched {
                    Ok(unmatched_result(first.trace))
                } else {
                    let checked = {
                        let subject = match &first.output {
                            Output::Transform(value) => value,
                            _ => input,
                        };
                        self.eval(predicate, subject, environment, visited, depth, context)
                    };
                    match checked {
                        Err(error) => Err(error),
                        Ok(second) => {
                            let mut trace = first.trace;
                            extend_trace(&mut trace, second.trace);
                            if !second.matched {
                                Ok(unmatched_result(trace))
                            } else {
                                Ok(
                                    EvaluationResult {
                                        matched: true,
                                        output: combine(first.output, second.output),
                                        trace,
                                    },
                                )
                            }
                        },
                    }
                },
            },
            Type::Bound(generic, bindings) => {
                let frame = Environment::Frame(bindings, environment);
                self.eval(generic, input, &frame, visited, depth, context)
            },
            Type::Argument(name) => match environment.get(name) {
                None => Err(RuntimeError::UnboundArgument(name.clone())),
                Some(bound) => if depth == 0 {
                    Err(RuntimeError::Cancelled)
                } else {
                    self.eval(bound, input, environment, visited, depth - 1, context)
                },
            },
            Type::Expr(expr) => match expr.evaluate(input) {
                Ok(value) => match value.truth() {
                    Some(b) => Ok(atom_result(b)),
                    None => Err(
                        RuntimeError::ExpressionEvaluation(
                            String::from_str("expression is not a truth value"),
                        ),
                    ),
                },
                Err(reason) => Err(RuntimeError::ExpressionEvaluation(reason)),
            },
            Type::Ref(name) => {
                let key = name.as_type_str();
                match self.get(&key) {
                    Some(body) => if visited.holds(&key, input) {
                        let mut trace: Vec<TraceEntry> = Vec::new();
                        assert(trace_view(trace@) =~= Seq::empty());
                        note(
                            &mut trace,
                            context,
                            &key,
                            false,
                            Some(RuntimeError::CyclicSelfReference(key.clone())),
                        );
                        Ok(unmatched_result(trace))
                    } else if depth == 0 {
                        Err(RuntimeError::Cancelled)
                    } else {
                        let inside = Visited::Then(&key, input, visited);
                        match self.eval(body, input, environment, &inside, depth - 1, context) {
                            Err(error) => Err(error),
                            Ok(inner) => {
                                let mut trace = inner.trace;
                                note(&mut trace, context, &key, inner.matched, None);
                                Ok(
                                    EvaluationResult {
                                        matched: inner.matched,
                                        output: inner.output,
                                        trace,
                                    },
                                )
                            },
                        }
                    },
                    None => match self.get_function(&key) {
                        Some(function) => call_function(
                            function,
                            key,
                            input,
                            environment,
                            depth,
                            context,
                        ),
                        None => Err(RuntimeError::NoSuchType(key)),
                    },
                }
            },
        }
    }

    /// Evaluates the fields of an object type against the members of an
    /// object.
    #[verifier::loop_isolation(false)]
    fn eval_fields(
        &self,
        fields: &Vec<Field>,
        members: &Vec<(String, RuntimeValue)>,
        environment: &Environment,
        visited: &Visited,
        depth: u64,
        context: &EvalContext,
    ) -> (r: Result<EvaluationResult, RuntimeError>)
        ensures
            outcome_model(r) == (match evaluated_fields(
                self@,
                fields_view(fields@),
                fields@.len() as int,
                members_view(members@),
                environment@,
                visited@,
                depth as nat,
                context@,
            ) {
                Ok(state) => Ok(object_outcome(state)),
                Err(error) => Err(error),
            }),
        decreases depth, fields, 0nat,
    {
        let mut matched = true;
        let mut transformed = false;
        let mut out = copy_members(members);
        let mut trace: Vec<TraceEntry> = Vec::new();
        assert(trace_view(trace@) =~= Seq::empty());
        proof {
            assert(keys(members_view(members@)) =~= names(members@));
        }
        let mut i: usize = 0;
        while i < fields.len()
            invariant
                i <= fields.len(),
                out@.len() == members@.len(),
                evaluated_fields(
                    self@,
                    fields_view(fields@),
                    i as int,
                    members_view(members@),
                    environment@,
                    visited@,
                    depth as nat,
                    context@,
                ) == Ok::<ObjectState, RuntimeErrorModel>(
                    ObjectState {
                        matched,
                        members: members_view(out@),
                        transformed,
                        trace: trace_view(trace@),
                    },
                ),
            decreases fields.len() - i,
        {
            let field = &fields[i];
            assert(fields_view(fields@)[i as int].ty == field.ty@);
            assert(fields_view(fields@)[i as int].name == field.name@);
            match find(members, &field.name) {
                None => {
                    matched = matched && field.optional;
                },
                Some(j) => {
                    assert(members_view(members@)[j as int].1 == members@[j as int].1@);
                    match self.eval(&field.ty, &members[j].1, environment, visited, depth, context) {
                        Err(error) => {
                            proof {
                                lemma_fields_error(
                                    self@,
                                    fields_view(fields@),
                                    i + 1,
                                    fields@.len() as int,
                                    members_view(members@),
                                    environment@,
                                    visited@,
                                    depth as nat,
                                    context@,
                                );
                            }
                            return Err(error);
                        },
                        Ok(outcome) => {
                            matched = matched && outcome.matched;
                            extend_trace(&mut trace, outcome.trace);
                            match outcome.output {
                                Output::Transform(value) => {
                                    let ghost before = members_view(out@);
                                    transformed = true;
                                    let name = field.name.clone();
                                    out.set(j, (name, value));
                                    assert(members_view(out@) =~= before.update(
                                        j as int,
                                        (field.name@, value@),
                                    ));
                                },
                                _ => {},
                            }
                        },
                    }
                },
            }
            i += 1;
        }
        if !matched {
            Ok(unmatched_result(trace))
        } else if transformed {
            Ok(
                EvaluationResult {
                    matched: true,
                    output: Output::Transform(RuntimeValue::Object(out)),
                    trace,
                },
            )
        } else {
            Ok(EvaluationResult { matched: true, output: Output::Identity, trace })
        }
    }

    /// Evaluates the item type of a list type against the items of a list.
    #[verifier::loop_isolation(false)]
    fn eval_items(
        &self,
        item: &Type,
        items: &Vec<RuntimeValue>,
        environment: &Environment,
        visited: &Visited,
        depth: u64,
        context: &EvalContext,
    ) -> (r: Result<EvaluationResult, RuntimeError>)
        ensures
            outcome_model(r) == (match evaluated_items(
                self@,
                item@,
                items_view(items@),
                items@.len() as int,
                environment@,
                visited@,
                depth as nat,
                context@,
            ) {
                Ok(state) => Ok(list_outcome(state)),
                Err(error) => Err(error),
            }),
        decreases depth, item, 1nat,
    {
        let mut matched = true;
        let mut transformed = false;
        let mut out: Vec<RuntimeValue> = Vec::new();
        let mut trace: Vec<TraceEntry> = Vec::new();
        assert(trace_view(trace@) =~= Seq::empty());
        assert(items_view(out@) =~= Seq::empty());
        let mut i: usize = 0;
        while i < items.len()
            invariant
                i <= items.len(),
                evaluated_items(
                    self@,
                    item@,
                    items_view(items@),
                    i as int,
                    environment@,
                    visited@,
                    depth as nat,
                    context@,
                ) == Ok::<ListState, RuntimeErrorModel>(
                    ListState {
                        matched,
                        items: items_view(out@),
                        transformed,
                        trace: trace_view(trace@),
                    },
                ),
            decreases items.len() - i,
        {
            assert(items_view(items@)[i as int] == items@[i as int]@);
            match self.eval(item, &items[i], environment, visited, depth, context) {
                Err(error) => {
                    proof {
                        lemma_items_error(
                            self@,
                            item@,
                            items_view(items@),
                            i + 1,
                            items@.len() as int,
                            environment@,
                            visited@,
                            depth as nat,
                            context@,
                        );
                    }
                    return Err(error);
                },
                Ok(outcome) => {
                    let ghost before = items_view(out@);
                    matched = matched && outcome.matched;
                    extend_trace(&mut trace, outcome.trace);
                    match outcome.output {
                        Output::Transform(value) => {
                            transformed = true;
                            out.push(value);
                            assert(items_view(out@) =~= before.push(value@));
                        },
                        _ => {
                            out.push(items[i].clone());
                            assert(items_view(out@) =~= before.push(items@[i as int]@));
                        },
                    }
                },
            }
            i += 1;
        }
        if !matched {
            Ok(unmatched_result(trace))
        } else if transformed {
            Ok(
                EvaluationResult {
                    matched: true,
                    output: Output::Transform(RuntimeValue::List(out)),
                    trace,
                },
            )
        } else {
            Ok(EvaluationResult { matched: true, output: Output::Identity, trace })
        }
    }
}

/// Whether an evaluation came to a match.
pub open spec fn is_match(result: Result<OutcomeModel, RuntimeErrorModel>) -> bool {
    match result {
        Ok(outcome) => outcome.matched,
        Err(_) => false,
    }
}

/// A value of a built-in kind matches the built-in type of that kind, and
/// passes through unchanged: an integer matches `int` and `decimal`, a
/// decimal `decimal`, a text `string`, a truth value `boolean`.
pub proof fn law_primordial_identity<F: Function>(
    world: WorldModel<F>,
    input: ValueModel,
    environment: EnvironmentModel,
    visited: Seq<(Seq<char>, ValueModel)>,
    depth: nat,
    context: ContextModel,
)
    requires
        !context.cancelled,
    ensures
        input is Integer ==> evaluated(
            world,
            TypeModel::Primordial(PrimordialModel::Integer),
            input,
            environment,
            visited,
            depth,
            context,
        ) == Ok::<OutcomeModel, RuntimeErrorModel>(atom(true)),
        input is Integer || input is Decimal ==> evaluated(
            world,
            TypeModel::Primordial(PrimordialModel::Decimal),
            input,
            environment,
            visited,
            depth,
            context,
        ) == Ok::<OutcomeModel, RuntimeErrorModel>(atom(true)),
        input is String ==> evaluated(
            world,
            TypeModel::Primordial(PrimordialModel::String),
            input,
            environment,
            visited,
            depth,
            context,
        ) == Ok::<OutcomeModel, RuntimeErrorModel>(atom(true)),
        input is Boolean ==> evaluated(
            world,
            TypeModel::Primordial(PrimordialModel::Boolean),
            input,
            environment,
            visited,
            depth,
            context,
        ) == Ok::<OutcomeModel, RuntimeErrorModel>(atom(true)),
        atom(true).matched && atom(true).output == OutputModel::Identity,
{
}

/// Every input matches `anything` and passes through unchanged; no input
/// matches `nothing`.
pub proof fn law_anything_nothing<F: Function>(
    world: WorldModel<F>,
    input: ValueModel,
    environment: EnvironmentModel,
    visited: Seq<(Seq<char>, ValueModel)>,
    depth: nat,
    context: ContextModel,
)
    ensures
        !context.cancelled ==> evaluated(
            world,
            TypeModel::Anything,
            input,
            environment,
            visited,
            depth,
            context,
        ) == Ok::<OutcomeModel, RuntimeErrorModel>(
            OutcomeModel { matched: true, output: OutputModel::Identity, trace: Seq::empty() },
        ),
        !is_match(
            evaluated(world, TypeModel::Nothing, input, environment, visited, depth, context),
        ),
{
}

/// Whether an input matches a join does not depend on the order of the two
/// sides, as long as no side fails where the other one matches.
pub proof fn law_join_commutes<F: Function>(
    world: WorldModel<F>,
    left: TypeModel,
    right: TypeModel,
    input: ValueModel,
    environment: EnvironmentModel,
    visited: Seq<(Seq<char>, ValueModel)>,
    depth: nat,
    context: ContextModel,
)
    requires
        !(evaluated(world, left, input, environment, visited, depth, context) is Err && is_match(
            evaluated(world, right, input, environment, visited, depth, context),
        )),
        !(evaluated(world, right, input, environment, visited, depth, context) is Err && is_match(
            evaluated(world, left, input, environment, visited, depth, context),
        )),
    ensures
        is_match(
            evaluated(
                world,
                TypeModel::Join(Box::new(left), Box::new(right)),
                input,
                environment,
                visited,
                depth,
                context,
            ),
        ) == is_match(
            evaluated(
                world,
                TypeModel::Join(Box::new(right), Box::new(left)),
                input,
                environment,
                visited,
                depth,
                context,
            ),
        ),
        is_match(
            evaluated(
                world,
                TypeModel::Join(Box::new(left), Box::new(right)),
                input,
                environment,
                visited,
                depth,
                context,
            ),
        ) == (is_match(evaluated(world, left, input, environment, visited, depth, context))
            || is_match(evaluated(world, right, input, environment, visited, depth, context))),
{
}

/// An input matches a meet exactly where it matches both sides, whatever
/// their order.
pub proof fn law_meet_commutes<F: Function>(
    world: WorldModel<F>,
    left: TypeModel,
    right: TypeModel,
    input: ValueModel,
    environment: EnvironmentModel,
    visited: Seq<(Seq<char>, ValueModel)>,
    depth: nat,
    context: ContextModel,
)
    ensures
        is_match(
            evaluated(
                world,
                TypeModel::Meet(Box::new(left), Box::new(right)),
                input,
                environment,
                visited,
                depth,
                context,
            ),
        ) == is_match(
            evaluated(
                world,
                TypeModel::Meet(Box::new(right), Box::new(left)),
                input,
                environment,
                visited,
                depth,
                context,
            ),
        ),
        is_match(
            evaluated(
                world,
                TypeModel::Meet(Box::new(left), Box::new(right)),
                input,
                environment,
                visited,
                depth,
                context,
            ),
        ) == (is_match(evaluated(world, left, input, environment, visited, depth, context))
            && is_match(evaluated(world, right, input, environment, visited, depth, context))),
{
}

/// An input that matches a refinement matches its base.
pub proof fn law_refinement_subsumes<F: Function>(
    world: WorldModel<F>,
    base: TypeModel,
    predicate: TypeModel,
    input: ValueModel,
    environment: EnvironmentModel,
    visited: Seq<(Seq<char>, ValueModel)>,
    depth: nat,
    context: ContextModel,
)
    requires
        is_match(
            evaluated(
                world,
                TypeModel::Refinement(Box::new(base), Box::new(predicate)),
                input,
                environment,
                visited,
                depth,
                context,
            ),
        ),
    ensures
        is_match(evaluated(world, base, input, environment, visited, depth, context)),
{
}

/// Whether an outcome hands back a value exactly where it is a match.
pub open spec fn has_value_iff_matched(outcome: OutcomeModel) -> bool {
    outcome.matched == !(outcome.output is Nothing)
}

/// An evaluation that is a match hands back a value, the input itself or a
/// new one, and one that is no match hands back none.
pub proof fn law_match_has_value<F: Function>(
    world: WorldModel<F>,
    ty: TypeModel,
    input: ValueModel,
    environment: EnvironmentModel,
    visited: Seq<(Seq<char>, ValueModel)>,
    depth: nat,
    context: ContextModel,
)
    ensures
        match evaluated(world, ty, input, environment, visited, depth, context) {
            Ok(outcome) => has_value_iff_matched(outcome),
            Err(_) => true,
        },
    decreases depth, ty,
{
    if !context.cancelled {
        match ty {
            TypeModel::Join(left, right) => {
                law_match_has_value(world, *left, input, environment, visited, depth, context);
                law_match_has_value(world, *right, input, environment, visited, depth, context);
            },
            TypeModel::Meet(left, right) => {
                law_match_has_value(world, *left, input, environment, visited, depth, context);
                law_match_has_value(world, *right, input, environment, visited, depth, context);
            },
            TypeModel::Refinement(base, predicate) => {
                law_match_has_value(world, *base, input, environment, visited, depth, context);
                match evaluated(world, *base, input, environment, visited, depth, context) {
                    Ok(first) => {
                        law_match_has_value(
                            world,
                            *predicate,
                            passed_on(first.output, input),
                            environment,
                            visited,
                            depth,
                            context,
                        );
                    },
                    Err(_) => {},
                }
            },
            TypeModel::Bound(generic, bindings) => {
                law_match_has_value(
                    world,
                    *generic,
                    input,
                    seq![bindings] + environment,
                    visited,
                    depth,
                    context,
                );
            },
            TypeModel::Argument(name) => {
                match bound_type(environment, name) {
                    Some(bound) => {
                        if depth > 0 {
                            law_match_has_value(
                                world,
                                bound,
                                input,
                                environment,
                                visited,
                                (depth - 1) as nat,
                                context,
                            );
                        }
                    },
                    None => {},
                }
            },
            TypeModel::Ref(name) => {
                let key = name.type_str();
                match world.type_of(key) {
                    Some(body) => {
                        if !seen(visited, key, input) && depth > 0 {
                            law_match_has_value(
                                world,
                                body,
                                input,
                                environment,
                                visited.push((key, input)),
                                (depth - 1) as nat,
                                context,
                            );
                        }
                    },
                    None => {},
                }
            },
            _ => {},
        }
    }
}

/// What holds of every evaluation of a pattern of a world: it is a match
/// exactly where it hands back a value.
pub proof fn law_world_match_has_value<F: Function>(
    world: WorldModel<F>,
    key: Seq<char>,
    input: ValueModel,
    context: ContextModel,
)
    ensures
        match world_evaluated(world, key, input, context) {
            Ok(outcome) => has_value_iff_matched(outcome),
            Err(_) => true,
        },
{
    law_match_has_value(
        world,
        TypeModel::Ref(NameModel { package: None, name: key }),
        input,
        seq![context.bindings],
        Seq::empty(),
        depth_of(context),
        context,
    );
}

/// A deadline only cancels: an evaluation that comes to a result within a
/// deadline comes to the same result within every later one.
pub proof fn law_deadline_only_cancels<F: Function>(
    world: WorldModel<F>,
    ty: TypeModel,
    input: ValueModel,
    environment: EnvironmentModel,
    visited: Seq<(Seq<char>, ValueModel)>,
    depth: nat,
    later: nat,
    context: ContextModel,
)
    requires
        depth <= later,
        evaluated(world, ty, input, environment, visited, depth, context) is Ok,
    ensures
        evaluated(world, ty, input, environment, visited, later, context) == evaluated(
            world,
            ty,
            input,
            environment,
            visited,
            depth,
            context,
        ),
    decreases depth, ty, 0nat,
{
    match ty {
        TypeModel::Object(fields) => match input {
            ValueModel::Object(members) => {
                lemma_fields_within(
                    world,
                    fields,
                    fields.len() as int,
                    members,
                    environment,
                    visited,
                    depth,
                    later,
                    context,
                );
            },
            _ => {},
        },
        TypeModel::List(item) => match input {
            ValueModel::List(items) => {
                lemma_items_within(
                    world,
                    *item,
                    items,
                    items.len() as int,
                    environment,
                    visited,
                    depth,
                    later,
                    context,
                );
            },
            _ => {},
        },
        TypeModel::Join(left, right) => {
            law_deadline_only_cancels(
                world,
                *left,
                input,
                environment,
                visited,
                depth,
                later,
                context,
            );
            let first = evaluated(world, *left, input, environment, visited, depth, context);
            if !first->Ok_0.matched {
                law_deadline_only_cancels(
                    world,
                    *right,
                    input,
                    environment,
                    visited,
                    depth,
                    later,
                    context,
                );
            }
        },
        TypeModel::Meet(left, right) => {
            law_deadline_only_cancels(
                world,
                *left,
                input,
                environment,
                visited,
                depth,
                later,
                context,
            );
            let first = evaluated(world, *left, input, environment, visited, depth, context);
            if first->Ok_0.matched {
                law_deadline_only_cancels(
                    world,
                    *right,
                    input,
                    environment,
                    visited,
                    depth,
                    later,
                    context,
                );
            }
        },
        TypeModel::Refinement(base, predicate) => {
            law_deadline_only_cancels(
                world,
                *base,
                input,
                environment,
                visited,
                depth,
                later,
                context,
            );
            let first = evaluated(world, *base, input, environment, visited, depth, context);
            if first->Ok_0.matched {
                law_deadline_only_cancels(
                    world,
                    *predicate,
                    passed_on(first->Ok_0.output, input),
                    environment,
                    visited,
                    depth,
                    later,
                    context,
                );
            }
        },
        TypeModel::Bound(generic, bindings) => {
            law_deadline_only_cancels(
                world,
                *generic,
                input,
                seq![bindings] + environment,
                visited,
                depth,
                later,
                context,
            );
        },
        TypeModel::Argument(name) => match bound_type(environment, name) {
            Some(bound) => {
                law_deadline_only_cancels(
                    world,
                    bound,
                    input,
                    environment,
                    visited,
                    (depth - 1) as nat,
                    (later - 1) as nat,
                    context,
                );
            },
            None => {},
        },
        TypeModel::Ref(name) => {
            let key = name.type_str();
            match world.type_of(key) {
                Some(body) => {
                    if !seen(visited, key, input) {
                        law_deadline_only_cancels(
                            world,
                            body,
                            input,
                            environment,
                            visited.push((key, input)),
                            (depth - 1) as nat,
                            (later - 1) as nat,
                            context,
                        );
                    }
                },
                None => {},
            }
        },
        _ => {},
    }
}

/// `law_deadline_only_cancels`, for the first `k` fields of an object type.
proof fn lemma_fields_within<F: Function>(
    world: WorldModel<F>,
    fields: Seq<FieldModel>,
    k: int,
    members: Seq<(Seq<char>, ValueModel)>,
    environment: EnvironmentModel,
    visited: Seq<(Seq<char>, ValueModel)>,
    depth: nat,
    later: nat,
    context: ContextModel,
)
    requires
        depth <= later,
        0 <= k <= fields.len(),
        evaluated_fields(world, fields, k, members, environment, visited, depth, context) is Ok,
    ensures
        evaluated_fields(world, fields, k, members, environment, visited, later, context)
            == evaluated_fields(world, fields, k, members, environment, visited, depth, context),
    decreases depth, fields, k,
{
    if k > 0 {
        lemma_fields_within(
            world,
            fields,
            k - 1,
            members,
            environment,
            visited,
            depth,
            later,
            context,
        );
        match index_of(keys(members), fields[k - 1].name) {
            Some(i) => {
                law_deadline_only_cancels(
                    world,
                    fields[k - 1].ty,
                    members[i].1,
                    environment,
                    visited,
                    depth,
                    later,
                    context,
                );
            },
            None => {},
        }
    }
}

/// `law_deadline_only_cancels`, for the first `k` items of a list.
proof fn lemma_items_within<F: Function>(
    world: WorldModel<F>,
    item: TypeModel,
    items: Seq<ValueModel>,
    k: int,
    environment: EnvironmentModel,
    visited: Seq<(Seq<char>, ValueModel)>,
    depth: nat,
    later: nat,
    context: ContextModel,
)
    requires
        depth <= later,
        0 <= k <= items.len(),
        evaluated_items(world, item, items, k, environment, visited, depth, context) is Ok,
    ensures
        evaluated_items(world, item, items, k, environment, visited, later, context)
            == evaluated_items(world, item, items, k, environment, visited, depth, context),
    decreases depth, item, k + 1,
{
    if k > 0 {
        lemma_items_within(world, item, items, k - 1, environment, visited, depth, later, context);
        law_deadline_only_cancels(
            world,
            item,
            items[k - 1],
            environment,
            visited,
            depth,
            later,
            context,
        );
    }
}

/// Whether a type stands on its own: it names no type and no function, and
/// holds no argument.
pub open spec fn self_contained(ty: TypeModel) -> bool
    decreases ty, 0nat,
{
    match ty {
        TypeModel::Anything => true,
        TypeModel::Nothing => true,
        TypeModel::Primordial(kind) => !(kind is Function),
        TypeModel::Const(_) => true,
        TypeModel::Expr(_) => true,
        TypeModel::Object(fields) => self_contained_fields(fields, fields.len() as int),
        TypeModel::List(item) => self_contained(*item),
        TypeModel::Join(left, right) => self_contained(*left) && self_contained(*right),
        TypeModel::Meet(left, right) => self_contained(*left) && self_contained(*right),
        TypeModel::Refinement(base, predicate) => self_contained(*base) && self_contained(
            *predicate,
        ),
        TypeModel::Bound(generic, _) => self_contained(*generic),
        TypeModel::Argument(_) => false,
        TypeModel::Ref(_) => false,
    }
}

/// Whether the first `k` fields of an object type stand on their own.
pub open spec fn self_contained_fields(fields: Seq<FieldModel>, k: int) -> bool
    decreases fields, k,
{
    if 0 < k <= fields.len() {
        self_contained_fields(fields, k - 1) && self_contained(fields[k - 1].ty)
    } else {
        true
    }
}

/// What a type that stands on its own makes of an input depends on the type,
/// the input and the context alone: not on the world, not on the bindings,
/// not on what is being evaluated around it, not on the depth left.
pub proof fn law_self_contained_evaluates_alike<F: Function>(
    one: WorldModel<F>,
    other: WorldModel<F>,
    ty: TypeModel,
    input: ValueModel,
    environments: (EnvironmentModel, EnvironmentModel),
    visited: (Seq<(Seq<char>, ValueModel)>, Seq<(Seq<char>, ValueModel)>),
    depths: (nat, nat),
    context: ContextModel,
)
    requires
        self_contained(ty),
    ensures
        evaluated(one, ty, input, environments.0, visited.0, depths.0, context) == evaluated(
            other,
            ty,
            input,
            environments.1,
            visited.1,
            depths.1,
            context,
        ),
    decreases ty, 0nat,
{
    match ty {
        TypeModel::Object(fields) => match input {
            ValueModel::Object(members) => {
                lemma_self_contained_fields(
                    one,
                    other,
                    fields,
                    fields.len() as int,
                    members,
                    environments,
                    visited,
                    depths,
                    context,
                );
            },
            _ => {},
        },
        TypeModel::List(item) => match input {
            ValueModel::List(items) => {
                lemma_self_contained_items(
                    one,
                    other,
                    *item,
                    items,
                    items.len() as int,
                    environments,
                    visited,
                    depths,
                    context,
                );
            },
            _ => {},
        },
        TypeModel::Join(left, right) => {
            law_self_contained_evaluates_alike(
                one,
                other,
                *left,
                input,
                environments,
                visited,
                depths,
                context,
            );
            law_self_contained_evaluates_alike(
                one,
                other,
                *right,
                input,
                environments,
                visited,
                depths,
                context,
            );
        },
        TypeModel::Meet(left, right) => {
            law_self_contained_evaluates_alike(
                one,
                other,
                *left,
                input,
                environments,
                visited,
                depths,
                context,
            );
            law_self_contained_evaluates_alike(
                one,
                other,
                *right,
                input,
                environments,
                visited,
                depths,
                context,
            );
        },
        TypeModel::Refinement(base, predicate) => {
            law_self_contained_evaluates_alike(
                one,
                other,
                *base,
                input,
                environments,
                visited,
                depths,
                context,
            );
            match evaluated(one, *base, input, environments.0, visited.0, depths.0, context) {
                Ok(first) => {
                    law_self_contained_evaluates_alike(
                        one,
                        other,
                        *predicate,
                        passed_on(first.output, input),
                        environments,
                        visited,
                        depths,
                        context,
                    );
                },
                Err(_) => {},
            }
        },
        TypeModel::Bound(generic, bindings) => {
            law_self_contained_evaluates_alike(
                one,
                other,
                *generic,
                input,
                (seq![bindings] + environments.0, seq![bindings] + environments.1),
                visited,
                depths,
                context,
            );
        },
        _ => {},
    }
}

/// `law_self_contained_evaluates_alike`, for the first `k` fields of an
/// object type.
proof fn lemma_self_contained_fields<F: Function>(
    one: WorldModel<F>,
    other: WorldModel<F>,
    fields: Seq<FieldModel>,
    k: int,
    members: Seq<(Seq<char>, ValueModel)>,
    environments: (EnvironmentModel, EnvironmentModel),
    visited: (Seq<(Seq<char>, ValueModel)>, Seq<(Seq<char>, ValueModel)>),
    depths: (nat, nat),
    context: ContextModel,
)
    requires
        0 <= k <= fields.len(),
        self_contained_fields(fields, k),
    ensures
        evaluated_fields(one, fields, k, members, environments.0, visited.0, depths.0, context)
            == evaluated_fields(
            other,
            fields,
            k,
            members,
            environments.1,
            visited.1,
            depths.1,
            context,
        ),
    decreases fields, k,
{
    if k > 0 {
        lemma_self_contained_fields(
            one,
            other,
            fields,
            k - 1,
            members,
            environments,
            visited,
            depths,
            context,
        );
        match index_of(keys(members), fields[k - 1].name) {
            Some(i) => {
                law_self_contained_evaluates_alike(
                    one,
                    other,
                    fields[k - 1].ty,
                    members[i].1,
                    environments,
                    visited,
                    depths,
                    context,
                );
            },
            None => {},
        }
    }
}

/// `law_self_contained_evaluates_alike`, for the first `k` items of a list.
proof fn lemma_self_contained_items<F: Function>(
    one: WorldModel<F>,
    other: WorldModel<F>,
    item: TypeModel,
    items: Seq<ValueModel>,
    k: int,
    environments: (EnvironmentModel, EnvironmentModel),
    visited: (Seq<(Seq<char>, ValueModel)>, Seq<(Seq<char>, ValueModel)>),
    depths: (nat, nat),
    context: ContextModel,
)
    requires
        0 <= k <= items.len(),
        self_contained(item),
    ensures
        evaluated_items(one, item, items, k, environments.0, visited.0, depths.0, context)
            == evaluated_items(
            other,
            item,
            items,
            k,
            environments.1,
            visited.1,
            depths.1,
            context,
        ),
    decreases item, k + 1,
{
    if k > 0 {
        lemma_self_contained_items(
            one,
            other,
            item,
            items,
            k - 1,
            environments,
            visited,
            depths,
            context,
        );
        law_self_contained_evaluates_alike(
            one,
            other,
            item,
            items[k - 1],
            environments,
            visited,
            depths,
            context,
        );
    }
}

/// Two evaluations of the same pattern of the same world against the same
/// input, in the same context, come to the same result.
pub proof fn law_evaluation_repeats<F: Function>(
    world: &World<F>,
    name: Seq<char>,
    input: ValueModel,
    context: ContextModel,
    first: Result<EvaluationResult, RuntimeError>,
    second: Result<EvaluationResult, RuntimeError>,
)
    requires
        outcome_model(first) == world_evaluated(world@, name, input, context),
        outcome_model(second) == world_evaluated(world@, name, input, context),
    ensures
        outcome_model(first) == outcome_model(second),
{
}

/// Once the cancellation signal is set, an evaluation is cancelled before
/// it looks at the type or at the input.
pub proof fn law_cancellation_is_prompt<F: Function>(
    world: WorldModel<F>,
    key: Seq<char>,
    ty: TypeModel,
    input: ValueModel,
    environment: EnvironmentModel,
    visited: Seq<(Seq<char>, ValueModel)>,
    depth: nat,
    context: ContextModel,
)
    requires
        context.cancelled,
    ensures
        world_evaluated(world, key, input, context) == Err::<OutcomeModel, RuntimeErrorModel>(
            RuntimeErrorModel::Cancelled,
        ),
        evaluated(world, ty, input, environment, visited, depth, context) == Err::<
            OutcomeModel,
            RuntimeErrorModel,
        >(RuntimeErrorModel::Cancelled),
{
}

} // verus!
