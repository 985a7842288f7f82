//! Evaluation over HTTP: what the server answers to a request.
//!
//! The server hands over what it received: whether the request was a POST,
//! its path and its body. The path names the pattern, with `/` where the name
//! has `::`; the body holds the input as a JSON document.

use crate::eval::{
    depth_of, evaluated, is_match, law_self_contained_evaluates_alike, seen, self_contained,
    world_evaluated, OutcomeModel,
};
use crate::function::Function;
use crate::json::{json_parsed, read_model, read_value, NotJson};
use crate::names::NameModel;
use crate::plan::plain_context;
use crate::runtime::{ContextModel, EvalContext, RuntimeErrorModel, World, WorldModel};
use crate::text::{has_prefix, replace, replaced};
use crate::types::TypeModel;
use crate::value::{RuntimeValue, ValueModel};
use vstd::prelude::*;
use vstd::string::*;

verus! {

/// What an answer holds.
pub enum ReplyModel {
    Accepted,
    NotAcceptable,
    InternalServerError,
    BadRequest(Seq<char>),
}

/// The answer to a request, by its HTTP status.
#[derive(Debug, PartialEq, Eq)]
pub enum Reply {
    /// 200: the input matches the pattern.
    Accepted,
    /// 406: the input does not match, or the request was no POST.
    NotAcceptable,
    /// 500: the evaluation failed.
    InternalServerError,
    /// 400, with this message: the body holds no JSON document.
    BadRequest(String),
}

impl View for Reply {
    type V = ReplyModel;

    open spec fn view(&self) -> ReplyModel {
        match self {
            Reply::Accepted => ReplyModel::Accepted,
            Reply::NotAcceptable => ReplyModel::NotAcceptable,
            Reply::InternalServerError => ReplyModel::InternalServerError,
            Reply::BadRequest(message) => ReplyModel::BadRequest(message@),
        }
    }
}

/// The name of the pattern that a path asks for: the path without its first
/// character, with `::` in place of each `/`.
pub open spec fn pattern_at(path: Seq<char>) -> Seq<char> {
    replaced(path.skip(1), "/"@, "::"@)
}

/// The answer to a request, given what its body was read as.
pub open spec fn answer<F: Function>(
    world: WorldModel<F>,
    is_post: bool,
    path: Seq<char>,
    input: Result<ValueModel, NotJson>,
) -> ReplyModel {
    answer_within(world, is_post, path, input, plain_context())
}

/// The answer to a request whose pattern is evaluated in `context`, given
/// what its body was read as.
pub open spec fn answer_within<F: Function>(
    world: WorldModel<F>,
    is_post: bool,
    path: Seq<char>,
    input: Result<ValueModel, NotJson>,
    context: ContextModel,
) -> ReplyModel {
    if !is_post {
        ReplyModel::NotAcceptable
    } else {
        match input {
            Err(_) => ReplyModel::BadRequest("Unable to parse POST'd input "@ + path),
            Ok(value) => match world_evaluated(world, pattern_at(path), value, context) {
                Ok(outcome) => if outcome.matched {
                    ReplyModel::Accepted
                } else {
                    ReplyModel::NotAcceptable
                },
                Err(_) => ReplyModel::InternalServerError,
            },
        }
    }
}

/// Whether a path begins with a slash.
pub open spec fn begins_with_slash(path: Seq<char>) -> bool {
    path.len() > 0 && path[0] == '/'
}

/// Whether a request can be answered: the path of a POST whose body holds a
/// document must begin with a slash; every other request can be answered
/// whatever its path.
pub open spec fn answerable(is_post: bool, path: Seq<char>, input: Result<ValueModel, NotJson>) -> bool {
    is_post && input is Ok ==> begins_with_slash(path)
}

/// Tells whether `path` begins with a slash.
pub fn starts_with_slash(path: &str) -> (r: bool)
    ensures
        r == begins_with_slash(path@),
{
    let r = has_prefix(path, "/");
    proof {
        reveal_strlit("/");
        if path@.len() > 0 {
            assert(path@.subrange(0, 1)[0] == path@[0]);
            if path@[0] == '/' {
                assert(path@.subrange(0, 1) =~= "/"@);
            }
        }
    }
    r
}

/// Answers a request whose body was read as `input`.
pub fn respond<F: Function>(
    world: &World<F>,
    is_post: bool,
    path: &str,
    input: Result<RuntimeValue, NotJson>,
) -> (r: Reply)
    requires
        answerable(is_post, path@, read_model(input)),
    ensures
        r@ == answer(world@, is_post, path@, read_model(input)),
{
    let context = EvalContext::default();
    respond_within(world, is_post, path, input, &context)
}

/// Answers a request whose body was read as `input`, with the pattern
/// evaluated in `context`.
pub fn respond_within<F: Function>(
    world: &World<F>,
    is_post: bool,
    path: &str,
    input: Result<RuntimeValue, NotJson>,
    context: &EvalContext,
) -> (r: Reply)
    requires
        answerable(is_post, path@, read_model(input)),
    ensures
        r@ == answer_within(world@, is_post, path@, read_model(input), context@),
{
    if !is_post {
        return Reply::NotAcceptable;
    }
    match input {
        Ok(value) => {
            let rest = path.substring_char(1, path.unicode_len());
            proof {
                reveal_strlit("/");
                assert(rest@ =~= path@.skip(1));
            }
            let pattern = replace(rest, "/", "::");
            match world.evaluate(&pattern, &value, context) {
                Ok(outcome) => if outcome.matches() {
                    Reply::Accepted
                } else {
                    Reply::NotAcceptable
                },
                Err(_) => Reply::InternalServerError,
            }
        },
        Err(_) => {
            let mut message = String::from_str("Unable to parse POST'd input ");
            message.append(path);
            Reply::BadRequest(message)
        },
    }
}

/// Answers a request with this body. The request must be one that can be
/// answered.
pub fn evaluate<F: Function>(world: &World<F>, is_post: bool, path: &str, body: &[u8]) -> (r: Reply)
    requires
        answerable(is_post, path@, read_value(json_parsed(body@))),
    ensures
        r@ == answer(world@, is_post, path@, read_value(json_parsed(body@))),
{
    respond(world, is_post, path, RuntimeValue::from_json(body))
}

/// Answers a request with this body, if it can be answered.
pub fn try_evaluate<F: Function>(world: &World<F>, is_post: bool, path: &str, body: &[u8]) -> (r:
    Option<Reply>)
    ensures
        match r {
            Some(reply) => answerable(is_post, path@, read_value(json_parsed(body@))) && reply@
                == answer(world@, is_post, path@, read_value(json_parsed(body@))),
            None => !answerable(is_post, path@, read_value(json_parsed(body@))),
        },
{
    if starts_with_slash(path) {
        Some(evaluate(world, is_post, path, body))
    } else if !is_post {
        Some(Reply::NotAcceptable)
    } else {
        let input = RuntimeValue::from_json(body);
        if input.is_err() {
            Some(respond(world, is_post, path, input))
        } else {
            None
        }
    }
}

/// What a side `ty` of the pattern `key` makes of the input, where the
/// pattern is what was asked for.
pub open spec fn side_evaluated<F: Function>(
    world: WorldModel<F>,
    key: Seq<char>,
    ty: TypeModel,
    input: ValueModel,
    context: ContextModel,
) -> Result<OutcomeModel, RuntimeErrorModel> {
    evaluated(
        world,
        ty,
        input,
        seq![context.bindings],
        seq![(key, input)],
        (depth_of(context) - 1) as nat,
        context,
    )
}

/// Whether a pattern that is asked for matches is whether its type does.
proof fn lemma_asked_pattern<F: Function>(
    world: WorldModel<F>,
    key: Seq<char>,
    body: TypeModel,
    input: ValueModel,
    context: ContextModel,
)
    requires
        world.type_of(key) == Some(body),
        !context.cancelled,
        depth_of(context) > 0,
    ensures
        is_match(world_evaluated(world, key, input, context)) == is_match(
            side_evaluated(world, key, body, input, context),
        ),
        world_evaluated(world, key, input, context) is Ok <==> side_evaluated(
            world,
            key,
            body,
            input,
            context,
        ) is Ok,
{
    let name = NameModel { package: None, name: key };
    assert(name.type_str() == key);
    assert(!seen(Seq::empty(), key, input));
    assert(Seq::<(Seq<char>, ValueModel)>::empty().push((key, input)) =~= seq![(key, input)]);
}

/// Once the cancellation signal is set, or where the deadline leaves no
/// step, a POST with a document for a body is answered with an internal
/// error: the pattern is not evaluated.
pub proof fn law_cancelled_request<F: Function>(
    world: WorldModel<F>,
    path: Seq<char>,
    value: ValueModel,
    context: ContextModel,
)
    requires
        context.cancelled || context.deadline == Some(0u64),
    ensures
        answer_within(world, true, path, Ok(value), context) == ReplyModel::InternalServerError,
        world_evaluated(world, pattern_at(path), value, context) is Err,
        world.defines(pattern_at(path)) ==> world_evaluated(
            world,
            pattern_at(path),
            value,
            context,
        ) == Err::<OutcomeModel, RuntimeErrorModel>(RuntimeErrorModel::Cancelled),
{
    let key = pattern_at(path);
    let name = NameModel { package: None, name: key };
    assert(name.type_str() == key);
    assert(!seen(Seq::empty(), key, value));
}

/// Two worlds that hold the two sides of a join in either order under one
/// name give the same answer to the same request, where no side fails and
/// each side matches in one world exactly if it does in the other.
pub proof fn law_swapped_join_is_answered_alike<F: Function>(
    one: WorldModel<F>,
    other: WorldModel<F>,
    is_post: bool,
    path: Seq<char>,
    value: ValueModel,
    left: TypeModel,
    right: TypeModel,
)
    requires
        one.type_of(pattern_at(path)) == Some(TypeModel::Join(Box::new(left), Box::new(right))),
        other.type_of(pattern_at(path)) == Some(TypeModel::Join(Box::new(right), Box::new(left))),
        sides_alike(one, other, pattern_at(path), left, value),
        sides_alike(one, other, pattern_at(path), right, value),
    ensures
        answer(one, is_post, path, Ok(value)) == answer(other, is_post, path, Ok(value)),
        answer(one, true, path, Ok(value)) == ReplyModel::Accepted <==> (is_match(
            side_evaluated(one, pattern_at(path), left, value, plain_context()),
        ) || is_match(side_evaluated(one, pattern_at(path), right, value, plain_context()))),
{
    let key = pattern_at(path);
    let context = plain_context();
    lemma_asked_pattern(one, key, TypeModel::Join(Box::new(left), Box::new(right)), value, context);
    lemma_asked_pattern(
        other,
        key,
        TypeModel::Join(Box::new(right), Box::new(left)),
        value,
        context,
    );
}

/// Two worlds that hold the two sides of a meet in either order under one
/// name give the same answer to the same request, where no side fails and
/// each side matches in one world exactly if it does in the other: the
/// request is accepted exactly where both sides match.
pub proof fn law_swapped_meet_is_answered_alike<F: Function>(
    one: WorldModel<F>,
    other: WorldModel<F>,
    is_post: bool,
    path: Seq<char>,
    value: ValueModel,
    left: TypeModel,
    right: TypeModel,
)
    requires
        one.type_of(pattern_at(path)) == Some(TypeModel::Meet(Box::new(left), Box::new(right))),
        other.type_of(pattern_at(path)) == Some(TypeModel::Meet(Box::new(right), Box::new(left))),
        sides_alike(one, other, pattern_at(path), left, value),
        sides_alike(one, other, pattern_at(path), right, value),
    ensures
        answer(one, is_post, path, Ok(value)) == answer(other, is_post, path, Ok(value)),
        answer(one, true, path, Ok(value)) == ReplyModel::Accepted <==> (is_match(
            side_evaluated(one, pattern_at(path), left, value, plain_context()),
        ) && is_match(side_evaluated(one, pattern_at(path), right, value, plain_context()))),
{
    let key = pattern_at(path);
    let context = plain_context();
    lemma_asked_pattern(one, key, TypeModel::Meet(Box::new(left), Box::new(right)), value, context);
    lemma_asked_pattern(
        other,
        key,
        TypeModel::Meet(Box::new(right), Box::new(left)),
        value,
        context,
    );
}

/// Whether the side `ty` of the pattern `key` fails in neither world, and
/// matches in one exactly if it does in the other.
pub open spec fn sides_alike<F: Function>(
    one: WorldModel<F>,
    other: WorldModel<F>,
    key: Seq<char>,
    ty: TypeModel,
    value: ValueModel,
) -> bool {
    &&& side_evaluated(one, key, ty, value, plain_context()) is Ok
    &&& side_evaluated(other, key, ty, value, plain_context()) is Ok
    &&& is_match(side_evaluated(one, key, ty, value, plain_context())) == is_match(
        side_evaluated(other, key, ty, value, plain_context()),
    )
}

/// A side that stands on its own and does not fail in one world is alike in
/// both.
pub proof fn law_self_contained_sides_are_alike<F: Function>(
    one: WorldModel<F>,
    other: WorldModel<F>,
    key: Seq<char>,
    ty: TypeModel,
    value: ValueModel,
)
    requires
        self_contained(ty),
        side_evaluated(one, key, ty, value, plain_context()) is Ok,
    ensures
        sides_alike(one, other, key, ty, value),
{
    let context = plain_context();
    let environment = seq![context.bindings];
    let visited = seq![(key, value)];
    let depth = (depth_of(context) - 1) as nat;
    law_self_contained_evaluates_alike(
        one,
        other,
        ty,
        value,
        (environment, environment),
        (visited, visited),
        (depth, depth),
        context,
    );
}

/// Where a request for a refinement is accepted, so is the same request for
/// its base, if the world holds the base under a name and the base matches
/// under that name where it matches as the base of the refinement.
pub proof fn law_refinement_answer_subsumes<F: Function>(
    world: WorldModel<F>,
    refined: Seq<char>,
    plain: Seq<char>,
    value: ValueModel,
    base: TypeModel,
    predicate: TypeModel,
)
    requires
        world.type_of(pattern_at(refined)) == Some(
            TypeModel::Refinement(Box::new(base), Box::new(predicate)),
        ),
        world.type_of(pattern_at(plain)) == Some(base),
        answer(world, true, refined, Ok(value)) == ReplyModel::Accepted,
        is_match(side_evaluated(world, pattern_at(refined), base, value, plain_context()))
            ==> is_match(side_evaluated(world, pattern_at(plain), base, value, plain_context())),
    ensures
        answer(world, true, plain, Ok(value)) == ReplyModel::Accepted,
{
    let context = plain_context();
    lemma_asked_pattern(
        world,
        pattern_at(refined),
        TypeModel::Refinement(Box::new(base), Box::new(predicate)),
        value,
        context,
    );
    lemma_asked_pattern(world, pattern_at(plain), base, value, context);
}

/// Where a request for a refinement is accepted, so is the same request for
/// its base, if the world holds the base under a name and the base stands
/// on its own.
pub proof fn law_refinement_answer_subsumes_self_contained<F: Function>(
    world: WorldModel<F>,
    refined: Seq<char>,
    plain: Seq<char>,
    value: ValueModel,
    base: TypeModel,
    predicate: TypeModel,
)
    requires
        world.type_of(pattern_at(refined)) == Some(
            TypeModel::Refinement(Box::new(base), Box::new(predicate)),
        ),
        world.type_of(pattern_at(plain)) == Some(base),
        answer(world, true, refined, Ok(value)) == ReplyModel::Accepted,
        self_contained(base),
    ensures
        answer(world, true, plain, Ok(value)) == ReplyModel::Accepted,
{
    let context = plain_context();
    let environment = seq![context.bindings];
    let depth = (depth_of(context) - 1) as nat;
    law_self_contained_evaluates_alike(
        world,
        world,
        base,
        value,
        (environment, environment),
        (seq![(pattern_at(refined), value)], seq![(pattern_at(plain), value)]),
        (depth, depth),
        context,
    );
    law_refinement_answer_subsumes(world, refined, plain, value, base, predicate);
}

} // verus!
