use seedwing_policy::eval::{EvaluationResult, TraceEntry, Visited};
use seedwing_policy::function::{Function, FunctionPackage};
use seedwing_policy::lang::{CompilationUnit, Location, TypeDefinition};
use seedwing_policy::linker::Linker;
use seedwing_policy::names::{PackagePath, TypeName};
use seedwing_policy::runtime::{Environment, EvalContext, RuntimeError, World};
use seedwing_policy::types::{Expr, Field, Operator, PrimordialType, Type};
use seedwing_policy::value::{Decimal, Output, RuntimeValue};
use std::sync::Arc;

enum Native {
    Reachable,
    Refuse,
    Fail,
    Wrap,
}

impl Function for Native {
    fn call(
        &self,
        input: &RuntimeValue,
        _bindings: &Environment,
        _context: &EvalContext,
    ) -> Result<Output, RuntimeError> {
        match self {
            Native::Reachable => Ok(Output::Transform(RuntimeValue::Object(vec![(
                "host".to_string(),
                input.clone(),
            )]))),
            Native::Refuse => Ok(Output::Nothing),
            Native::Fail => Err(RuntimeError::ExpressionEvaluation("no network".to_string())),
            Native::Wrap => Ok(Output::Transform(RuntimeValue::List(vec![input.clone()]))),
        }
    }
}

fn text(s: &str) -> String {
    s.to_string()
}

fn whole(i: i64) -> RuntimeValue {
    RuntimeValue::Integer(i)
}

fn string(s: &str) -> RuntimeValue {
    RuntimeValue::String(text(s))
}

fn object(members: Vec<(&str, RuntimeValue)>) -> RuntimeValue {
    RuntimeValue::Object(members.into_iter().map(|(k, v)| (text(k), v)).collect())
}

fn named(path: &str, leaf: &str) -> Type {
    Type::Ref(PackagePath::from(path).name_for(text(leaf)))
}

fn bare(name: &str) -> Type {
    Type::Ref(TypeName::new(None, text(name)))
}

fn built_in(name: &str) -> Type {
    named("", name)
}

fn required(name: &str, ty: Type) -> Field {
    Field { name: text(name), ty, optional: false }
}

fn optional(name: &str, ty: Type) -> Field {
    Field { name: text(name), ty, optional: true }
}

fn join(left: Type, right: Type) -> Type {
    Type::Join(Box::new(left), Box::new(right))
}

fn meet(left: Type, right: Type) -> Type {
    Type::Meet(Box::new(left), Box::new(right))
}

fn refine(base: Type, predicate: Type) -> Type {
    Type::Refinement(Box::new(base), Box::new(predicate))
}

fn less_than(limit: i64) -> Type {
    Type::Expr(Expr::Binary(
        Operator::LessThan,
        Box::new(Expr::SelfLiteral),
        Box::new(Expr::Value(whole(limit))),
    ))
}

fn world(types: Vec<(&str, &str, Type)>) -> World<Native> {
    let mut world = World::new();
    for (path, leaf, ty) in types {
        world.define(&PackagePath::from(path).name_for(text(leaf)), ty).expect("defined");
    }
    for (leaf, native) in [
        ("reachable", Native::Reachable),
        ("refuse", Native::Refuse),
        ("fail", Native::Fail),
        ("wrap", Native::Wrap),
    ] {
        world
            .define_function(&PackagePath::from("net").name_for(text(leaf)), native)
            .expect("defined");
    }
    world
}

fn run(world: &World<Native>, pattern: &str, input: &RuntimeValue) -> EvaluationResult {
    match world.evaluate(&text(pattern), input, &EvalContext::default()) {
        Ok(result) => result,
        Err(error) => panic!("the evaluation failed: {:?}", error),
    }
}

fn check(ty: Type, input: &RuntimeValue) -> Result<EvaluationResult, RuntimeError> {
    world(vec![("t", "T", ty)]).evaluate(&text("t::T"), input, &EvalContext::default())
}

fn matches(ty: Type, input: &RuntimeValue) -> bool {
    check(ty, input).expect("evaluated").matches()
}

fn output(ty: Type, input: &RuntimeValue) -> Output {
    check(ty, input).expect("evaluated").output
}

fn samples() -> Vec<RuntimeValue> {
    vec![
        RuntimeValue::Null,
        RuntimeValue::Boolean(true),
        whole(0),
        whole(-5),
        RuntimeValue::Decimal(Decimal::from_bits(2.5f64.to_bits())),
        string(""),
        string("x"),
        RuntimeValue::List(vec![whole(1), string("a")]),
        object(vec![("k", whole(1))]),
    ]
}

#[test]
fn primordial_integer_match() {
    let world = world(vec![("foo", "Small", refine(built_in("int"), less_than(10)))]);
    let small = run(&world, "foo::Small", &whole(7));
    assert!(small.matches());
    assert_eq!(small.raw_output(), &Output::Identity);
    let large = run(&world, "foo::Small", &whole(42));
    assert!(!large.matches());
    assert_eq!(large.raw_output(), &Output::Nothing);
    assert!(!run(&world, "foo::Small", &whole(10)).matches());
    assert!(run(&world, "foo::Small", &whole(9)).matches());
    assert!(!run(&world, "foo::Small", &string("7")).matches());
}

#[test]
fn object_with_optional_field() {
    let person = Type::Object(vec![
        required("name", built_in("string")),
        optional("age", built_in("int")),
    ]);
    let world = world(vec![("foo", "Person", person)]);
    assert!(run(&world, "foo::Person", &object(vec![("name", string("A"))])).matches());
    assert!(!run(&world, "foo::Person", &object(vec![("name", string("A")), ("age", string("x"))])).matches());
    assert!(!run(&world, "foo::Person", &object(Vec::new())).matches());
    assert!(run(&world, "foo::Person", &object(vec![("name", string("A")), ("age", whole(3))])).matches());
    assert!(run(&world, "foo::Person", &object(vec![("name", string("A")), ("more", whole(3))])).matches());
    assert!(!run(&world, "foo::Person", &string("A")).matches());
    assert_eq!(
        run(&world, "foo::Person", &object(vec![("name", string("A"))])).output,
        Output::Identity
    );
}

#[test]
fn join_with_transform() {
    let world = world(vec![("", "T", join(Type::Const(whole(1)), Type::Const(whole(2))))]);
    let one = run(&world, "T", &whole(1));
    assert!(one.matches());
    assert_eq!(one.output, Output::Identity);
    assert!(run(&world, "T", &whole(2)).matches());
    let three = run(&world, "T", &whole(3));
    assert!(!three.matches());
    assert_eq!(three.output, Output::Nothing);
}

#[test]
fn mutual_recursion() {
    let mut unit = CompilationUnit::new(text("pkg"));
    unit.add_type(TypeDefinition::new(
        text("List"),
        Location { file: text("list.dog"), start: 0, end: 1 },
        join(
            Type::Const(RuntimeValue::Null),
            Type::Object(vec![required("head", bare("int")), required("tail", bare("List"))]),
        ),
    ));
    let world: Arc<World<Native>> = match Linker::new(vec![unit], Vec::new()).link() {
        Ok(world) => world,
        Err(errors) => panic!("the link failed: {:?}", errors),
    };
    let good = object(vec![
        ("head", whole(1)),
        ("tail", object(vec![("head", whole(2)), ("tail", RuntimeValue::Null)])),
    ]);
    let bad = object(vec![
        ("head", whole(1)),
        ("tail", object(vec![("head", string("x")), ("tail", RuntimeValue::Null)])),
    ]);
    let context = EvalContext::default();
    assert!(world.evaluate(&text("pkg::List"), &good, &context).expect("evaluated").matches());
    assert!(!world.evaluate(&text("pkg::List"), &bad, &context).expect("evaluated").matches());
    assert!(world.evaluate(&text("pkg::List"), &RuntimeValue::Null, &context).expect("evaluated").matches());
}

#[test]
fn native_function() {
    let mut package = FunctionPackage::new();
    assert!(package.register(text("reachable"), Native::Reachable));
    let world = match Linker::new(Vec::new(), vec![(PackagePath::from("net"), package)]).link() {
        Ok(world) => world,
        Err(errors) => panic!("the link failed: {:?}", errors),
    };
    let result = world
        .evaluate(&text("net::reachable"), &string("example.org"), &EvalContext::default())
        .expect("evaluated");
    assert!(result.matches());
    assert_eq!(
        result.output,
        Output::Transform(object(vec![("host", string("example.org"))]))
    );
}

#[test]
fn a_native_function_is_reached_through_a_reference_and_as_a_built_in_atom() {
    let world = world(vec![
        ("t", "ByName", named("net", "wrap")),
        ("t", "Atom", Type::Primordial(PrimordialType::Function(PackagePath::from("net").name_for(text("wrap"))))),
        ("t", "Gone", Type::Primordial(PrimordialType::Function(PackagePath::from("net").name_for(text("gone"))))),
    ]);
    assert_eq!(run(&world, "t::ByName", &whole(1)).output, Output::Transform(RuntimeValue::List(vec![whole(1)])));
    assert_eq!(run(&world, "t::Atom", &whole(1)).output, Output::Transform(RuntimeValue::List(vec![whole(1)])));
    assert_eq!(
        world.evaluate(&text("t::Gone"), &whole(1), &EvalContext::default()),
        Err(RuntimeError::NoSuchType(text("net::gone")))
    );
}

#[test]
fn a_native_function_without_a_value_does_not_match() {
    let world = world(Vec::new());
    let result = run(&world, "net::refuse", &whole(1));
    assert!(!result.matches());
    assert_eq!(result.output, Output::Nothing);
}

#[test]
fn the_error_of_a_native_function_is_wrapped_with_its_name() {
    let world = world(vec![("t", "T", join(named("net", "fail"), Type::Anything))]);
    let expected = RuntimeError::NativeFunctionError(
        text("net::fail"),
        Box::new(RuntimeError::ExpressionEvaluation(text("no network"))),
    );
    assert_eq!(world.evaluate(&text("net::fail"), &whole(1), &EvalContext::default()), Err(expected.clone()));
    assert_eq!(world.evaluate(&text("t::T"), &whole(1), &EvalContext::default()), Err(expected));
}

#[test]
fn a_name_that_the_world_does_not_hold_is_no_such_type() {
    let world = world(vec![("t", "T", named("t", "Missing"))]);
    assert_eq!(
        world.evaluate(&text("t::Nope"), &whole(1), &EvalContext::default()),
        Err(RuntimeError::NoSuchType(text("t::Nope")))
    );
    assert_eq!(
        world.evaluate(&text("t::T"), &whole(1), &EvalContext::default()),
        Err(RuntimeError::NoSuchType(text("t::Missing")))
    );
}

#[test]
fn every_value_of_a_built_in_kind_matches_its_type_with_identity() {
    let world = world(Vec::new());
    let decimal = RuntimeValue::Decimal(Decimal::from_bits(0.25f64.to_bits()));
    for (pattern, input) in [
        ("int", whole(3)),
        ("decimal", decimal.clone()),
        ("decimal", whole(3)),
        ("string", string("s")),
        ("boolean", RuntimeValue::Boolean(false)),
    ] {
        let result = run(&world, pattern, &input);
        assert!(result.matches());
        assert_eq!(result.output, Output::Identity);
    }
    assert!(!run(&world, "int", &decimal).matches());
    assert!(!run(&world, "int", &string("3")).matches());
    assert!(!run(&world, "string", &whole(3)).matches());
    assert!(!run(&world, "boolean", &RuntimeValue::Null).matches());
    assert!(!run(&world, "decimal", &string("0.25")).matches());
}

#[test]
fn anything_matches_everything_and_nothing_matches_nothing() {
    for input in samples() {
        let any = check(Type::Anything, &input).expect("evaluated");
        assert!(any.matches());
        assert_eq!(any.output, Output::Identity);
        let none = check(Type::Nothing, &input).expect("evaluated");
        assert!(!none.matches());
        assert_eq!(none.output, Output::Nothing);
    }
}

#[test]
fn whether_a_join_or_a_meet_matches_does_not_depend_on_the_order() {
    let sides = || {
        vec![
            built_in("int"),
            built_in("string"),
            Type::Const(whole(0)),
            Type::Anything,
            Type::Nothing,
            Type::List(Box::new(Type::Anything)),
        ]
    };
    for input in samples() {
        for (i, a) in sides().into_iter().enumerate() {
            for (j, b) in sides().into_iter().enumerate() {
                let (a2, b2) = (sides().remove(i), sides().remove(j));
                let (a3, b3) = (sides().remove(i), sides().remove(j));
                let (a4, b4) = (sides().remove(i), sides().remove(j));
                let both = matches(sides().remove(i), &input) && matches(sides().remove(j), &input);
                let either = matches(sides().remove(i), &input) || matches(sides().remove(j), &input);
                assert_eq!(matches(join(a.clone(), b.clone()), &input), matches(join(b2, a2), &input));
                assert_eq!(matches(join(a3.clone(), b3.clone()), &input), either);
                assert_eq!(matches(meet(a3, b3), &input), matches(meet(b4.clone(), a4.clone()), &input));
                assert_eq!(matches(meet(a4, b4), &input), both);
            }
        }
    }
}

#[test]
fn what_matches_a_refinement_matches_its_base() {
    for input in samples() {
        for limit in [-10, 0, 1] {
            if matches(refine(built_in("int"), less_than(limit)), &input) {
                assert!(matches(built_in("int"), &input));
            }
        }
    }
    assert!(matches(refine(built_in("int"), less_than(0)), &whole(-5)));
    assert!(!matches(refine(built_in("int"), less_than(0)), &whole(0)));
}

#[test]
fn a_join_stops_at_the_first_side_that_matches() {
    assert_eq!(output(join(Type::Anything, named("net", "wrap")), &whole(1)), Output::Identity);
    assert_eq!(
        output(join(named("net", "wrap"), Type::Anything), &whole(1)),
        Output::Transform(RuntimeValue::List(vec![whole(1)]))
    );
    assert_eq!(output(join(Type::Anything, named("net", "fail")), &whole(1)), Output::Identity);
    assert_eq!(
        output(join(Type::Nothing, named("net", "wrap")), &whole(1)),
        Output::Transform(RuntimeValue::List(vec![whole(1)]))
    );
}

#[test]
fn a_meet_hands_back_the_new_value_of_its_right_side_first() {
    let wrapped = Output::Transform(RuntimeValue::List(vec![whole(1)]));
    let host = Output::Transform(object(vec![("host", whole(1))]));
    assert_eq!(output(meet(Type::Anything, built_in("int")), &whole(1)), Output::Identity);
    assert_eq!(output(meet(named("net", "wrap"), Type::Anything), &whole(1)), wrapped);
    assert_eq!(output(meet(Type::Anything, named("net", "wrap")), &whole(1)), wrapped);
    assert_eq!(output(meet(named("net", "wrap"), named("net", "reachable")), &whole(1)), host);
    assert_eq!(output(meet(named("net", "reachable"), named("net", "wrap")), &whole(1)), wrapped);
    assert_eq!(output(meet(named("net", "wrap"), Type::Nothing), &whole(1)), Output::Nothing);
    assert_eq!(output(meet(Type::Nothing, named("net", "fail")), &whole(1)), Output::Nothing);
}

#[test]
fn a_refinement_checks_what_its_base_hands_back() {
    let list_of_int = Type::List(Box::new(built_in("int")));
    assert_eq!(
        output(refine(named("net", "wrap"), list_of_int), &whole(1)),
        Output::Transform(RuntimeValue::List(vec![whole(1)]))
    );
    assert!(!matches(refine(named("net", "wrap"), built_in("int")), &whole(1)));
    assert_eq!(
        output(refine(built_in("int"), named("net", "wrap")), &whole(1)),
        Output::Transform(RuntimeValue::List(vec![whole(1)]))
    );
    assert_eq!(
        output(refine(named("net", "wrap"), named("net", "wrap")), &whole(1)),
        Output::Transform(RuntimeValue::List(vec![RuntimeValue::List(vec![whole(1)])]))
    );
    assert!(!matches(refine(Type::Nothing, named("net", "fail")), &whole(1)));
}

#[test]
fn an_object_puts_new_values_in_place_of_its_members() {
    let ty = Type::Object(vec![
        required("a", built_in("int")),
        required("b", named("net", "wrap")),
        optional("c", named("net", "wrap")),
    ]);
    assert_eq!(
        output(ty, &object(vec![("a", whole(1)), ("b", whole(2)), ("z", whole(3))])),
        Output::Transform(object(vec![
            ("a", whole(1)),
            ("b", RuntimeValue::List(vec![whole(2)])),
            ("z", whole(3)),
        ]))
    );
}

#[test]
fn a_list_matches_where_every_item_does() {
    let ints = || Type::List(Box::new(built_in("int")));
    assert!(matches(ints(), &RuntimeValue::List(vec![whole(1), whole(2)])));
    assert!(matches(ints(), &RuntimeValue::List(Vec::new())));
    assert!(!matches(ints(), &RuntimeValue::List(vec![whole(1), string("x")])));
    assert!(!matches(ints(), &whole(1)));
    assert_eq!(output(ints(), &RuntimeValue::List(vec![whole(1)])), Output::Identity);
    let mixed = Type::List(Box::new(join(built_in("string"), named("net", "wrap"))));
    assert_eq!(
        output(mixed, &RuntimeValue::List(vec![string("s"), whole(2)])),
        Output::Transform(RuntimeValue::List(vec![string("s"), RuntimeValue::List(vec![whole(2)])]))
    );
}

#[test]
fn a_constant_matches_the_values_equal_to_it() {
    let one = RuntimeValue::Decimal(Decimal::from_bits(1.0f64.to_bits()));
    assert!(matches(Type::Const(whole(1)), &whole(1)));
    assert!(matches(Type::Const(whole(1)), &one));
    assert!(matches(Type::Const(one), &whole(1)));
    assert!(!matches(Type::Const(whole(1)), &whole(2)));
    assert!(!matches(Type::Const(whole(1)), &string("1")));
    assert!(matches(Type::Const(RuntimeValue::Null), &RuntimeValue::Null));
}

#[test]
fn an_argument_is_looked_up_in_the_bindings() {
    let generic = Type::List(Box::new(Type::Argument(text("T"))));
    let world = world(vec![
        ("t", "Many", generic),
        ("t", "Ints", Type::Bound(Box::new(named("t", "Many")), vec![(text("T"), built_in("int"))])),
        ("t", "Nested", Type::Bound(
            Box::new(Type::Bound(Box::new(Type::Argument(text("T"))), vec![(text("U"), built_in("string"))])),
            vec![(text("T"), built_in("int"))],
        )),
        ("t", "Inner", Type::Bound(
            Box::new(Type::Bound(Box::new(Type::Argument(text("T"))), vec![(text("T"), built_in("string"))])),
            vec![(text("T"), built_in("int"))],
        )),
    ]);
    assert!(run(&world, "t::Ints", &RuntimeValue::List(vec![whole(1)])).matches());
    assert!(!run(&world, "t::Ints", &RuntimeValue::List(vec![string("x")])).matches());
    assert!(run(&world, "t::Nested", &whole(1)).matches());
    assert!(run(&world, "t::Inner", &string("s")).matches());
    assert!(!run(&world, "t::Inner", &whole(1)).matches());
    assert_eq!(
        world.evaluate(&text("t::Many"), &RuntimeValue::List(vec![whole(1)]), &EvalContext::default()),
        Err(RuntimeError::UnboundArgument(text("T")))
    );
    let seeded = EvalContext {
        tracing: false,
        deadline: None,
        cancelled: false,
        bindings: vec![(text("T"), built_in("string"))],
    };
    assert!(world.evaluate(&text("t::Many"), &RuntimeValue::List(vec![string("x")]), &seeded).expect("evaluated").matches());
}

#[test]
fn an_expression_must_give_a_truth_value() {
    let truth = |e: Expr, input: &RuntimeValue| check(Type::Expr(e), input);
    let lit = |v: RuntimeValue| Box::new(Expr::Value(v));
    let me = || Box::new(Expr::SelfLiteral);
    assert_eq!(
        truth(Expr::SelfLiteral, &whole(1)),
        Err(RuntimeError::ExpressionEvaluation(text("expression is not a truth value")))
    );
    assert!(truth(Expr::SelfLiteral, &RuntimeValue::Boolean(true)).expect("evaluated").matches());
    assert_eq!(
        truth(Expr::Binary(Operator::LessThan, me(), lit(whole(1))), &string("a")),
        Err(RuntimeError::ExpressionEvaluation(text("operands cannot be ordered")))
    );
    assert_eq!(
        truth(Expr::Not(me()), &whole(1)),
        Err(RuntimeError::ExpressionEvaluation(text("operand is not a truth value")))
    );
    assert!(truth(Expr::Not(Box::new(Expr::Binary(Operator::Equal, me(), lit(whole(1))))), &whole(2)).expect("evaluated").matches());
    assert!(truth(Expr::Binary(Operator::LessThanEqual, me(), lit(whole(1))), &whole(1)).expect("evaluated").matches());
    assert!(!truth(Expr::Binary(Operator::GreaterThan, me(), lit(whole(1))), &whole(1)).expect("evaluated").matches());
    assert!(truth(Expr::Binary(Operator::GreaterThanEqual, me(), lit(whole(1))), &whole(1)).expect("evaluated").matches());
    assert!(truth(Expr::Binary(Operator::NotEqual, me(), lit(string("a"))), &whole(1)).expect("evaluated").matches());
    let small = Box::new(Expr::Binary(Operator::LessThan, me(), lit(whole(10))));
    let positive = Box::new(Expr::Binary(Operator::GreaterThan, me(), lit(whole(0))));
    assert!(truth(Expr::Binary(Operator::LogicalAnd, small.clone(), positive.clone()), &whole(5)).expect("evaluated").matches());
    assert!(!truth(Expr::Binary(Operator::LogicalAnd, small.clone(), positive.clone()), &whole(-5)).expect("evaluated").matches());
    assert!(truth(Expr::Binary(Operator::LogicalOr, small.clone(), positive.clone()), &whole(50)).expect("evaluated").matches());
    assert!(truth(Expr::Binary(Operator::LogicalOr, Box::new(Expr::Value(RuntimeValue::Boolean(true))), me()), &whole(1)).expect("evaluated").matches());
    assert!(!truth(Expr::Binary(Operator::LogicalAnd, Box::new(Expr::Value(RuntimeValue::Boolean(false))), me()), &whole(1)).expect("evaluated").matches());
}

#[test]
fn a_cancelled_context_gives_cancelled_at_once() {
    let world = world(vec![("t", "T", Type::Anything)]);
    let cancelled = EvalContext { tracing: false, deadline: None, cancelled: true, bindings: Vec::new() };
    for pattern in ["t::T", "int", "net::fail", "nowhere"] {
        assert_eq!(world.evaluate(&text(pattern), &whole(1), &cancelled), Err(RuntimeError::Cancelled));
    }
    assert_eq!(
        world.eval(&Type::Anything, &whole(1), &Environment::Empty, &Visited::Start, 5, &cancelled),
        Err(RuntimeError::Cancelled)
    );
}

#[test]
fn a_deadline_that_is_used_up_gives_cancelled() {
    let world = world(vec![
        ("t", "A", named("t", "B")),
        ("t", "B", named("t", "C")),
        ("t", "C", Type::Anything),
    ]);
    let within = |deadline: u64| EvalContext { tracing: false, deadline: Some(deadline), cancelled: false, bindings: Vec::new() };
    assert_eq!(world.evaluate(&text("t::A"), &whole(1), &within(0)), Err(RuntimeError::Cancelled));
    assert_eq!(world.evaluate(&text("t::A"), &whole(1), &within(2)), Err(RuntimeError::Cancelled));
    assert!(world.evaluate(&text("t::A"), &whole(1), &within(3)).expect("evaluated").matches());
    assert!(world.evaluate(&text("t::C"), &whole(1), &within(1)).expect("evaluated").matches());
}

#[test]
fn a_type_that_is_entered_again_with_its_input_does_not_match() {
    let world = world(vec![
        ("t", "Loop", named("t", "Loop")),
        ("t", "Ping", named("t", "Pong")),
        ("t", "Pong", join(built_in("string"), named("t", "Ping"))),
    ]);
    assert!(!run(&world, "t::Loop", &whole(1)).matches());
    assert!(!run(&world, "t::Ping", &whole(1)).matches());
    assert!(run(&world, "t::Ping", &string("s")).matches());
    let tracing = EvalContext { tracing: true, deadline: None, cancelled: false, bindings: Vec::new() };
    let result = world.evaluate(&text("t::Loop"), &whole(1), &tracing).expect("evaluated");
    assert_eq!(
        result.trace,
        vec![
            TraceEntry {
                pattern: text("t::Loop"),
                matched: false,
                diagnostic: Some(RuntimeError::CyclicSelfReference(text("t::Loop"))),
            },
            TraceEntry { pattern: text("t::Loop"), matched: false, diagnostic: None },
        ]
    );
}

#[test]
fn a_trace_is_kept_only_where_it_is_asked_for() {
    let world = world(vec![("t", "T", join(built_in("string"), named("net", "wrap")))]);
    assert!(run(&world, "t::T", &whole(1)).trace().is_empty());
    let tracing = EvalContext { tracing: true, deadline: None, cancelled: false, bindings: Vec::new() };
    let result = world.evaluate(&text("t::T"), &whole(1), &tracing).expect("evaluated");
    assert_eq!(
        result.trace,
        vec![
            TraceEntry { pattern: text("string"), matched: false, diagnostic: None },
            TraceEntry { pattern: text("net::wrap"), matched: true, diagnostic: None },
            TraceEntry { pattern: text("t::T"), matched: true, diagnostic: None },
        ]
    );
}

#[test]
fn evaluating_twice_gives_the_same_and_leaves_the_input() {
    let world = world(vec![("t", "T", Type::Object(vec![required("a", named("net", "wrap"))]))]);
    let input = object(vec![("a", whole(1)), ("b", string("x"))]);
    let copy = input.clone();
    let first = world.evaluate(&text("t::T"), &input, &EvalContext::default());
    let second = world.evaluate(&text("t::T"), &input, &EvalContext::default());
    assert_eq!(first, second);
    assert_eq!(input, copy);
    assert_eq!(
        first.expect("evaluated").output,
        Output::Transform(object(vec![("a", RuntimeValue::List(vec![whole(1)])), ("b", string("x"))]))
    );
}

#[test]
fn the_default_context_asks_for_nothing() {
    let context = EvalContext::default();
    assert_eq!(
        context,
        EvalContext { tracing: false, deadline: None, cancelled: false, bindings: Vec::new() }
    );
}

#[test]
fn a_deadline_that_is_used_up_stops_a_native_function() {
    let world = world(vec![("t", "ByName", named("net", "wrap")), ("t", "Atom", Type::Primordial(
        PrimordialType::Function(PackagePath::from("net").name_for(text("wrap"))),
    ))]);
    let within = |deadline: u64| EvalContext { tracing: false, deadline: Some(deadline), cancelled: false, bindings: Vec::new() };
    assert_eq!(world.evaluate(&text("net::wrap"), &whole(1), &within(0)), Err(RuntimeError::Cancelled));
    assert!(world.evaluate(&text("net::wrap"), &whole(1), &within(1)).expect("evaluated").matches());
    assert_eq!(world.evaluate(&text("net::fail"), &whole(1), &within(0)), Err(RuntimeError::Cancelled));
    assert_eq!(world.evaluate(&text("t::ByName"), &whole(1), &within(1)), Err(RuntimeError::Cancelled));
    assert!(world.evaluate(&text("t::ByName"), &whole(1), &within(2)).expect("evaluated").matches());
    assert_eq!(world.evaluate(&text("t::Atom"), &whole(1), &within(1)), Err(RuntimeError::Cancelled));
    assert!(world.evaluate(&text("t::Atom"), &whole(1), &within(2)).expect("evaluated").matches());
    assert_eq!(world.evaluate(&text("nowhere"), &whole(1), &within(0)), Err(RuntimeError::NoSuchType(text("nowhere"))));
}

#[test]
fn a_constant_object_matches_whatever_the_order_of_the_members() {
    let constant = Type::Const(object(vec![("a", whole(1)), ("b", whole(2))]));
    assert!(matches(constant.clone(), &object(vec![("b", whole(2)), ("a", whole(1))])));
    assert!(!matches(constant, &object(vec![("b", whole(1)), ("a", whole(2))])));
}
