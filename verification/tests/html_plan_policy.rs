use seedwing_policy::function::Function;
use seedwing_policy::html::Htmlifier;
use seedwing_policy::json::NotJson;
use seedwing_policy::names::{PackagePath, TypeName};
use seedwing_policy::plan::{
    le_text, Candidate, CaseFiles, Expected, Test, TestCase, TestError, TestPlan, TestResult,
};
use seedwing_policy::policy::{
    evaluate, respond, respond_within, starts_with_slash, try_evaluate, Reply,
};
use seedwing_policy::runtime::{Environment, EvalContext, RuntimeError, World};
use seedwing_policy::types::{Field, PrimordialType, Type};
use seedwing_policy::value::{Output, RuntimeValue};
use std::path::PathBuf;

enum Native {
    Wrap,
    Fail,
}

impl Function for Native {
    fn call(
        &self,
        input: &RuntimeValue,
        _bindings: &Environment,
        _context: &EvalContext,
    ) -> Result<Output, RuntimeError> {
        match self {
            Native::Wrap => Ok(Output::Transform(RuntimeValue::List(vec![input.clone()]))),
            Native::Fail => Err(RuntimeError::Cancelled),
        }
    }
}

fn text(s: &str) -> String {
    s.to_string()
}

fn named(path: &str, leaf: &str) -> Type {
    Type::Ref(PackagePath::from(path).name_for(text(leaf)))
}

fn world() -> World<Native> {
    let mut world = World::new();
    world.define(&PackagePath::from("foo").name_for(text("Int")), named("", "int")).expect("defined");
    world.define(&PackagePath::from("foo::bar").name_for(text("Any")), Type::Anything).expect("defined");
    world.define_function(&PackagePath::from("net").name_for(text("wrap")), Native::Wrap).expect("defined");
    world.define_function(&PackagePath::from("net").name_for(text("fail")), Native::Fail).expect("defined");
    world
}

fn found(relative: &[&str], what: &str) -> Candidate {
    let mut input = PathBuf::from("/tests");
    for part in relative {
        input.push(part);
    }
    let output = input.parent().map(|p| p.join("output.json")).unwrap_or_default();
    Candidate {
        relative: relative.iter().map(|p| text(p)).collect(),
        input,
        output,
        has_output: what.contains('j'),
        has_identity: what.contains('i'),
        has_any: what.contains('a'),
        has_none: what.contains('n'),
    }
}

fn names(plan: &TestPlan) -> Vec<(String, String)> {
    plan.tests().iter().map(|t| (t.pattern().clone(), t.name().clone())).collect()
}

fn pair(pattern: &str, name: &str) -> (String, String) {
    (text(pattern), text(name))
}

fn case(pattern: &str, expected: Expected) -> TestCase {
    TestCase::new(text("case"), text(pattern), PathBuf::from("input.json"), expected)
}

fn settled(pattern: &str, expected: Expected, input: Option<&str>, wanted: Option<&str>) -> String {
    let mut case = case(pattern, expected);
    case.run(
        &world(),
        &input.map(|s| s.as_bytes().to_vec()),
        &wanted.map(|s| s.as_bytes().to_vec()),
    );
    match case.result() {
        Some(result) => result.describe(),
        None => panic!("the case has no result"),
    }
}

#[test]
fn html_of_writes_a_type_out() {
    let world = world();
    let html = Htmlifier::new(text("/docs/"), &world);
    assert_eq!(html.html_of(&Type::Anything), "<span>anything</span>");
    assert_eq!(html.html_of(&Type::Nothing), "<span>nothing</span>");
    assert_eq!(html.html_of(&Type::Primordial(PrimordialType::Integer)), "<span>integer</span>");
    assert_eq!(html.html_of(&Type::Primordial(PrimordialType::Decimal)), "<span>decimal</span>");
    assert_eq!(html.html_of(&Type::Primordial(PrimordialType::Boolean)), "<span>boolean</span>");
    assert_eq!(html.html_of(&Type::Primordial(PrimordialType::String)), "<span>string</span>");
    assert_eq!(
        html.html_of(&Type::Primordial(PrimordialType::Function(TypeName::new(None, text("f"))))),
        "<span>built-in function</span>"
    );
}

#[test]
fn html_of_links_to_the_types_that_a_type_names() {
    let world = world();
    let html = Htmlifier::new(text("/docs/"), &world);
    assert_eq!(
        html.html_of(&named("foo::bar", "Any")),
        "<a href='/docs/foo/bar/Any'>foo::bar::Any</a>"
    );
    assert_eq!(
        html.html_of(&Type::Join(Box::new(named("", "int")), Box::new(Type::Nothing))),
        "<span><a href='/docs/int'>int</a>||<span>nothing</span></span>"
    );
    let person = Type::Object(vec![
        Field { name: text("name"), ty: named("", "string"), optional: false },
        Field { name: text("pet"), ty: Type::Object(Vec::new()), optional: true },
    ]);
    assert_eq!(
        html.html_of(&person),
        "<div>{<div><span>name:<a href='/docs/string'>string</a></span></div>\
         <div><span>pet:<div>{}</div></span></div>}</div>"
    );
    let mut out = text("<p>");
    html.a(&mut out, &PackagePath::from("a::b").name_for(text("C")));
    assert_eq!(out, "<p><a href='/docs/a/b/C'>a::b::C</a>");
    html.html_of_ty(&mut out, &Type::Anything);
    assert_eq!(out, "<p><a href='/docs/a/b/C'>a::b::C</a><span>anything</span>");
}

#[test]
fn can_render_tells_which_types_have_html() {
    assert!(Htmlifier::<Native>::can_render(&Type::Anything));
    assert!(Htmlifier::<Native>::can_render(&Type::Join(
        Box::new(named("a", "B")),
        Box::new(Type::Object(vec![Field { name: text("x"), ty: Type::Nothing, optional: false }])),
    )));
    assert!(!Htmlifier::<Native>::can_render(&Type::List(Box::new(Type::Anything))));
    assert!(!Htmlifier::<Native>::can_render(&Type::Const(RuntimeValue::Null)));
    assert!(!Htmlifier::<Native>::can_render(&Type::Argument(text("T"))));
    assert!(!Htmlifier::<Native>::can_render(&Type::Join(
        Box::new(Type::Anything),
        Box::new(Type::Meet(Box::new(Type::Anything), Box::new(Type::Anything))),
    )));
    assert!(!Htmlifier::<Native>::can_render(&Type::Object(vec![Field {
        name: text("x"),
        ty: Type::Refinement(Box::new(Type::Anything), Box::new(Type::Anything)),
        optional: false,
    }])));
}

#[test]
fn a_plan_holds_the_tests_that_were_found_ordered_by_pattern() {
    let plan = TestPlan::new(
        vec![
            found(&["foo", "Int", "small", "input.json"], "i"),
            found(&["foo", "Int", "small", "output.identity"], ""),
            found(&["foo", "bar", "Any", "one", "input.json"], "a"),
            found(&["foo", "Int", "big", "input.json"], "n"),
            found(&["alone", "input.json"], ""),
            found(&["input.json"], ""),
            found(&["foo", "Int", "readme.md"], ""),
            found(&["aaa", "T", "t", "input.json"], "j"),
        ],
        &None,
    );
    assert_eq!(
        names(&plan),
        vec![
            pair("", "alone"),
            pair("aaa::T", "t"),
            pair("foo::Int", "small"),
            pair("foo::Int", "big"),
            pair("foo::bar::Any", "one"),
        ]
    );
    assert!(plan.tests().iter().all(|t| t.result().is_none()));
    assert_eq!(plan.tests()[1].input(), &PathBuf::from("/tests/aaa/T/t/input.json"));
}

#[test]
fn a_plan_tells_what_is_expected_by_the_files_beside_the_input() {
    let plan = TestPlan::new(
        vec![
            found(&["p", "a", "input.json"], "jian"),
            found(&["p", "b", "input.json"], "ian"),
            found(&["p", "c", "input.json"], "an"),
            found(&["p", "d", "input.json"], "n"),
            found(&["p", "e", "input.json"], ""),
        ],
        &None,
    );
    let expected: Vec<String> = plan.tests().iter().map(|t| format!("{:?}", t.expected())).collect();
    assert_eq!(
        expected,
        vec![
            text("Transform(\"/tests/p/a/output.json\")"),
            text("Identity"),
            text("Anything"),
            text("Nothing"),
            text("Pending"),
        ]
    );
}

#[test]
fn a_plan_keeps_the_tests_whose_names_begin_with_the_search_text() {
    let all = || {
        vec![
            found(&["foo", "Int", "small", "input.json"], "i"),
            found(&["foo", "Int", "big", "input.json"], "n"),
            found(&["foo", "bar", "Any", "one", "input.json"], "a"),
        ]
    };
    assert_eq!(
        names(&TestPlan::new(all(), &Some(text("foo::Int")))),
        vec![pair("foo::Int", "small"), pair("foo::Int", "big")]
    );
    assert_eq!(
        names(&TestPlan::new(all(), &Some(text("foo::Int::b")))),
        vec![pair("foo::Int", "big")]
    );
    assert_eq!(names(&TestPlan::new(all(), &Some(text("")))).len(), 3);
    assert_eq!(names(&TestPlan::new(all(), &Some(text("Int")))), Vec::new());
}

#[test]
fn texts_are_ordered_character_by_character() {
    assert!(le_text("", ""));
    assert!(le_text("", "a"));
    assert!(!le_text("a", ""));
    assert!(le_text("a", "a"));
    assert!(le_text("a", "b"));
    assert!(!le_text("b", "a"));
    assert!(le_text("foo", "foo::bar"));
    assert!(!le_text("foo::bar", "foo"));
    assert!(le_text("foo::Int", "foo::bar"));
    assert!(le_text("Z", "a"));
}

#[test]
fn a_test_passes_where_the_outcome_is_the_expected_one() {
    assert_eq!(settled("foo::Int", Expected::Identity, Some("1"), None), "passed");
    assert_eq!(settled("foo::Int", Expected::Anything, Some("1"), None), "passed");
    assert_eq!(settled("foo::Int", Expected::Nothing, Some("\"x\""), None), "passed");
    assert_eq!(settled("net::wrap", Expected::Anything, Some("1"), None), "passed");
    assert_eq!(
        settled("net::wrap", Expected::Transform(PathBuf::from("o")), Some("1"), Some("[1]")),
        "passed"
    );
    assert_eq!(
        settled("net::wrap", Expected::Transform(PathBuf::from("o")), Some("1"), Some("[1.0]")),
        "passed"
    );
}

#[test]
fn a_test_fails_where_the_outcome_is_another() {
    assert_eq!(settled("foo::Int", Expected::Nothing, Some("1"), None), "failed");
    assert_eq!(settled("foo::Int", Expected::Identity, Some("\"x\""), None), "failed");
    assert_eq!(settled("foo::Int", Expected::Anything, Some("\"x\""), None), "failed");
    assert_eq!(settled("net::wrap", Expected::Identity, Some("1"), None), "failed");
    assert_eq!(settled("net::wrap", Expected::Nothing, Some("1"), None), "failed");
    assert_eq!(settled("foo::Int", Expected::Transform(PathBuf::from("o")), Some("1"), Some("1")), "failed");
    assert_eq!(
        settled("net::wrap", Expected::Transform(PathBuf::from("o")), Some("1"), Some("[2]")),
        "failed"
    );
    assert_eq!(
        settled("net::wrap", Expected::Transform(PathBuf::from("o")), Some("1"), Some("[")),
        "failed"
    );
    assert_eq!(settled("net::wrap", Expected::Transform(PathBuf::from("o")), Some("1"), None), "failed");
}

#[test]
fn a_test_comes_to_an_error_where_it_cannot_be_judged() {
    assert_eq!(settled("foo::Int", Expected::Identity, None, None), "error: ReadingInput");
    assert_eq!(settled("foo::Int", Expected::Identity, Some("{"), None), "error: Deserialization");
    assert_eq!(
        settled("foo::Gone", Expected::Identity, Some("1"), None),
        "error: Runtime(NoSuchType(\"foo::Gone\"))"
    );
    assert_eq!(
        settled("net::fail", Expected::Anything, Some("1"), None),
        "error: Runtime(NativeFunctionError(\"net::fail\", Cancelled))"
    );
}

#[test]
fn a_test_of_which_nothing_is_expected_stays_pending() {
    assert_eq!(settled("foo::Int", Expected::Pending, Some("1"), None), "pending");
    assert_eq!(settled("foo::Gone", Expected::Pending, None, None), "pending");
}

#[test]
fn settle_takes_what_was_read() {
    let mut case = case("net::wrap", Expected::Transform(PathBuf::from("o")));
    case.settle(
        &world(),
        Some(Ok(RuntimeValue::Integer(1))),
        Some(Ok(RuntimeValue::List(vec![RuntimeValue::Integer(1)]))),
    );
    assert!(matches!(case.result(), Some(TestResult::Passed)));
    let mut case = TestCase::new(text("n"), text("foo::Int"), PathBuf::from("i"), Expected::Identity);
    case.settle(&world(), Some(Err(NotJson)), None);
    assert!(matches!(case.result(), Some(TestResult::Error(TestError::Deserialization))));
    assert!(matches!(case.expected(), Expected::Identity));
}

#[test]
fn a_result_reads_as_a_report_shows_it() {
    assert_eq!(TestResult::Passed.describe(), "passed");
    assert_eq!(TestResult::Failed.describe(), "failed");
    assert_eq!(TestResult::Pending.describe(), "pending");
    assert_eq!(TestResult::Error(TestError::ReadingInput).describe(), "error: ReadingInput");
    assert_eq!(TestResult::Error(TestError::Deserialization).describe(), "error: Deserialization");
    assert_eq!(
        TestResult::Error(TestError::Runtime(RuntimeError::Cancelled)).describe(),
        "error: Runtime(Cancelled)"
    );
}

fn small_plan() -> TestPlan {
    TestPlan::new(
        vec![
            found(&["foo", "Int", "a", "input.json"], "i"),
            found(&["foo", "Int", "bbb", "input.json"], "n"),
            found(&["foo", "Int", "cc", "input.json"], ""),
            found(&["net", "wrap", "wrapped", "input.json"], "j"),
            found(&["net", "wrap", "x", "input.json"], "a"),
        ],
        &None,
    )
}

fn file(input: Option<&str>, wanted: Option<&str>) -> CaseFiles {
    CaseFiles {
        input: input.map(|s| s.as_bytes().to_vec()),
        wanted: wanted.map(|s| s.as_bytes().to_vec()),
    }
}

#[test]
fn a_plan_runs_each_test_with_its_files() {
    let mut plan = small_plan();
    assert!(!plan.had_failures());
    plan.run(
        &world(),
        &vec![
            file(Some("1"), None),
            file(Some("1"), None),
            file(Some("1"), None),
            file(Some("5"), Some("[5]")),
        ],
    );
    let results: Vec<String> = plan
        .tests()
        .iter()
        .map(|t| t.result().as_ref().expect("ran").describe())
        .collect();
    assert_eq!(
        results,
        vec![text("passed"), text("failed"), text("pending"), text("passed"), text("error: ReadingInput")]
    );
    assert!(plan.had_failures());
    assert_eq!(names(&plan), names(&small_plan()));
}

#[test]
fn a_plan_without_failure_or_error_had_no_failures() {
    let mut plan = TestPlan::new(
        vec![found(&["foo", "Int", "a", "input.json"], "i"), found(&["foo", "Int", "b", "input.json"], "")],
        &None,
    );
    plan.run(&world(), &vec![file(Some("1"), None), file(None, None)]);
    assert!(!plan.had_failures());
    let mut wrong = TestPlan::new(vec![found(&["foo", "Int", "a", "input.json"], "n")], &None);
    wrong.run(&world(), &vec![file(Some("1"), None)]);
    assert!(wrong.had_failures());
}

#[test]
fn the_counts_of_a_plan_are_one_for_each_test() {
    let mut plan = small_plan();
    assert_eq!((plan.passed(), plan.failed(), plan.pending(), plan.error()), (5, 5, 5, 5));
    plan.run(&world(), &Vec::new());
    assert_eq!((plan.passed(), plan.failed(), plan.pending(), plan.error()), (5, 5, 5, 5));
    let empty = TestPlan::new(Vec::new(), &None);
    assert_eq!((empty.passed(), empty.failed(), empty.pending(), empty.error()), (0, 0, 0, 0));
    assert!(!empty.had_failures());
}

#[test]
fn a_report_shows_each_pattern_and_a_line_for_each_test() {
    let mut plan = small_plan();
    let command = Test { test_directories: vec![PathBuf::from("/tests")], matching: None };
    assert_eq!(
        command.display_results(&plan),
        vec![
            text("foo::Int"),
            text("  a.....pending"),
            text("  bbb...pending"),
            text("  cc....pending"),
            text("net::wrap"),
            text("  wrapped...pending"),
            text("  x.........pending"),
        ]
    );
    plan.run(
        &world(),
        &vec![
            file(Some("1"), None),
            file(Some("1"), None),
            file(Some("1"), None),
            file(Some("5"), Some("[5]")),
            file(Some("{"), None),
        ],
    );
    assert_eq!(
        plan.report(),
        vec![
            text("foo::Int"),
            text("  a.....passed"),
            text("  bbb...failed"),
            text("  cc....pending"),
            text("net::wrap"),
            text("  wrapped...passed"),
            text("  x.........error: Deserialization"),
        ]
    );
    assert_eq!(TestPlan::new(Vec::new(), &None).report(), Vec::<String>::new());
}

#[test]
fn the_server_answers_by_the_outcome() {
    let world = world();
    assert_eq!(evaluate(&world, true, "/foo/Int", b"1"), Reply::Accepted);
    assert_eq!(evaluate(&world, true, "/foo/Int", b"\"x\""), Reply::NotAcceptable);
    assert_eq!(evaluate(&world, true, "/foo/bar/Any", b"{\"k\":[]}"), Reply::Accepted);
    assert_eq!(evaluate(&world, true, "/net/wrap", b"1"), Reply::Accepted);
    assert_eq!(evaluate(&world, true, "/net/fail", b"1"), Reply::InternalServerError);
    assert_eq!(evaluate(&world, true, "/foo/Gone", b"1"), Reply::InternalServerError);
    assert_eq!(evaluate(&world, true, "/", b"1"), Reply::InternalServerError);
}

#[test]
fn the_server_refuses_what_is_no_post_and_what_is_no_document() {
    let world = world();
    assert_eq!(evaluate(&world, false, "/foo/Int", b"1"), Reply::NotAcceptable);
    assert_eq!(evaluate(&world, false, "/foo/Int", b"{"), Reply::NotAcceptable);
    assert_eq!(
        evaluate(&world, true, "/foo/Int", b"{"),
        Reply::BadRequest(text("Unable to parse POST'd input /foo/Int"))
    );
    assert_eq!(
        respond(&world, true, "nowhere", Err(NotJson)),
        Reply::BadRequest(text("Unable to parse POST'd input nowhere"))
    );
    assert_eq!(respond(&world, true, "/foo/Int", Ok(RuntimeValue::Integer(1))), Reply::Accepted);
    assert_eq!(respond(&world, false, "", Ok(RuntimeValue::Integer(1))), Reply::NotAcceptable);
}

#[test]
fn a_request_is_answered_wherever_its_path_is_not_needed() {
    let world = world();
    assert_eq!(try_evaluate(&world, false, "nowhere", b"1"), Some(Reply::NotAcceptable));
    assert_eq!(try_evaluate(&world, false, "", b"{"), Some(Reply::NotAcceptable));
    assert_eq!(
        try_evaluate(&world, true, "nowhere", b"{"),
        Some(Reply::BadRequest(text("Unable to parse POST'd input nowhere")))
    );
    assert_eq!(try_evaluate(&world, true, "nowhere", b"1"), None);
    assert_eq!(try_evaluate(&world, true, "", b"1"), None);
    assert_eq!(try_evaluate(&world, true, "/foo/Int", b"1"), Some(Reply::Accepted));
    assert_eq!(try_evaluate(&world, true, "/foo/Int", b"true"), Some(Reply::NotAcceptable));
    assert_eq!(
        try_evaluate(&world, true, "/foo/Int", b""),
        Some(Reply::BadRequest(text("Unable to parse POST'd input /foo/Int")))
    );
    assert_eq!(evaluate(&world, false, "nowhere", b"1"), Reply::NotAcceptable);
    assert_eq!(
        evaluate(&world, true, "nowhere", b"{"),
        Reply::BadRequest(text("Unable to parse POST'd input nowhere"))
    );
    assert!(starts_with_slash("/a"));
    assert!(starts_with_slash("/"));
    assert!(!starts_with_slash(""));
    assert!(!starts_with_slash("a/"));
}

#[test]
fn an_error_in_a_report_reads_as_its_debug_rendering() {
    let odd = RuntimeError::NoSuchType(text("a\"b\\c"));
    assert_eq!(
        TestResult::Error(TestError::Runtime(odd)).describe(),
        "error: Runtime(NoSuchType(\"a\\\"b\\\\c\"))"
    );
    assert_eq!(
        TestResult::Error(TestError::Runtime(RuntimeError::UnboundArgument(text("T")))).describe(),
        "error: Runtime(UnboundArgument(\"T\"))"
    );
    assert_eq!(
        TestResult::Error(TestError::Runtime(RuntimeError::NativeFunctionError(
            text("f"),
            Box::new(RuntimeError::ExpressionEvaluation(text("why"))),
        )))
        .describe(),
        "error: Runtime(NativeFunctionError(\"f\", ExpressionEvaluation(\"why\")))"
    );
}

#[test]
fn a_cancelled_request_is_answered_with_an_internal_error() {
    let world = world();
    let cancelled = EvalContext { tracing: false, deadline: None, cancelled: true, bindings: Vec::new() };
    let late = EvalContext { tracing: false, deadline: Some(0), cancelled: false, bindings: Vec::new() };
    let plain = EvalContext::default();
    for path in ["/foo/Int", "/net/wrap", "/foo/Gone", "/"] {
        let input = || Ok(RuntimeValue::Integer(1));
        assert_eq!(respond_within(&world, true, path, input(), &cancelled), Reply::InternalServerError);
        assert_eq!(respond_within(&world, true, path, input(), &late), Reply::InternalServerError);
    }
    assert_eq!(respond_within(&world, true, "/foo/Int", Ok(RuntimeValue::Integer(1)), &plain), Reply::Accepted);
    assert_eq!(respond_within(&world, false, "/foo/Int", Ok(RuntimeValue::Integer(1)), &cancelled), Reply::NotAcceptable);
    assert_eq!(
        respond_within(&world, true, "/foo/Int", Err(NotJson), &cancelled),
        Reply::BadRequest(text("Unable to parse POST'd input /foo/Int"))
    );
}

#[test]
fn worlds_that_hold_a_join_or_a_meet_in_either_order_answer_alike() {
    let one = |i: i64| Type::Const(RuntimeValue::Integer(i));
    let name = PackagePath::from("t").name_for(text("T"));
    let sides = [(1, 2), (1, 1), (3, 4)];
    for (a, b) in sides {
        for body in ["1", "2", "5", "\"x\""] {
            let mut first: World<Native> = World::new();
            let mut second: World<Native> = World::new();
            first.define(&name, Type::Join(Box::new(one(a)), Box::new(one(b)))).expect("defined");
            second.define(&name, Type::Join(Box::new(one(b)), Box::new(one(a)))).expect("defined");
            assert_eq!(
                evaluate(&first, true, "/t/T", body.as_bytes()),
                evaluate(&second, true, "/t/T", body.as_bytes())
            );
            let mut first: World<Native> = World::new();
            let mut second: World<Native> = World::new();
            first.define(&name, Type::Meet(Box::new(one(a)), Box::new(named("", "int")))).expect("defined");
            second.define(&name, Type::Meet(Box::new(named("", "int")), Box::new(one(a)))).expect("defined");
            assert_eq!(
                evaluate(&first, true, "/t/T", body.as_bytes()),
                evaluate(&second, true, "/t/T", body.as_bytes())
            );
        }
    }
}

#[test]
fn a_request_that_a_refinement_accepts_is_accepted_by_its_base() {
    let mut world: World<Native> = World::new();
    let base = || Type::Primordial(PrimordialType::Integer);
    let small = Type::Refinement(Box::new(base()), Box::new(Type::Const(RuntimeValue::Integer(7))));
    world.define(&PackagePath::from("t").name_for(text("Small")), small).expect("defined");
    world.define(&PackagePath::from("t").name_for(text("Base")), base()).expect("defined");
    for body in ["7", "8", "\"x\"", "null"] {
        if evaluate(&world, true, "/t/Small", body.as_bytes()) == Reply::Accepted {
            assert_eq!(evaluate(&world, true, "/t/Base", body.as_bytes()), Reply::Accepted);
        }
    }
    assert_eq!(evaluate(&world, true, "/t/Small", b"7"), Reply::Accepted);
    assert_eq!(evaluate(&world, true, "/t/Small", b"8"), Reply::NotAcceptable);
    assert_eq!(evaluate(&world, true, "/t/Base", b"8"), Reply::Accepted);
}
