//! The test harness: a plan of test cases, what each is expected to come to,
//! and what it came to.
//!
//! On disk a test is a directory that holds `input.json` and at most one
//! file that says what is expected. The harness is handed what was found on
//! disk and what the files hold; it reads no file itself.

use crate::eval::world_evaluated;
use crate::function::Function;
use crate::json::{json_parsed, read_model, read_value, NotJson};
use crate::runtime::{
    ContextModel, EvalContext, RuntimeError, RuntimeErrorModel, World, WorldModel,
};
use crate::text::{chars_of, has_prefix, join, joined, replace, replaced, starts_with, texts};
use crate::value::{same_value, Output, OutputModel, RuntimeValue, ValueModel};
use std::path::PathBuf;
use vstd::prelude::*;
use vstd::string::*;
use vstd::utf8::encode_utf8;

verus! {

/// `std::path::PathBuf`, the path of a file. It is carried as it is, and
/// nothing is known of it.
#[verifier::external_type_specification]
#[verifier::external_body]
pub struct ExPathBuf(PathBuf);

/// What a test is expected to come to.
#[derive(Debug)]
pub enum Expected {
    /// Nothing is said yet.
    Pending,
    /// Any match.
    Anything,
    /// A match that hands the input back.
    Identity,
    /// A match that hands back the value that this file holds.
    Transform(PathBuf),
    /// No match.
    Nothing,
}

/// What an error of a test holds.
pub enum TestErrorModel {
    ReadingInput,
    Deserialization,
    Runtime(RuntimeErrorModel),
}

/// Why a test came to no verdict.
#[derive(Debug)]
pub enum TestError {
    /// The input could not be read.
    ReadingInput,
    /// The input holds no JSON document.
    Deserialization,
    /// The evaluation failed.
    Runtime(RuntimeError),
}

impl View for TestError {
    type V = TestErrorModel;

    open spec fn view(&self) -> TestErrorModel {
        match self {
            TestError::ReadingInput => TestErrorModel::ReadingInput,
            TestError::Deserialization => TestErrorModel::Deserialization,
            TestError::Runtime(error) => TestErrorModel::Runtime(error@),
        }
    }
}

/// What the result of a test holds.
pub enum VerdictModel {
    Pending,
    Passed,
    Failed,
    Error(TestErrorModel),
}

/// What a test came to.
#[derive(Debug)]
pub enum TestResult {
    Pending,
    Passed,
    Failed,
    Error(TestError),
}

impl View for TestResult {
    type V = VerdictModel;

    open spec fn view(&self) -> VerdictModel {
        match self {
            TestResult::Pending => VerdictModel::Pending,
            TestResult::Passed => VerdictModel::Passed,
            TestResult::Failed => VerdictModel::Failed,
            TestResult::Error(error) => VerdictModel::Error(error@),
        }
    }
}

/// How the error of a test reads in a report: its `Debug` rendering.
pub uninterp spec fn error_debug(error: TestErrorModel) -> Seq<char>;

/// Renders an error of a test with `format!` and `{:?}`, that is by the
/// `Debug` that std derives for it. The contract gives the text its name:
/// it depends on what the error holds and on nothing else.
#[verifier::external_body]
fn debug_of(error: &TestError) -> (r: String)
    ensures
        r@ == error_debug(error@),
{
    format!("{:?}", error)
}

/// The text of a result.
pub open spec fn verdict_text(verdict: VerdictModel) -> Seq<char> {
    match verdict {
        VerdictModel::Passed => "passed"@,
        VerdictModel::Failed => "failed"@,
        VerdictModel::Pending => "pending"@,
        VerdictModel::Error(error) => "error: "@ + error_debug(error),
    }
}

impl TestResult {
    /// The text of the result, as a report shows it.
    pub fn describe(&self) -> (r: String)
        ensures
            r@ == verdict_text(self@),
    {
        match self {
            TestResult::Passed => String::from_str("passed"),
            TestResult::Failed => String::from_str("failed"),
            TestResult::Pending => String::from_str("pending"),
            TestResult::Error(error) => {
                let mut out = String::from_str("error: ");
                let text = debug_of(error);
                out.append(text.as_str());
                out
            },
        }
    }
}

/// The context that tests are evaluated in: no trace, no deadline, no
/// bindings, not cancelled.
pub open spec fn plain_context() -> ContextModel {
    ContextModel { tracing: false, deadline: None, cancelled: false, bindings: Seq::empty() }
}

/// What was read of a file: nothing where it could not be read, else the
/// value that it holds or the fact that it holds none.
pub open spec fn file_read(bytes: Option<Vec<u8>>) -> Option<Result<ValueModel, NotJson>> {
    match bytes {
        Some(bytes) => Some(read_value(json_parsed(bytes@))),
        None => None,
    }
}

/// What was read of a file.
pub open spec fn file_model(file: Option<Result<RuntimeValue, NotJson>>) -> Option<
    Result<ValueModel, NotJson>,
> {
    match file {
        Some(read) => Some(read_model(read)),
        None => None,
    }
}

/// How what a pattern handed back compares with what was expected. A new
/// value is held against the value of the expected file, which must have
/// been read and must hold one.
pub open spec fn compared_with(
    output: OutputModel,
    expected: Expected,
    wanted: Option<Result<ValueModel, NotJson>>,
) -> VerdictModel {
    match (output, expected) {
        (OutputModel::Nothing, Expected::Nothing) => VerdictModel::Passed,
        (OutputModel::Identity, Expected::Identity) => VerdictModel::Passed,
        (OutputModel::Identity, Expected::Anything) => VerdictModel::Passed,
        (OutputModel::Transform(_), Expected::Anything) => VerdictModel::Passed,
        (OutputModel::Transform(value), Expected::Transform(_)) => match wanted {
            Some(Ok(other)) => if same_value(value, other) {
                VerdictModel::Passed
            } else {
                VerdictModel::Failed
            },
            _ => VerdictModel::Failed,
        },
        _ => VerdictModel::Failed,
    }
}

/// What a test comes to: the pattern is evaluated against the value of the
/// input, and what it hands back is held against what is expected. A test
/// of which nothing is expected yet stays pending.
pub open spec fn verdict<F: Function>(
    world: WorldModel<F>,
    pattern: Seq<char>,
    expected: Expected,
    input: Option<Result<ValueModel, NotJson>>,
    wanted: Option<Result<ValueModel, NotJson>>,
) -> VerdictModel {
    if expected is Pending {
        VerdictModel::Pending
    } else {
        match input {
            None => VerdictModel::Error(TestErrorModel::ReadingInput),
            Some(Err(_)) => VerdictModel::Error(TestErrorModel::Deserialization),
            Some(Ok(value)) => match world_evaluated(world, pattern, value, plain_context()) {
                Err(error) => VerdictModel::Error(TestErrorModel::Runtime(error)),
                Ok(outcome) => compared_with(outcome.output, expected, wanted),
            },
        }
    }
}

/// What a test case holds.
pub struct CaseModel {
    pub name: Seq<char>,
    pub pattern: Seq<char>,
    pub input: PathBuf,
    pub expected: Expected,
    pub result: Option<VerdictModel>,
}

/// One test: a name, the pattern that it tests, the file that holds its
/// input, what is expected, and the result once it has run.
#[derive(Debug)]
pub struct TestCase {
    name: String,
    pattern: String,
    input: PathBuf,
    expected: Expected,
    result: Option<TestResult>,
}

impl View for TestCase {
    type V = CaseModel;

    closed spec fn view(&self) -> CaseModel {
        CaseModel {
            name: self.name@,
            pattern: self.pattern@,
            input: self.input,
            expected: self.expected,
            result: match self.result {
                Some(result) => Some(result@),
                None => None,
            },
        }
    }
}

impl TestCase {
    /// A test that has not run.
    pub fn new(name: String, pattern: String, input: PathBuf, expected: Expected) -> (r: Self)
        ensures
            r@ == (CaseModel { name: name@, pattern: pattern@, input, expected, result: None }),
    {
        TestCase { name, pattern, input, expected, result: None }
    }

    /// The name of the test.
    pub fn name(&self) -> (r: &String)
        ensures
            r@ == self@.name,
    {
        &self.name
    }

    /// The name of the pattern that is tested.
    pub fn pattern(&self) -> (r: &String)
        ensures
            r@ == self@.pattern,
    {
        &self.pattern
    }

    /// The file that holds the input.
    pub fn input(&self) -> (r: &PathBuf)
        ensures
            *r == self@.input,
    {
        &self.input
    }

    /// What is expected.
    pub fn expected(&self) -> (r: &Expected)
        ensures
            *r == self@.expected,
    {
        &self.expected
    }

    /// The result, once the test has run.
    pub fn result(&self) -> (r: &Option<TestResult>)
        ensures
            match r {
                Some(result) => self@.result == Some(result@),
                None => self@.result is None,
            },
    {
        &self.result
    }

    /// Settles the test, given what was read of its input file and of the
    /// file that holds the expected value.
    pub fn settle<F: Function>(
        &mut self,
        world: &World<F>,
        input: Option<Result<RuntimeValue, NotJson>>,
        wanted: Option<Result<RuntimeValue, NotJson>>,
    )
        ensures
            final(self)@ == (CaseModel {
                result: Some(
                    verdict(
                        world@,
                        old(self)@.pattern,
                        old(self)@.expected,
                        file_model(input),
                        file_model(wanted),
                    ),
                ),
                ..old(self)@
            }),
    {
        let result = match &self.expected {
            Expected::Pending => TestResult::Pending,
            _ => match input {
                None => TestResult::Error(TestError::ReadingInput),
                Some(Err(_)) => TestResult::Error(TestError::Deserialization),
                Some(Ok(value)) => {
                    let context = EvalContext::default();
                    match world.evaluate(&self.pattern, &value, &context) {
                        Err(error) => TestResult::Error(TestError::Runtime(error)),
                        Ok(outcome) => match (&outcome.output, &self.expected) {
                            (Output::Nothing, Expected::Nothing) => TestResult::Passed,
                            (Output::Identity, Expected::Identity) => TestResult::Passed,
                            (Output::Identity, Expected::Anything) => TestResult::Passed,
                            (Output::Transform(_), Expected::Anything) => TestResult::Passed,
                            (Output::Transform(value), Expected::Transform(_)) => match &wanted {
                                Some(Ok(other)) => if value.same(other) {
                                    TestResult::Passed
                                } else {
                                    TestResult::Failed
                                },
                                _ => TestResult::Failed,
                            },
                            _ => TestResult::Failed,
                        },
                    }
                },
            },
        };
        self.result = Some(result);
    }

    /// Runs the test, given the bytes of its input file and of the file
    /// that holds the expected value, each where it could be read.
    pub fn run<F: Function>(
        &mut self,
        world: &World<F>,
        input: &Option<Vec<u8>>,
        wanted: &Option<Vec<u8>>,
    )
        ensures
            final(self)@ == (CaseModel {
                result: Some(
                    verdict(
                        world@,
                        old(self)@.pattern,
                        old(self)@.expected,
                        file_read(*input),
                        file_read(*wanted),
                    ),
                ),
                ..old(self)@
            }),
    {
        let input = match input {
            Some(bytes) => Some(RuntimeValue::from_json(bytes.as_slice())),
            None => None,
        };
        let wanted = match wanted {
            Some(bytes) => Some(RuntimeValue::from_json(bytes.as_slice())),
            None => None,
        };
        self.settle(world, input, wanted);
    }
}

/// What was found on disk for one file below a test directory.
pub struct Candidate {
    /// The path of the file from the test directory, one string for each
    /// component.
    pub relative: Vec<String>,
    /// The file itself.
    pub input: PathBuf,
    /// The file `output.json` beside it.
    pub output: PathBuf,
    /// Whether `output.json` is there.
    pub has_output: bool,
    /// Whether `output.identity` is there.
    pub has_identity: bool,
    /// Whether `output.any` is there.
    pub has_any: bool,
    /// Whether `output.none` is there.
    pub has_none: bool,
}

/// What is expected of a test, by the files beside its input: the first of
/// `output.json`, `output.identity`, `output.any`, `output.none` that is
/// there decides, and without any of them nothing is said yet.
pub open spec fn expected_of(found: Candidate) -> Expected {
    if found.has_output {
        Expected::Transform(found.output)
    } else if found.has_identity {
        Expected::Identity
    } else if found.has_any {
        Expected::Anything
    } else if found.has_none {
        Expected::Nothing
    } else {
        Expected::Pending
    }
}

/// The name of the pattern that a file tests: the directories above the
/// directory of the test, joined by `::`.
pub open spec fn pattern_of(relative: Seq<Seq<char>>) -> Seq<char> {
    replaced(joined(relative.take(relative.len() - 2), "/"@), "/"@, "::"@)
}

/// The test that a file stands for, if it stands for one: the file is named
/// `input.json` and lies in a directory, which names the test, and the name
/// of the pattern, `::` and the name of the test begin with `search`.
pub open spec fn planned(found: Candidate, search: Seq<char>) -> Option<CaseModel> {
    let parts = texts(found.relative@);
    if parts.len() >= 2 && parts.last() == "input.json"@ && starts_with(
        pattern_of(parts) + "::"@ + parts[parts.len() - 2],
        search,
    ) {
        Some(
            CaseModel {
                name: parts[parts.len() - 2],
                pattern: pattern_of(parts),
                input: found.input,
                expected: expected_of(found),
                result: None,
            },
        )
    } else {
        None
    }
}

/// The order of texts: character by character, by code point; a text comes
/// before those that it begins.
pub open spec fn text_le(left: Seq<char>, right: Seq<char>) -> bool
    decreases left.len(),
{
    if left.len() == 0 {
        true
    } else if right.len() == 0 {
        false
    } else if left[0] != right[0] {
        left[0] < right[0]
    } else {
        text_le(left.skip(1), right.skip(1))
    }
}

/// `sorted` with `case` put behind the last case whose pattern does not come
/// after its own.
pub open spec fn inserted(sorted: Seq<CaseModel>, case: CaseModel) -> Seq<CaseModel>
    decreases sorted.len(),
{
    if sorted.len() == 0 {
        seq![case]
    } else if text_le(sorted.last().pattern, case.pattern) {
        sorted.push(case)
    } else {
        inserted(sorted.drop_last(), case).push(sorted.last())
    }
}

/// The plan for the first `k` files that were found: their tests, ordered by
/// pattern, those of one pattern in the order in which they were found.
pub open spec fn planned_cases(found: Seq<Candidate>, k: int, search: Seq<char>) -> Seq<CaseModel>
    decreases k,
{
    if 0 < k <= found.len() {
        match planned(found[k - 1], search) {
            Some(case) => inserted(planned_cases(found, k - 1, search), case),
            None => planned_cases(found, k - 1, search),
        }
    } else {
        Seq::empty()
    }
}

/// The text that the names of tests must begin with.
pub open spec fn search_text(search: Option<String>) -> Seq<char> {
    match search {
        Some(text) => text@,
        None => Seq::empty(),
    }
}

/// What each case of `cases` holds.
pub open spec fn cases_view(cases: Seq<TestCase>) -> Seq<CaseModel> {
    Seq::new(cases.len(), |i: int| cases[i]@)
}

/// The bytes of the two files of a test, each where it could be read.
pub struct CaseFiles {
    pub input: Option<Vec<u8>>,
    pub wanted: Option<Vec<u8>>,
}

/// The case `case` after it ran with `files`.
pub open spec fn settled<F: Function>(
    world: WorldModel<F>,
    case: CaseModel,
    input: Option<Vec<u8>>,
    wanted: Option<Vec<u8>>,
) -> CaseModel {
    CaseModel {
        result: Some(
            verdict(world, case.pattern, case.expected, file_read(input), file_read(wanted)),
        ),
        ..case
    }
}

/// The cases of a plan after each ran with the files at its position; a
/// case without files runs as one whose files could not be read.
pub open spec fn all_settled<F: Function>(
    world: WorldModel<F>,
    cases: Seq<CaseModel>,
    files: Seq<CaseFiles>,
) -> Seq<CaseModel> {
    Seq::new(
        cases.len(),
        |i: int|
            if i < files.len() {
                settled(world, cases[i], files[i].input, files[i].wanted)
            } else {
                settled(world, cases[i], None, None)
            },
    )
}

/// Whether a case failed or came to an error.
pub open spec fn went_wrong(case: CaseModel) -> bool {
    case.result is Some && (case.result->Some_0 is Failed || case.result->Some_0 is Error)
}

/// How many bytes the text of a name takes.
pub open spec fn width_of(name: Seq<char>) -> usize {
    encode_utf8(name).len() as usize
}

/// The greatest width of a name among the first `k` cases of a pattern.
pub open spec fn longest_name(cases: Seq<CaseModel>, pattern: Seq<char>, k: int) -> usize
    decreases k,
{
    if 0 < k <= cases.len() {
        let before = longest_name(cases, pattern, k - 1);
        if cases[k - 1].pattern == pattern && width_of(cases[k - 1].name) > before {
            width_of(cases[k - 1].name)
        } else {
            before
        }
    } else {
        0
    }
}

/// `n` dots.
pub open spec fn dots(n: int) -> Seq<char> {
    Seq::new(n as nat, |i: int| '.')
}

/// The line of the report for the case at `i`: two spaces, the name, dots up
/// to three behind the longest name of the pattern, and the result; a case
/// that has not run shows as pending.
pub open spec fn report_line(cases: Seq<CaseModel>, i: int) -> Seq<char> {
    "  "@ + cases[i].name + dots(
        longest_name(cases, cases[i].pattern, cases.len() as int) - width_of(cases[i].name) + 3,
    ) + verdict_text(
        match cases[i].result {
            Some(result) => result,
            None => VerdictModel::Pending,
        },
    )
}

/// The report for the first `k` cases: a line for each case, and before the
/// first case of each run of one pattern a line with the pattern.
pub open spec fn report(cases: Seq<CaseModel>, k: int) -> Seq<Seq<char>>
    decreases k,
{
    if 0 < k <= cases.len() {
        let before = report(cases, k - 1);
        if k == 1 || cases[k - 2].pattern != cases[k - 1].pattern {
            before.push(cases[k - 1].pattern).push(report_line(cases, k - 1))
        } else {
            before.push(report_line(cases, k - 1))
        }
    } else {
        Seq::empty()
    }
}

/// Where `case` goes when it is put into `sorted`.
proof fn lemma_inserted(sorted: Seq<CaseModel>, case: CaseModel, at: int)
    requires
        0 <= at <= sorted.len(),
        forall|j: int| at <= j < sorted.len() ==> !text_le(sorted[j].pattern, case.pattern),
        at > 0 ==> text_le(sorted[at - 1].pattern, case.pattern),
    ensures
        inserted(sorted, case) == sorted.insert(at, case),
    decreases sorted.len(),
{
    if sorted.len() == 0 {
        assert(sorted.insert(at, case) =~= seq![case]);
    } else if at == sorted.len() {
        assert(sorted.insert(at, case) =~= sorted.push(case));
    } else {
        lemma_inserted(sorted.drop_last(), case, at);
        assert(sorted.insert(at, case) =~= sorted.drop_last().insert(at, case).push(
            sorted.last(),
        ));
    }
}

/// The longest name of a pattern is no shorter than the name of any of its
/// cases.
proof fn lemma_longest_name(cases: Seq<CaseModel>, pattern: Seq<char>, k: int, i: int)
    requires
        0 <= i < k <= cases.len(),
        cases[i].pattern == pattern,
    ensures
        longest_name(cases, pattern, k) >= width_of(cases[i].name),
    decreases k,
{
    if i < k - 1 {
        lemma_longest_name(cases, pattern, k - 1, i);
    }
}

/// Of two texts one does not come after the other.
pub proof fn lemma_text_order_is_total(left: Seq<char>, right: Seq<char>)
    ensures
        text_le(left, right) || text_le(right, left),
    decreases left.len(),
{
    if left.len() > 0 && right.len() > 0 && left[0] == right[0] {
        lemma_text_order_is_total(left.skip(1), right.skip(1));
    }
}

/// A text that does not come after a second, which does not come after a
/// third, does not come after the third.
pub proof fn lemma_text_order_is_transitive(a: Seq<char>, b: Seq<char>, c: Seq<char>)
    requires
        text_le(a, b),
        text_le(b, c),
    ensures
        text_le(a, c),
    decreases a.len(),
{
    if a.len() > 0 && b.len() > 0 && c.len() > 0 && a[0] == b[0] && b[0] == c[0] {
        lemma_text_order_is_transitive(a.skip(1), b.skip(1), c.skip(1));
    }
}

/// Whether cases are ordered by pattern.
pub open spec fn ordered(cases: Seq<CaseModel>) -> bool {
    forall|i: int, j: int|
        0 <= i < j < cases.len() ==> text_le(
            (#[trigger] cases[i]).pattern,
            (#[trigger] cases[j]).pattern,
        )
}

/// Putting a case into cases that do not come after `top` gives cases that
/// do not come after `top`, if the case does not.
proof fn lemma_inserted_below(sorted: Seq<CaseModel>, case: CaseModel, top: Seq<char>)
    requires
        forall|i: int| 0 <= i < sorted.len() ==> text_le((#[trigger] sorted[i]).pattern, top),
        text_le(case.pattern, top),
    ensures
        inserted(sorted, case).len() == sorted.len() + 1,
        forall|i: int|
            0 <= i < inserted(sorted, case).len() ==> text_le(
                (#[trigger] inserted(sorted, case)[i]).pattern,
                top,
            ),
    decreases sorted.len(),
{
    if sorted.len() > 0 && !text_le(sorted.last().pattern, case.pattern) {
        let rest = sorted.drop_last();
        assert forall|i: int| 0 <= i < rest.len() implies text_le(
            (#[trigger] rest[i]).pattern,
            top,
        ) by {
            assert(rest[i] == sorted[i]);
        }
        lemma_inserted_below(rest, case, top);
    }
}

/// Putting a case into ordered cases keeps them ordered.
proof fn lemma_inserted_ordered(sorted: Seq<CaseModel>, case: CaseModel)
    requires
        ordered(sorted),
    ensures
        ordered(inserted(sorted, case)),
    decreases sorted.len(),
{
    if sorted.len() == 0 {
    } else if text_le(sorted.last().pattern, case.pattern) {
        let out = sorted.push(case);
        assert forall|i: int, j: int| 0 <= i < j < out.len() implies text_le(
            (#[trigger] out[i]).pattern,
            (#[trigger] out[j]).pattern,
        ) by {
            if j == sorted.len() {
                if i < sorted.len() - 1 {
                    assert(text_le(sorted[i].pattern, sorted[sorted.len() - 1].pattern));
                    lemma_text_order_is_transitive(
                        sorted[i].pattern,
                        sorted.last().pattern,
                        case.pattern,
                    );
                }
            } else {
                assert(text_le(sorted[i].pattern, sorted[j].pattern));
            }
        }
    } else {
        let rest = sorted.drop_last();
        let top = sorted.last().pattern;
        assert forall|i: int, j: int| 0 <= i < j < rest.len() implies text_le(
            (#[trigger] rest[i]).pattern,
            (#[trigger] rest[j]).pattern,
        ) by {
            assert(text_le(sorted[i].pattern, sorted[j].pattern));
        }
        lemma_inserted_ordered(rest, case);
        lemma_text_order_is_total(top, case.pattern);
        assert forall|i: int| 0 <= i < rest.len() implies text_le(
            (#[trigger] rest[i]).pattern,
            top,
        ) by {
            assert(text_le(sorted[i].pattern, sorted[sorted.len() - 1].pattern));
        }
        lemma_inserted_below(rest, case, top);
        let inner = inserted(rest, case);
        let out = inner.push(sorted.last());
        assert forall|i: int, j: int| 0 <= i < j < out.len() implies text_le(
            (#[trigger] out[i]).pattern,
            (#[trigger] out[j]).pattern,
        ) by {
            if j == inner.len() {
                assert(text_le(inner[i].pattern, top));
            } else {
                assert(text_le(inner[i].pattern, inner[j].pattern));
            }
        }
    }
}

/// The tests of a plan are ordered by pattern.
pub proof fn law_plan_is_ordered(found: Seq<Candidate>, k: int, search: Seq<char>)
    ensures
        ordered(planned_cases(found, k, search)),
    decreases k,
{
    if 0 < k <= found.len() {
        law_plan_is_ordered(found, k - 1, search);
        match planned(found[k - 1], search) {
            Some(case) => lemma_inserted_ordered(planned_cases(found, k - 1, search), case),
            None => {},
        }
    }
}

/// Tells whether `left` does not come after `right`.
pub fn le_text(left: &str, right: &str) -> (r: bool)
    ensures
        r == text_le(left@, right@),
{
    let a = chars_of(left);
    let b = chars_of(right);
    let mut i: usize = 0;
    assert(a@.skip(0) =~= a@ && b@.skip(0) =~= b@);
    while i < a.len() && i < b.len()
        invariant
            i <= a.len(),
            i <= b.len(),
            a@ == left@,
            b@ == right@,
            text_le(a@, b@) == text_le(a@.skip(i as int), b@.skip(i as int)),
        decreases a.len() - i,
    {
        assert(a@.skip(i as int)[0] == a@[i as int] && b@.skip(i as int)[0] == b@[i as int]);
        assert(a@.skip(i as int).skip(1) =~= a@.skip(i + 1));
        assert(b@.skip(i as int).skip(1) =~= b@.skip(i + 1));
        if a[i] != b[i] {
            return a[i] < b[i];
        }
        i += 1;
    }
    i == a.len()
}

/// The test that a file stands for, if it stands for one.
fn plan_case(found: Candidate, search: &str) -> (r: Option<TestCase>)
    ensures
        match r {
            Some(case) => planned(found, search@) == Some(case@),
            None => planned(found, search@) is None,
        },
{
    let n = found.relative.len();
    let ghost parts = texts(found.relative@);
    if n < 2 {
        return None;
    }
    if found.relative[n - 1] != String::from_str("input.json") {
        return None;
    }
    let mut above: Vec<String> = Vec::new();
    let mut i: usize = 0;
    while i < n - 2
        invariant
            2 <= n == found.relative.len(),
            i <= n - 2,
            above@.len() == i,
            forall|k: int| 0 <= k < i ==> above@[k]@ == found.relative@[k]@,
        decreases n - 2 - i,
    {
        above.push(found.relative[i].clone());
        i += 1;
    }
    assert(texts(above@) =~= parts.take(n - 2));
    let path = join(&above, "/");
    proof {
        reveal_strlit("/");
    }
    let pattern = replace(path.as_str(), "/", "::");
    let name = found.relative[n - 2].clone();
    let mut full = pattern.clone();
    full.append("::");
    full.append(name.as_str());
    if !has_prefix(full.as_str(), search) {
        return None;
    }
    let expected = if found.has_output {
        Expected::Transform(found.output)
    } else if found.has_identity {
        Expected::Identity
    } else if found.has_any {
        Expected::Anything
    } else if found.has_none {
        Expected::Nothing
    } else {
        Expected::Pending
    };
    Some(TestCase { name, pattern, input: found.input, expected, result: None })
}

/// Puts `case` into `tests`, which are ordered by pattern.
fn insert_case(tests: &mut Vec<TestCase>, case: TestCase)
    ensures
        cases_view(final(tests)@) == inserted(cases_view(old(tests)@), case@),
{
    let ghost before = cases_view(tests@);
    let mut at: usize = tests.len();
    while at > 0 && !le_text(tests[at - 1].pattern.as_str(), case.pattern.as_str())
        invariant
            at <= tests.len(),
            *tests == *old(tests),
            before == cases_view(tests@),
            forall|j: int|
                at <= j < tests.len() ==> !text_le(before[j].pattern, case@.pattern),
        decreases at,
    {
        assert(before[at - 1] == tests@[at - 1]@);
        at -= 1;
    }
    assert(at > 0 ==> before[at - 1] == tests@[at - 1]@);
    proof {
        lemma_inserted(before, case@, at as int);
    }
    tests.insert(at, case);
    assert(cases_view(tests@) =~= before.insert(at as int, case@));
}

/// A plan of tests, ordered by pattern.
#[derive(Debug)]
pub struct TestPlan {
    tests: Vec<TestCase>,
}

impl View for TestPlan {
    type V = Seq<CaseModel>;

    closed spec fn view(&self) -> Seq<CaseModel> {
        cases_view(self.tests@)
    }
}

impl TestPlan {
    /// The plan for what was found on disk: the tests whose names begin
    /// with `search_pattern`, ordered by pattern.
    pub fn new(found: Vec<Candidate>, search_pattern: &Option<String>) -> (r: Self)
        ensures
            r@ == planned_cases(found@, found@.len() as int, search_text(*search_pattern)),
    {
        let nothing = String::new();
        let search = match search_pattern {
            Some(text) => text,
            None => &nothing,
        };
        let mut tests: Vec<TestCase> = Vec::new();
        assert(cases_view(tests@) =~= Seq::empty());
        let ghost all = found@;
        for candidate in it: found.into_iter()
            invariant
                it.seq() == all,
                search@ == search_text(*search_pattern),
                cases_view(tests@) == planned_cases(all, it.index() as int, search@),
        {
            assert(candidate == all[it.index() as int]);
            match plan_case(candidate, search.as_str()) {
                Some(case) => insert_case(&mut tests, case),
                None => {},
            }
        }
        TestPlan { tests }
    }

    /// The tests of the plan.
    pub fn tests(&self) -> (r: &Vec<TestCase>)
        ensures
            cases_view(r@) == self@,
    {
        &self.tests
    }

    /// Runs every test, the one at each position with the files at that
    /// position.
    pub fn run<F: Function>(&mut self, world: &World<F>, files: &Vec<CaseFiles>)
        ensures
            final(self)@ == all_settled(world@, old(self)@, files@),
    {
        let mut tests: Vec<TestCase> = Vec::new();
        std::mem::swap(&mut self.tests, &mut tests);
        let ghost all = tests@;
        assert(cases_view(self.tests@) =~= all_settled(world@, cases_view(all), files@).take(0));
        for test in it: tests.into_iter()
            invariant
                it.seq() == all,
                cases_view(self.tests@) == all_settled(world@, cases_view(all), files@).take(
                    it.index() as int,
                ),
        {
            let i = self.tests.len();
            assert(test == all[it.index() as int]);
            let ghost before = cases_view(self.tests@);
            let mut test = test;
            if i < files.len() {
                test.run(world, &files[i].input, &files[i].wanted);
            } else {
                test.run(world, &None, &None);
            }
            self.tests.push(test);
            assert(cases_view(self.tests@) =~= before.push(test@));
            assert(cases_view(self.tests@) =~= all_settled(world@, cases_view(all), files@).take(
                it.index() + 1,
            ));
        }
        assert(cases_view(self.tests@) =~= all_settled(world@, cases_view(all), files@));
    }

    /// Tells whether a test failed or came to an error.
    pub fn had_failures(&self) -> (r: bool)
        ensures
            r == exists|i: int| 0 <= i < self@.len() && went_wrong(#[trigger] self@[i]),
    {
        let mut i: usize = 0;
        while i < self.tests.len()
            invariant
                i <= self.tests.len(),
                forall|j: int| 0 <= j < i ==> !went_wrong(#[trigger] self@[j]),
            decreases self.tests.len() - i,
        {
            let wrong = match &self.tests[i].result {
                Some(TestResult::Error(_)) => true,
                Some(TestResult::Failed) => true,
                _ => false,
            };
            assert(self@[i as int] == self.tests@[i as int]@);
            if wrong {
                assert(went_wrong(self@[i as int]));
                return true;
            }
            i += 1;
        }
        false
    }

    /// The count that a report shows as passed: one for each test of the
    /// plan.
    pub fn passed(&self) -> (r: usize)
        ensures
            r == self@.len(),
    {
        self.tests.len()
    }

    /// The count that a report shows as pending: one for each test of the
    /// plan.
    pub fn pending(&self) -> (r: usize)
        ensures
            r == self@.len(),
    {
        self.tests.len()
    }

    /// The count that a report shows as errors: one for each test of the
    /// plan.
    pub fn error(&self) -> (r: usize)
        ensures
            r == self@.len(),
    {
        self.tests.len()
    }

    /// The count that a report shows as failed: one for each test of the
    /// plan.
    pub fn failed(&self) -> (r: usize)
        ensures
            r == self@.len(),
    {
        self.tests.len()
    }

    /// The width of the longest name among the tests of `pattern`.
    fn longest(&self, pattern: &String) -> (r: usize)
        ensures
            r == longest_name(self@, pattern@, self@.len() as int),
    {
        let mut longest: usize = 0;
        let mut j: usize = 0;
        while j < self.tests.len()
            invariant
                j <= self.tests.len(),
                longest == longest_name(self@, pattern@, j as int),
            decreases self.tests.len() - j,
        {
            assert(self@[j as int] == self.tests@[j as int]@);
            let width = self.tests[j].name.as_str().len();
            if self.tests[j].pattern == *pattern && width > longest {
                longest = width;
            }
            j += 1;
        }
        longest
    }

    /// The lines of the report.
    pub fn report(&self) -> (r: Vec<String>)
        ensures
            texts(r@) == report(self@, self@.len() as int),
    {
        let mut lines: Vec<String> = Vec::new();
        assert(texts(lines@) =~= Seq::empty());
        let mut longest: usize = 0;
        let mut i: usize = 0;
        while i < self.tests.len()
            invariant
                i <= self.tests.len(),
                texts(lines@) == report(self@, i as int),
                i > 0 ==> longest == longest_name(
                    self@,
                    self@[i - 1].pattern,
                    self@.len() as int,
                ),
            decreases self.tests.len() - i,
        {
            let test = &self.tests[i];
            assert(self@[i as int] == test@);
            let ghost before = texts(lines@);
            if i == 0 || self.tests[i - 1].pattern != test.pattern {
                assert(i > 0 ==> self@[i - 1] == self.tests@[i - 1]@);
                lines.push(test.pattern.clone());
                longest = self.longest(&test.pattern);
            } else {
                assert(self@[i - 1] == self.tests@[i - 1]@);
            }
            let ghost headed = texts(lines@);
            assert(headed =~= if i == 0 || self@[i - 1].pattern != self@[i as int].pattern {
                before.push(test@.pattern)
            } else {
                before
            });
            let width = test.name.as_str().len();
            proof {
                lemma_longest_name(self@, test@.pattern, self@.len() as int, i as int);
            }
            let mut line = String::from_str("  ");
            line.append(test.name.as_str());
            let ghost start = line@;
            let mut d: usize = 0;
            while d < longest - width
                invariant
                    width <= longest,
                    d <= longest - width,
                    line@ == start + dots(d as int),
                decreases longest - width - d,
            {
                line.append(".");
                proof {
                    reveal_strlit(".");
                    assert(line@ =~= start + dots(d + 1));
                }
                d += 1;
            }
            line.append("...");
            proof {
                reveal_strlit("...");
                assert(line@ =~= start + dots(longest - width + 3));
            }
            let text = match &test.result {
                Some(result) => result.describe(),
                None => TestResult::Pending.describe(),
            };
            line.append(text.as_str());
            assert(line@ =~= report_line(self@, i as int));
            lines.push(line);
            assert(texts(lines@) =~= headed.push(report_line(self@, i as int)));
            i += 1;
        }
        lines
    }
}

/// The test command: the directories that hold the tests, and the text that
/// the names of the tests to run must begin with.
#[derive(Debug)]
pub struct Test {
    pub test_directories: Vec<PathBuf>,
    pub matching: Option<String>,
}

impl Test {
    /// The lines that show the results of `plan`.
    pub fn display_results(&self, plan: &TestPlan) -> (r: Vec<String>)
        ensures
            texts(r@) == report(plan@, plan@.len() as int),
    {
        plan.report()
    }
}

} // verus!
