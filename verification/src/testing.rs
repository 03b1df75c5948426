//! The test cases that a descriptor carries for its package: how each is
//! read, which program it starts with which arguments, and how its outcome
//! is judged.

use vstd::prelude::*;
use crate::json::{text_at, texts_in, texts_of, Json};
use crate::paths::{join_path, joined};
use crate::search::{multiline, output_matches, regex_compiles, regex_finds, BadRegex};
use crate::text::{chars_of, is_str, push_str, replace_all, replaced, string_of, views};

verus! {

/// What stands in an argument for the installation's home directory.
pub const PREFIX_CALL: &'static str = "$(cbp prefix)";

/// One test of a package.
#[derive(Debug)]
pub struct TestCase {
    /// The name under which the test is reported.
    pub name: String,
    /// The program, by name.
    pub command: String,
    /// The arguments as the descriptor gives them.
    pub args: Vec<String>,
    /// Whether a failing exit status is passed over.
    pub ignore_exit_code: bool,
    /// The expression that the output must match, if any.
    pub pattern: Option<String>,
}

/// A test as plain values.
pub struct TestView {
    pub name: Seq<char>,
    pub command: Seq<char>,
    pub args: Seq<Seq<char>>,
    pub ignore_exit_code: bool,
    pub pattern: Option<Seq<char>>,
}

impl View for TestCase {
    type V = TestView;

    open spec fn view(&self) -> TestView {
        TestView {
            name: self.name@,
            command: self.command@,
            args: views(self.args@),
            ignore_exit_code: self.ignore_exit_code,
            pattern: match self.pattern {
                Some(p) => Some(p@),
                None => None,
            },
        }
    }
}

/// The views of a sequence of tests.
pub open spec fn test_views(cases: Seq<TestCase>) -> Seq<TestView> {
    Seq::new(cases.len(), |i: int| cases[i]@)
}

/// The character of a digit below ten.
pub open spec fn digit(d: int) -> char {
    if d == 0 {
        '0'
    } else if d == 1 {
        '1'
    } else if d == 2 {
        '2'
    } else if d == 3 {
        '3'
    } else if d == 4 {
        '4'
    } else if d == 5 {
        '5'
    } else if d == 6 {
        '6'
    } else if d == 7 {
        '7'
    } else if d == 8 {
        '8'
    } else {
        '9'
    }
}

/// A number in decimal digits.
pub open spec fn decimal(n: nat) -> Seq<char>
    decreases n,
{
    if n < 10 {
        seq![digit(n as int)]
    } else {
        decimal(n / 10).push(digit((n % 10) as int))
    }
}

/// The name of a test that has none: its number after `test #`.
pub open spec fn default_name(index: int) -> Seq<char> {
    "test #"@ + decimal(index as nat)
}

/// The arguments of a test: a text counts as one argument, of an array
/// the texts count, and anything else as none.
pub open spec fn args_of(obj: Json) -> Seq<Seq<char>> {
    match obj.field("args"@) {
        Some(Json::Text(s)) => seq![s@],
        Some(Json::Array(a)) => texts_in(a@),
        _ => Seq::empty(),
    }
}

/// The test that the item at `index` of `tests` describes; none where it
/// names no command.
pub open spec fn case_of(obj: Json, index: int) -> Option<TestView> {
    match text_at(obj, "command"@) {
        None => None,
        Some(command) => Some(
            TestView {
                name: match text_at(obj, "name"@) {
                    Some(name) => name,
                    None => default_name(index),
                },
                command: command,
                args: args_of(obj),
                ignore_exit_code: obj.field("ignore_exit_code"@) matches Some(Json::Bool(b)) && b,
                pattern: text_at(obj, "pattern"@),
            },
        ),
    }
}

/// All items describe a test.
pub open spec fn all_cases(items: Seq<Json>) -> bool {
    forall|i: int| 0 <= i < items.len() ==> case_of(#[trigger] items[i], i) is Some
}

/// The tests that the items describe.
pub open spec fn cases_of(items: Seq<Json>) -> Seq<TestView> {
    Seq::new(items.len(), |i: int| case_of(items[i], i).unwrap())
}

/// The digit of a number below ten.
fn digit_char(d: usize) -> (c: char)
    requires
        d < 10,
    ensures
        c == digit(d as int),
{
    if d == 0 {
        '0'
    } else if d == 1 {
        '1'
    } else if d == 2 {
        '2'
    } else if d == 3 {
        '3'
    } else if d == 4 {
        '4'
    } else if d == 5 {
        '5'
    } else if d == 6 {
        '6'
    } else if d == 7 {
        '7'
    } else if d == 8 {
        '8'
    } else {
        '9'
    }
}

/// Appends the decimal digits of `n`.
fn push_decimal(out: &mut Vec<char>, n: usize)
    ensures
        final(out)@ == old(out)@ + decimal(n as nat),
    decreases n,
{
    if n < 10 {
        out.push(digit_char(n));
        assert(out@ =~= old(out)@ + decimal(n as nat));
    } else {
        push_decimal(out, n / 10);
        out.push(digit_char(n % 10));
        assert(out@ =~= old(out)@ + decimal(n as nat));
    }
}

/// The test that one item of `tests` describes.
pub fn read_case(obj: &Json, index: usize) -> (out: Option<TestCase>)
    ensures
        match out {
            Some(case) => case_of(*obj, index as int) == Some(case@),
            None => case_of(*obj, index as int) is None,
        },
{
    let command = match obj.get_text("command") {
        None => {
            return None;
        },
        Some(c) => c.clone(),
    };
    let name = match obj.get_text("name") {
        Some(n) => n.clone(),
        None => {
            let mut text: Vec<char> = Vec::new();
            push_str(&mut text, "test #");
            push_decimal(&mut text, index);
            assert(text@ =~= default_name(index as int));
            string_of(text.as_slice())
        },
    };
    let args = match obj.get("args") {
        Some(Json::Text(s)) => {
            let mut one: Vec<String> = Vec::new();
            one.push(s.clone());
            assert(views(one@) =~= seq![s@]);
            one
        },
        Some(Json::Array(items)) => texts_of(items),
        _ => {
            let none: Vec<String> = Vec::new();
            assert(views(none@) =~= Seq::<Seq<char>>::empty());
            none
        },
    };
    let ignore_exit_code = match obj.get("ignore_exit_code") {
        Some(Json::Bool(b)) => *b,
        _ => false,
    };
    let pattern = match obj.get_text("pattern") {
        Some(p) => Some(p.clone()),
        None => None,
    };
    Some(TestCase { name, command, args, ignore_exit_code, pattern })
}

/// What a document says of tests.
#[derive(Debug)]
pub enum Tests {
    /// The document defines no tests: `tests` is missing or no array.
    Undefined,
    /// The tests, in order.
    Cases(Vec<TestCase>),
    /// The test at this place names no command.
    MissingCommand(usize),
}

/// The tests of a package, read from its document.
pub fn read_tests(json: &Json) -> (out: Tests)
    ensures
        match out {
            Tests::Undefined => json.field("tests"@) is None || json.field(
                "tests"@,
            ).unwrap().items() is None,
            Tests::Cases(cases) => {
                &&& json.field("tests"@) is Some
                &&& json.field("tests"@).unwrap().items() is Some
                &&& all_cases(json.field("tests"@).unwrap().items().unwrap())
                &&& test_views(cases@) == cases_of(json.field("tests"@).unwrap().items().unwrap())
            },
            Tests::MissingCommand(at) => {
                &&& json.field("tests"@) is Some
                &&& json.field("tests"@).unwrap().items() is Some
                &&& at < json.field("tests"@).unwrap().items().unwrap().len()
                &&& case_of(json.field("tests"@).unwrap().items().unwrap()[at as int], at as int)
                    is None
                &&& forall|i: int|
                    0 <= i < at ==> case_of(
                        #[trigger] json.field("tests"@).unwrap().items().unwrap()[i],
                        i,
                    ) is Some
            },
        },
{
    match json.get("tests") {
        Some(Json::Array(items)) => {
            let mut cases: Vec<TestCase> = Vec::new();
            let mut i: usize = 0;
            while i < items.len()
                invariant
                    i <= items.len(),
                    cases.len() == i,
                    json.field("tests"@) is Some,
                    json.field("tests"@).unwrap().items() == Some(items@),
                    forall|j: int| 0 <= j < i ==> case_of(#[trigger] items@[j], j) == Some(
                        cases@[j]@,
                    ),
                decreases items.len() - i,
            {
                match read_case(&items[i], i) {
                    None => {
                        return Tests::MissingCommand(i);
                    },
                    Some(case) => {
                        cases.push(case);
                    },
                }
                i += 1;
            }
            assert(test_views(cases@) =~= cases_of(items@));
            Tests::Cases(cases)
        },
        _ => Tests::Undefined,
    }
}

/// The programs that are started by name, from the search path.
pub open spec fn is_system_command(command: Seq<char>) -> bool {
    ||| command == "ls"@
    ||| command == "cat"@
    ||| command == "grep"@
    ||| command == "find"@
    ||| command == "which"@
    ||| command == "test"@
    ||| command == "mkdir"@
    ||| command == "rm"@
    ||| command == "cp"@
    ||| command == "mv"@
}

/// The program that a test starts: a system command by its name, any
/// other from the installation's `bin` directory.
pub open spec fn program_of(command: Seq<char>, bin_dir: Seq<char>) -> Seq<char> {
    if is_system_command(command) {
        command
    } else {
        joined(bin_dir, command)
    }
}

/// The program that a test starts.
pub fn command_path(command: &str, bin_dir: &str) -> (out: String)
    ensures
        out@ == program_of(command@, bin_dir@),
{
    let c = chars_of(command);
    let s = c.as_slice();
    if is_str(s, "ls") || is_str(s, "cat") || is_str(
        s,
        "grep",
    ) || is_str(s, "find") || is_str(s, "which")
        || is_str(s, "test") || is_str(s, "mkdir")
        || is_str(s, "rm") || is_str(s, "cp") || is_str(
        s,
        "mv",
    ) {
        string_of(s)
    } else {
        join_path(bin_dir, command)
    }
}

/// The arguments with the home directory in place of each call for it.
pub open spec fn expanded(args: Seq<Seq<char>>, home: Seq<char>) -> Seq<Seq<char>> {
    Seq::new(args.len(), |i: int| replaced(args[i], PREFIX_CALL@, home))
}

/// The arguments that a test is started with: those of the descriptor,
/// with the home directory wherever they ask for it.
pub fn expand_args(args: &Vec<String>, home: &str) -> (out: Vec<String>)
    ensures
        views(out@) == expanded(views(args@), home@),
{
    let mut out: Vec<String> = Vec::new();
    let mut i: usize = 0;
    while i < args.len()
        invariant
            i <= args.len(),
            out.len() == i,
            forall|j: int| 0 <= j < i ==> out@[j]@ == replaced(args@[j]@, PREFIX_CALL@, home@),
        decreases args.len() - i,
    {
        out.push(replace_all(args[i].as_str(), PREFIX_CALL, home));
        i += 1;
    }
    assert(views(out@) =~= expanded(views(args@), home@));
    out
}

/// How a test ended.
#[derive(Debug, Clone, Copy, PartialEq, Eq, Structural)]
pub enum Verdict {
    Passed,
    /// The command failed and its exit status counts.
    FailedExit,
    /// The output does not match the expression.
    FailedPattern,
}

/// The verdict on a test from whether its command succeeded and, where
/// the test has an expression, whether the output matches it: a failing
/// status that counts fails the test before the output is looked at.
pub open spec fn verdict_of(
    succeeded: bool,
    ignore_exit_code: bool,
    matched: Option<bool>,
) -> Verdict {
    if !succeeded && !ignore_exit_code {
        Verdict::FailedExit
    } else {
        match matched {
            Some(false) => Verdict::FailedPattern,
            _ => Verdict::Passed,
        }
    }
}

/// The verdict on a test, given whether the output matches its
/// expression.
pub fn verdict(succeeded: bool, ignore_exit_code: bool, matched: Option<bool>) -> (out: Verdict)
    ensures
        out == verdict_of(succeeded, ignore_exit_code, matched),
{
    if !succeeded && !ignore_exit_code {
        Verdict::FailedExit
    } else {
        match matched {
            Some(false) => Verdict::FailedPattern,
            _ => Verdict::Passed,
        }
    }
}

/// Judges a test from whether its command succeeded and from its output,
/// standard output and errors together. The expression is compiled only
/// where the exit status lets the test go on; an error where it does not
/// compile then.
pub fn judge(case: &TestCase, succeeded: bool, output: &str) -> (r: Result<Verdict, BadRegex>)
    ensures
        match r {
            Ok(v) => if !succeeded && !case.ignore_exit_code {
                v == Verdict::FailedExit
            } else {
                match case@.pattern {
                    None => v == Verdict::Passed,
                    Some(p) => regex_compiles(multiline(p)) && v == verdict_of(
                        succeeded,
                        case.ignore_exit_code,
                        Some(regex_finds(multiline(p), output@)),
                    ),
                }
            },
            Err(_) => (succeeded || case.ignore_exit_code) && case@.pattern is Some
                && !regex_compiles(multiline(case@.pattern.unwrap())),
        },
{
    if !succeeded && !case.ignore_exit_code {
        return Ok(Verdict::FailedExit);
    }
    match &case.pattern {
        None => Ok(Verdict::Passed),
        Some(p) => match output_matches(p.as_str(), output) {
            Err(e) => Err(e),
            Ok(hit) => Ok(verdict(succeeded, case.ignore_exit_code, Some(hit))),
        },
    }
}

} // verus!
