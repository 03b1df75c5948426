//! Regular expressions, as the `regex` crate compiles and applies them.

use vstd::prelude::*;
use crate::text::{push_str, string_of};

verus! {

/// The error that the `regex` crate gives for an expression it cannot
/// compile.
#[verifier::external_type_specification]
#[verifier::external_body]
pub struct ExRegexError(regex::Error);

/// Whether `regex` compiles the expression.
pub uninterp spec fn regex_compiles(pattern: Seq<char>) -> bool;

/// Whether the expression has a match somewhere in `text`.
pub uninterp spec fn regex_finds(pattern: Seq<char>, text: Seq<char>) -> bool;

/// `text` with `with` in place of the first match of the expression;
/// `text` itself where there is no match.
pub uninterp spec fn regex_swap(pattern: Seq<char>, text: Seq<char>, with: Seq<char>) -> Seq<
    char,
>;

/// An expression that could not be compiled.
#[derive(Debug, Clone)]
pub struct BadRegex {
    /// What is wrong with the expression.
    pub message: String,
}

/// Compiles an expression with `regex::Regex::new` and searches with
/// `regex::Regex::is_match`, which is true exactly where the expression
/// matches somewhere in the text. Whether the expression compiles depends
/// on its text alone.
#[verifier::external_body]
pub(crate) fn search(pattern: &str, text: &str) -> (r: Result<bool, regex::Error>)
    ensures
        r is Ok <==> regex_compiles(pattern@),
        r matches Ok(hit) ==> hit == regex_finds(pattern@, text@),
{
    Ok(regex::Regex::new(pattern)?.is_match(text))
}

/// Compiles an expression with `regex::Regex::new` and replaces its first
/// match with `regex::Regex::replace`.
#[verifier::external_body]
pub(crate) fn replace_first(pattern: &str, text: &str, with: &str) -> (r: Result<
    String,
    regex::Error,
>)
    ensures
        r is Ok <==> regex_compiles(pattern@),
        r matches Ok(out) ==> out@ == regex_swap(pattern@, text@, with@),
{
    Ok(regex::Regex::new(pattern)?.replace(text, with).into_owned())
}

/// Puts a compile error into words with its `Display` form.
#[verifier::external_body]
pub(crate) fn describe(error: regex::Error) -> (out: BadRegex) {
    BadRegex { message: error.to_string() }
}

/// The expression as it is applied to the output of a test: in multi-line
/// mode, so that `$` matches at the end of each line.
pub open spec fn multiline(pattern: Seq<char>) -> Seq<char> {
    "(?m)"@ + pattern
}

/// Whether the expression, in multi-line mode, matches somewhere in the
/// output of a command. An error exactly where it does not compile.
pub fn output_matches(pattern: &str, output: &str) -> (r: Result<bool, BadRegex>)
    ensures
        match r {
            Ok(hit) => regex_compiles(multiline(pattern@)) && hit == regex_finds(
                multiline(pattern@),
                output@,
            ),
            Err(_) => !regex_compiles(multiline(pattern@)),
        },
{
    let mut text: Vec<char> = Vec::new();
    push_str(&mut text, "(?m)");
    push_str(&mut text, pattern);
    assert(text@ =~= multiline(pattern@));
    let full = string_of(text.as_slice());
    match search(full.as_str(), output) {
        Err(e) => Err(describe(e)),
        Ok(hit) => Ok(hit),
    }
}

} // verus!
