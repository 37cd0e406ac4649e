//! Regular expressions, compiled and applied by the `regex` crate.
//!
//! Which texts a pattern matches is the `regex` crate's business: the
//! library names its results (`regex_accepts_pattern`,
//! `regex_remove_first_match`) instead of restating the regex algorithm.
use vstd::prelude::*;

verus! {

#[verifier::external_type_specification]
#[verifier::external_body]
pub struct ExRegex(regex::Regex);

/// Whether `regex::Regex::new` compiles `pattern` (with the crate's default
/// options) instead of returning an error.
pub uninterp spec fn regex_accepts_pattern(pattern: Seq<char>) -> bool;

/// What `Regex::replace(haystack, "")` returns for the regex compiled from
/// `pattern`: `haystack` with its leftmost-first match removed.
pub uninterp spec fn regex_remove_first_match(pattern: Seq<char>, haystack: Seq<char>) -> Seq<
    char,
>;

/// `result` is `text` with one stretch `text[i..j]` (possibly empty) cut out.
pub open spec fn is_cut_of(result: Seq<char>, text: Seq<char>) -> bool {
    exists|i: int, j: int|
        0 <= i <= j <= text.len() && result == text.subrange(0, i) + text.subrange(j, text.len() as int)
}

/// A regular expression compiled by the `regex` crate, kept together with
/// the pattern text it was compiled from. Only `compile_pattern` builds one,
/// so the regex is always the compilation of that text.
pub struct CompiledPattern {
    source: String,
    re: regex::Regex,
}

impl View for CompiledPattern {
    type V = Seq<char>;

    /// The pattern text the regex was compiled from.
    closed spec fn view(&self) -> Seq<char> {
        self.source@
    }
}

/// Calls `regex::Regex::new(&source)`. Claims that the call succeeds exactly
/// when `regex_accepts_pattern(source@)` holds, and that the compiled pattern
/// remembers `source`. Which patterns compile is left to the crate.
#[verifier::external_body]
pub(crate) fn compile_pattern(source: String) -> (res: Option<CompiledPattern>)
    ensures
        res is Some <==> regex_accepts_pattern(source@),
        res matches Some(p) ==> p@ == source@,
{
    match regex::Regex::new(&source) {
        Ok(re) => Some(CompiledPattern { source, re }),
        Err(_) => None,
    }
}

/// Calls `regex::Regex::replace(haystack, "")` and takes the owned string.
/// Claims that the result is `regex_remove_first_match(pattern, haystack)`,
/// and, as the crate documents for `replace` (replace the leftmost-first
/// match, or return the haystack unchanged when there is none), that it is
/// the haystack with one stretch of it cut out (possibly an empty one).
/// Where the match lies is not stated.
#[verifier::external_body]
pub(crate) fn remove_first_match(pattern: &CompiledPattern, haystack: &str) -> (res: String)
    ensures
        res@ == regex_remove_first_match(pattern@, haystack@),
        is_cut_of(res@, haystack@),
{
    pattern.re.replace(haystack, "").into_owned()
}

} // verus!
