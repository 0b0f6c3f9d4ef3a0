//! Splitting an input line into tokens with a regular expression, and the
//! checks a caller makes on the tokens before parsing them.

use vstd::prelude::*;
use vstd::std_specs::slice::{into_iter_elts, axiom_spec_slice_iter};
use vstd::string::StringExecFns;

use crate::error::LexError;
use crate::text::{eq_ignore_ascii_case, same_ignoring_ascii_case, texts};

verus! {

#[verifier::external_type_specification]
#[verifier::external_body]
pub struct ExRegex(regex::Regex);

#[verifier::external_type_specification]
#[verifier::external_body]
pub struct ExRegexError(regex::Error);

/// Whether a regular expression pattern compiles.
pub uninterp spec fn compiles(pattern: Seq<char>) -> bool;

/// The successive non-overlapping matches of a pattern in a haystack.
pub uninterp spec fn regex_matches(pattern: Seq<char>, haystack: Seq<char>) -> Seq<Seq<char>>;

/// The pattern that splits an input line into numbers, words and the
/// operator symbols `( ) * / + -`.
pub const REGEX_STRING: &'static str = r"\b[0-9]+(?:\.[0-9]+){0,1}|\w+\b|(?:\b|\B)[()*/+-](?:\b|\B)";

/// Relies on `regex::Regex::new`: whether it succeeds depends on the pattern
/// alone (its syntax, and the default size limit).
#[verifier::external_body]
fn compile_regex(pattern: &str) -> (r: Result<regex::Regex, regex::Error>)
    ensures
        r is Ok <==> compiles(pattern@),
{
    regex::Regex::new(pattern)
}

/// A compiled regular expression together with its source text. Only
/// `Pattern::new` builds one, so `compiled` is always the regex compiled from
/// `source`.
pub struct Pattern {
    source: String,
    compiled: regex::Regex,
}

impl View for Pattern {
    type V = Seq<char>;

    /// The source text the pattern was compiled from.
    closed spec fn view(&self) -> Seq<char> {
        self.source@
    }
}

impl Pattern {
    /// Compiles `pattern`; a pattern that does not compile is an
    /// `InvalidPattern`.
    pub fn new(pattern: &str) -> (r: Result<Pattern, LexError>)
        ensures
            r is Ok <==> compiles(pattern@),
            r matches Ok(p) ==> p@ == pattern@,
            r matches Err(e) ==> e == LexError::InvalidPattern,
    {
        match compile_regex(pattern) {
            Ok(compiled) => Ok(Pattern { source: String::from_str(pattern), compiled }),
            Err(_) => Err(LexError::InvalidPattern),
        }
    }
}

/// Relies on `regex::Regex::find_iter`, on the regex compiled from the
/// pattern's source: the texts of the successive non-overlapping matches in
/// `haystack`, which depend on the pattern and the haystack alone.
#[verifier::external_body]
fn find_matches(rgx: &Pattern, haystack: &str) -> (r: Vec<String>)
    ensures
        texts(r@) == regex_matches(rgx@, haystack@),
{
    rgx.compiled.find_iter(haystack).map(|m| m.as_str().to_string()).collect()
}

/// The matches of `rgx` in `haystack`, in order, as owned strings.
pub fn build_tokenised_string(rgx: &Pattern, haystack: &str) -> (r: Vec<String>)
    ensures
        texts(r@) == regex_matches(rgx@, haystack@),
{
    find_matches(rgx, haystack)
}

/// Some token equals `word`, ignoring ASCII case.
pub open spec fn has_word(tokens: Seq<Seq<char>>, word: Seq<char>) -> bool {
    exists|i: int| 0 <= i < tokens.len() && same_ignoring_ascii_case(#[trigger] tokens[i], word)
}

/// The tokens of an input line.
#[derive(Debug)]
pub struct StringTokenizer {
    tokenised_string: Vec<String>,
}

impl View for StringTokenizer {
    type V = Seq<Seq<char>>;

    closed spec fn view(&self) -> Seq<Seq<char>> {
        texts(self.tokenised_string@)
    }
}

impl StringTokenizer {
    /// The tokens of `haystack`: the matches of `rgx` in it, in order.
    pub fn new(rgx: Pattern, haystack: &str) -> (r: Self)
        ensures
            r@ == regex_matches(rgx@, haystack@),
    {
        StringTokenizer { tokenised_string: build_tokenised_string(&rgx, haystack) }
    }

    /// The tokens, in order.
    pub fn tokens(&self) -> (r: &Vec<String>)
        ensures
            texts(r@) == self@,
    {
        &self.tokenised_string
    }

    /// An iterator over the tokens, in order.
    pub fn iter(&self) -> (r: std::slice::Iter<'_, String>)
        ensures
            texts(into_iter_elts(r)) == self@,
    {
        broadcast use axiom_spec_slice_iter;

        self.tokenised_string.as_slice().iter()
    }

    /// Whether some token equals `exit_string`, ignoring ASCII case.
    pub fn contains(&self, exit_string: &str) -> (r: bool)
        ensures
            r == has_word(self@, exit_string@),
    {
        contains_word(&self.tokenised_string, exit_string)
    }
}

/// Whether some token equals `word`, ignoring ASCII case.
pub fn contains_word(tokens: &Vec<String>, word: &str) -> (r: bool)
    ensures
        r == has_word(texts(tokens@), word@),
{
    let n = tokens.len();
    let mut i: usize = 0;
    while i < n
        invariant
            n == tokens@.len(),
            i <= n,
            forall|k: int|
                0 <= k < i ==> !same_ignoring_ascii_case(#[trigger] tokens@[k]@, word@),
        decreases n - i,
    {
        if eq_ignore_ascii_case(tokens[i].as_str(), word) {
            assert(texts(tokens@)[i as int] == tokens@[i as int]@);
            return true;
        }
        i += 1;
    }
    proof {
        assert forall|k: int| 0 <= k < texts(tokens@).len() implies !same_ignoring_ascii_case(
            #[trigger] texts(tokens@)[k],
            word@,
        ) by {
            assert(texts(tokens@)[k] == tokens@[k]@);
        }
    }
    false
}

} // verus!
