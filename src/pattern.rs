use regex::Error as RegexError;
use regex::Regex;
use vstd::prelude::*;

verus! {

#[verifier::external_type_specification]
#[verifier::external_body]
pub struct ExRegex(Regex);

/// Relies on the `Clone` of regex::Regex, which copies a compiled regex.
pub assume_specification[ <Regex as Clone>::clone ](r: &Regex) -> Regex;

/// The characters that have a meaning of their own in a regular expression.
pub open spec fn is_meta(c: char) -> bool {
    c == '\\' || c == '.' || c == '+' || c == '*' || c == '?' || c == '(' || c == ')' || c
        == '|' || c == '[' || c == ']' || c == '{' || c == '}' || c == '^' || c == '$' || c
        == '#' || c == '&' || c == '-' || c == '~'
}

/// `s` with a backslash put before each meta character, so that a regular
/// expression made of it matches `s` literally.
pub open spec fn escaped(s: Seq<char>) -> Seq<char>
    decreases s.len(),
{
    if s.len() == 0 {
        Seq::empty()
    } else {
        let c = s.last();
        escaped(s.drop_last()) + if is_meta(c) {
            seq!['\\', c]
        } else {
            seq![c]
        }
    }
}

/// `p` anchored at both ends.
pub open spec fn anchored(p: Seq<char>) -> Seq<char> {
    seq!['^'] + p + seq!['$']
}

/// Whether `Regex::new` accepts the pattern `p`.
pub uninterp spec fn regex_accepts(p: Seq<char>) -> bool;

/// Whether the regular expression that `Regex::new` builds from `p` matches
/// somewhere in `hay`.
pub uninterp spec fn regex_is_match(p: Seq<char>, hay: Seq<char>) -> bool;

/// A compiled regular expression together with the pattern it was built from.
/// Values are only made by `compile` (or cloned from one so made), so the
/// regex always is the one that `Regex::new` built from `source`.
#[derive(Clone)]
pub struct CompiledPattern {
    source: String,
    regex: Regex,
}

impl View for CompiledPattern {
    type V = Seq<char>;

    closed spec fn view(&self) -> Seq<char> {
        self.source@
    }
}

impl CompiledPattern {
    /// A second handle on the same compiled regex.
    pub(crate) fn duplicate(&self) -> (r: CompiledPattern)
        ensures
            r@ == self@,
    {
        CompiledPattern { source: self.source.clone(), regex: self.regex.clone() }
    }
}

/// Relies on regex::escape: each meta character gets a backslash before it,
/// every other character is kept as it is.
#[verifier::external_body]
pub(crate) fn escape_literal(s: &str) -> (r: String)
    ensures
        r@ == escaped(s@),
{
    regex::escape(s)
}

/// Relies on regex::Regex::new: it succeeds exactly on the patterns that it
/// accepts, and the regex it returns is the one built from `pattern`.
#[verifier::external_body]
pub(crate) fn compile(pattern: &str) -> (r: Result<CompiledPattern, RegexError>)
    ensures
        r is Ok <==> regex_accepts(pattern@),
        r matches Ok(c) ==> c@ == pattern@,
{
    match Regex::new(pattern) {
        Ok(regex) => Ok(CompiledPattern { source: pattern.to_owned(), regex }),
        Err(e) => Err(e),
    }
}

/// Relies on regex::Regex::is_match: whether the regex matches somewhere in
/// `needle`, which depends on its pattern and `needle` alone.
#[verifier::external_body]
pub(crate) fn pattern_is_match(p: &CompiledPattern, needle: &str) -> (r: bool)
    ensures
        r == regex_is_match(p@, needle@),
{
    p.regex.is_match(needle)
}

} // verus!
