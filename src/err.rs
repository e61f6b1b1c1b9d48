use regex::Error as RegexError;
use vstd::prelude::*;

verus! {

#[verifier::external_type_specification]
#[verifier::external_body]
pub struct ExRegexError(RegexError);

/// The errors that the matching core and the surrounding policy engine report.
#[derive(Debug)]
pub enum Error {
    Deny(String),
    NotMatched,
    InvalidCacheSize(usize),
    LockError(String),
    CompileRegexError(RegexError),
    UnbalancedBraces(String),
    NotIndex(String),
    NotFoundConditionType(String),
}

} // verus!
