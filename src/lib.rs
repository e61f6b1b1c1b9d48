//! Matching of runtime values against policy patterns: plain literals, or
//! templates whose delimited regions hold embedded regular expressions.
mod cache;
mod err;
mod matcher;
mod pattern;
mod template;

pub use cache::{lemma_single_entry_evicts, CacheKey};
pub use err::Error;
pub use matcher::{lemma_first_match_decides, Matcher, Regexp};
pub use pattern::CompiledPattern;
pub use template::{build_regex, delimiter_indices, lemma_one_region};
