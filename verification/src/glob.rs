//! Glob matching: evaluates a resource name against a compiled glob rule.

use vstd::prelude::*;
use vstd::string::StringSliceAdditionalSpecFns;
use crate::bytes_util::{
    contains_bytes, ends_with_bytes, is_prefix, is_substring, is_suffix, starts_with_bytes,
};
use crate::rule::{GlobRule, GlobType};

verus! {

/// What the regex engine answers for the pattern bytes matched anywhere
/// against the name bytes: the pattern is compiled as a regular expression;
/// one that is not valid UTF-8 or does not compile matches nothing. The
/// answer depends on the two byte sequences alone.
pub uninterp spec fn regex_match_of(pattern: Seq<u8>, name: Seq<u8>) -> bool;

/// Relies on regex::Regex::new and regex::Regex::is_match: whether the
/// pattern, compiled as a regular expression, matches anywhere in the name;
/// both are pure functions of the pattern and name bytes.
#[verifier::external_body]
fn regex_is_match(pattern: &Vec<u8>, name: &[u8]) -> (r: bool)
    ensures
        r == regex_match_of(pattern@, name@),
{
    match (std::str::from_utf8(pattern.as_slice()), std::str::from_utf8(name)) {
        (Ok(p), Ok(n)) => regex::Regex::new(p).map(|re| re.is_match(n)).unwrap_or(false),
        _ => false,
    }
}

/// A glob rule matches a resource name (given as UTF-8 bytes): a byte
/// prefix, suffix or substring, or a regular-expression match. An empty
/// pattern never matches.
pub open spec fn glob_rule_matches(name: Seq<u8>, r: GlobRule) -> bool {
    &&& r.pattern@.len() > 0
    &&& match r.glob_type {
        GlobType::StartsWith => is_prefix(name, r.pattern@),
        GlobType::EndsWith => is_suffix(name, r.pattern@),
        GlobType::Contains => is_substring(name, r.pattern@),
        GlobType::Regex => regex_match_of(r.pattern@, name),
    }
}

/// Evaluate a glob rule against a resource name; case-sensitive.
pub fn run_glob(resource_name: &str, glob_rule: &GlobRule) -> (r: bool)
    ensures
        r == glob_rule_matches(resource_name.spec_bytes(), *glob_rule),
{
    if glob_rule.pattern.len() == 0 {
        return false;
    }
    let name = resource_name.as_bytes();
    match glob_rule.glob_type {
        GlobType::StartsWith => starts_with_bytes(name, glob_rule.pattern.as_slice()),
        GlobType::EndsWith => ends_with_bytes(name, glob_rule.pattern.as_slice()),
        GlobType::Contains => contains_bytes(name, glob_rule.pattern.as_slice()),
        GlobType::Regex => regex_is_match(&glob_rule.pattern, name),
    }
}

} // verus!
