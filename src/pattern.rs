//! Whether a pattern literal compiles.
use vstd::prelude::*;

verus! {

/// Whether the text compiles as a regular expression.
pub uninterp spec fn pattern_compiles(s: Seq<char>) -> bool;

/// Relies on regex::Regex::new: it fails exactly on text that does not
/// compile, which depends on the text alone.
#[verifier::external_body]
pub(crate) fn pattern_is_valid(s: &str) -> (r: bool)
    ensures
        r == pattern_compiles(s@),
{
    regex::Regex::new(s).is_ok()
}

} // verus!
