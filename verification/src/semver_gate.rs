//! Semantic-version requirement checks, answered by the `semver` crate.
use vstd::prelude::*;

verus! {

/// Whether `semver::VersionReq::parse` accepts the given text.
pub uninterp spec fn semver_req_parses(text: Seq<char>) -> bool;

/// Calls `semver::VersionReq::parse` and reports whether it succeeded. The
/// contract claims only that the answer is a function of the text alone:
/// the parse has no state and reads nothing but its argument.
#[verifier::external_body]
pub(crate) fn version_req_parses(text: &str) -> (r: bool)
    ensures
        r == semver_req_parses(text@),
{
    semver::VersionReq::parse(text).is_ok()
}

} // verus!
