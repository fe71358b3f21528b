//! Semver range matching, delegated to the `node_semver` crate.
//!
//! What a range or version string means under node-flavoured semver takes
//! pages to state, so the outcome is only given a name here: for any two
//! byte strings it is a fixed value, `None` when either side fails to parse
//! (not UTF-8, or not node-semver syntax), and `Some(b)` when both parse and
//! the version does (`b`) or does not (`!b`) satisfy the range.

use vstd::prelude::*;

verus! {

/// The outcome of node-semver matching for a range and a version, both given
/// as UTF-8 bytes: `None` when either fails to parse, otherwise whether the
/// version satisfies the range.
pub uninterp spec fn semver_decision(range: Seq<u8>, version: Seq<u8>) -> Option<bool>;

/// Relies on `node_semver::Range::parse`, `node_semver::Version::parse` and
/// `node_semver::Range::satisfies`: all three are pure parsers/predicates,
/// so the outcome is a function of the two byte strings alone.
#[verifier::external_body]
pub fn semver_check(range: &[u8], version: &[u8]) -> (r: Option<bool>)
    ensures
        r == semver_decision(range@, version@),
{
    let range = match core::str::from_utf8(range) {
        Ok(s) => s,
        Err(_) => return None,
    };
    let version = match core::str::from_utf8(version) {
        Ok(s) => s,
        Err(_) => return None,
    };
    match (node_semver::Range::parse(range), node_semver::Version::parse(version)) {
        (Ok(r), Ok(v)) => Some(r.satisfies(&v)),
        _ => None,
    }
}

} // verus!
