//! The data carried across the comparison pipeline: requests, candidates and
//! ranked match results.

use vstd::prelude::*;

verus! {

/// One candidate to compare against the target: an opaque display name and
/// the URL of an image that should show the candidate's face. Identity is by
/// position in the request's list; the name is passed through unchanged.
#[derive(Debug, Clone, PartialEq, Eq)]
pub struct Person {
    pub name: String,
    pub image_url: String,
}

/// A comparison request: the URL of the target image and the candidates to
/// hold against it, in order.
#[derive(Debug, Clone, PartialEq, Eq)]
pub struct CompareRequest {
    pub target_url: String,
    pub people: Vec<Person>,
}

/// One entry of the response: a candidate whose similarity score exceeded
/// the match threshold, with a display probability.
///
/// `probability` is a display-scaled whole number in `0 ..= 100`, not a
/// calibrated statistical probability: it is the similarity score clamped at
/// zero, scaled to percent and rounded.
#[derive(Debug, Clone, PartialEq, Eq)]
pub struct MatchResult {
    pub name: String,
    pub probability: u32,
}

/// The response to a comparison request: the matching candidates, ordered by
/// `probability` descending. Candidates that failed to fetch, showed no
/// face, or scored at or below the threshold are absent.
#[derive(Debug, Clone, PartialEq, Eq)]
pub struct CompareResponse {
    pub matches: Vec<MatchResult>,
}

} // verus!
