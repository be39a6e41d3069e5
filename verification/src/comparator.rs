//! Scoring decisions: the match threshold and the probability transform.
//!
//! The face engine reports similarity as a cosine-like score, roughly in
//! `[-1, 1]` but not bounded by contract. The pipeline never handles that
//! score as a machine float: callers hand it over scaled to thousandths
//! (`0.363` becomes `363`), which keeps every decision here exact.

use vstd::prelude::*;

verus! {

/// The calibrated decision threshold for the embedding family in use, in
/// thousandths of the raw similarity score: two signatures are declared a
/// match only when their score strictly exceeds `0.363`. Callers may pass a
/// different threshold to suit a face engine with another score
/// distribution.
pub const DEFAULT_MATCH_THRESHOLD_MILLIS: i64 = 363;

/// The display probability for a raw similarity score given in thousandths:
/// the score clamped at zero, scaled to percent and rounded half-up, then
/// clamped at 100. Always a whole number in `0 ..= 100`.
pub open spec fn probability_of(score_millis: int) -> int {
    if score_millis <= 0 {
        0
    } else if score_millis >= 995 {
        100
    } else {
        (score_millis + 5) / 10
    }
}

/// The probability is never negative and never exceeds 100.
pub proof fn lemma_probability_of_bounds(score_millis: int)
    ensures
        0 <= probability_of(score_millis) <= 100,
{
}

/// Whether a score, in thousandths, strictly exceeds the threshold, in
/// thousandths.
pub open spec fn is_match_spec(score_millis: int, threshold_millis: int) -> bool {
    score_millis > threshold_millis
}

/// Computes the display probability for a raw similarity score given in
/// thousandths.
pub fn probability_for_score(score_millis: i64) -> (p: u32)
    ensures
        p as int == probability_of(score_millis as int),
{
    if score_millis <= 0 {
        0
    } else if score_millis >= 995 {
        100
    } else {
        ((score_millis + 5) / 10) as u32
    }
}

/// Decides whether a score, in thousandths, counts as a match against the
/// given threshold, in thousandths.
pub fn is_match(score_millis: i64, threshold_millis: i64) -> (r: bool)
    ensures
        r == is_match_spec(score_millis as int, threshold_millis as int),
{
    score_millis > threshold_millis
}

} // verus!
