//! The comparison pipeline: turns per-image outcomes into a ranked response.
//!
//! The network, the image decoder and the face engine live outside this
//! crate; the pipeline sees them only through plain outcome values. A caller
//! drives one comparison request through the [`Comparison`] state machine:
//! it asks for the next action (fetch the target, process one candidate, or
//! finish), performs it, and reports the outcome. Every decision — skipping
//! failed candidates, thresholding, the probability transform, the ranking —
//! is made and verified here.
//!
//! Per-candidate failures are fully isolated by design: a candidate that
//! fails to fetch, shows no face, or fails to score is simply absent from
//! the response, and no failure affects any other candidate or the target.
//! A target that cannot be fetched or yields no signature degrades the whole
//! response to an empty match list rather than an error.

use vstd::prelude::*;
use crate::comparator::is_match;
use crate::comparator::is_match_spec;
use crate::comparator::lemma_probability_of_bounds;
use crate::comparator::probability_for_score;
use crate::comparator::probability_of;
use crate::models::CompareRequest;
use crate::models::CompareResponse;
use crate::models::MatchResult;
use crate::models::Person;
use crate::ranking::insert_desc;
use crate::ranking::insert_sorted_desc;
use crate::ranking::lemma_sort_desc_contains;
use crate::ranking::lemma_sort_desc_sorted;
use crate::ranking::sort_desc;
use crate::ranking::sorted_desc;

verus! {

/// What became of the attempt to produce the target's face signature.
/// Anything but `Ready` degrades the whole response to an empty match list.
#[derive(Debug, Clone, Copy, PartialEq, Eq)]
pub enum TargetOutcome {
    /// The target image could not be fetched or decoded.
    FetchFailed,
    /// The target image was decoded but no face was detected in it.
    NoFaceFound,
    /// The face engine faulted while detecting or embedding.
    ExtractionFailed,
    /// A target signature was produced; candidates can be scored against it.
    Ready,
}

/// What became of one candidate: either a similarity score against the
/// target, in thousandths, or one of the failure kinds. Every failure kind
/// is recovered identically — the candidate is skipped.
#[derive(Debug, Clone, Copy, PartialEq, Eq)]
pub enum CandidateOutcome {
    /// The candidate's image could not be fetched or decoded.
    FetchFailed,
    /// The candidate's image showed no detectable face.
    NoFaceFound,
    /// The face engine faulted while detecting or embedding.
    ExtractionFailed,
    /// The engine faulted while scoring the signatures.
    ScoringFailed,
    /// The candidate's signature scored against the target's, in
    /// thousandths of the raw similarity score.
    Scored(i64),
}

/// The next piece of outside work a comparison asks its caller for.
#[derive(Debug, Clone, Copy, PartialEq, Eq)]
pub enum Action {
    /// Fetch the target image and extract its signature, then report a
    /// [`TargetOutcome`].
    FetchTarget,
    /// Fetch, extract and score the candidate at this position, then report
    /// a [`CandidateOutcome`].
    ProcessCandidate(usize),
    /// The comparison is complete; take the response.
    Finished,
}

/// Where a comparison stands.
#[derive(Debug, Clone, Copy, PartialEq, Eq)]
pub enum Phase {
    /// Waiting for the target's outcome.
    AwaitingTarget,
    /// The target signature is ready; candidates are scored one by one.
    Scoring,
    /// All work is done; the response is ready.
    Done,
}

/// Whether an outcome makes its candidate a match: it scored, and the score
/// strictly exceeds the threshold.
pub open spec fn is_accepted(o: CandidateOutcome, threshold_millis: int) -> bool {
    match o {
        CandidateOutcome::Scored(s) => is_match_spec(s as int, threshold_millis),
        _ => false,
    }
}

/// The score carried by a `Scored` outcome.
pub open spec fn outcome_score(o: CandidateOutcome) -> int {
    match o {
        CandidateOutcome::Scored(s) => s as int,
        _ => 0,
    }
}

/// The response entry an accepted candidate produces: the candidate's name,
/// unchanged, and the display probability of its score.
pub open spec fn match_for(p: Person, o: CandidateOutcome) -> MatchResult {
    MatchResult { name: p.name, probability: probability_of(outcome_score(o)) as u32 }
}

/// The results of the accepted candidates, in input order: one entry per
/// outcome that scored strictly above the threshold, none for any failure.
pub open spec fn selected_matches(
    people: Seq<Person>,
    outcomes: Seq<CandidateOutcome>,
    threshold_millis: int,
) -> Seq<MatchResult>
    decreases outcomes.len(),
{
    if outcomes.len() == 0 {
        Seq::empty()
    } else {
        let prev = selected_matches(people, outcomes.drop_last(), threshold_millis);
        let i = outcomes.len() - 1;
        if i < people.len() && is_accepted(outcomes[i], threshold_millis) {
            prev.push(match_for(people[i], outcomes[i]))
        } else {
            prev
        }
    }
}

/// The whole response as a function of the plain outcomes: empty when the
/// target yielded no signature, otherwise the accepted candidates' results
/// in stable descending probability order.
pub open spec fn response_spec(
    target_ready: bool,
    people: Seq<Person>,
    outcomes: Seq<CandidateOutcome>,
    threshold_millis: int,
) -> Seq<MatchResult> {
    if target_ready {
        sort_desc(selected_matches(people, outcomes, threshold_millis))
    } else {
        Seq::empty()
    }
}

/// Unfolds the selection over one more outcome: an accepted outcome appends
/// its result, any other outcome changes nothing.
pub proof fn lemma_selected_matches_push(
    people: Seq<Person>,
    outcomes: Seq<CandidateOutcome>,
    o: CandidateOutcome,
    threshold_millis: int,
)
    requires
        outcomes.len() < people.len(),
    ensures
        is_accepted(o, threshold_millis) ==> selected_matches(people, outcomes.push(o), threshold_millis)
            == selected_matches(people, outcomes, threshold_millis).push(
            match_for(people[outcomes.len() as int], o),
        ),
        !is_accepted(o, threshold_millis) ==> selected_matches(people, outcomes.push(o), threshold_millis)
            == selected_matches(people, outcomes, threshold_millis),
{
    assert(outcomes.push(o).drop_last() =~= outcomes);
    assert(outcomes.push(o).last() == o);
}

/// Unfolds the sort over one more element: sorting after a push is the same
/// as inserting into the already sorted results.
pub proof fn lemma_sort_desc_push(s: Seq<MatchResult>, m: MatchResult)
    ensures
        sort_desc(s.push(m)) == insert_desc(sort_desc(s), m),
{
    assert(s.push(m).drop_last() =~= s);
    assert(s.push(m).last() == m);
}

/// The batch form of the pipeline's decisions: given the target's outcome
/// and one outcome per candidate, produce the response in one call.
pub fn compare_outcomes(
    target: TargetOutcome,
    people: &Vec<Person>,
    outcomes: &Vec<CandidateOutcome>,
    threshold_millis: i64,
) -> (r: CompareResponse)
    requires
        outcomes@.len() == people@.len(),
    ensures
        r.matches@ == response_spec(
            target is Ready,
            people@,
            outcomes@,
            threshold_millis as int,
        ),
{
    match target {
        TargetOutcome::Ready => {
            let mut acc: Vec<MatchResult> = Vec::new();
            proof {
                assert(outcomes@.take(0) =~= Seq::<CandidateOutcome>::empty());
                assert(acc@ =~= sort_desc(
                    selected_matches(people@, outcomes@.take(0), threshold_millis as int),
                ));
            }
            let mut i: usize = 0;
            while i < outcomes.len()
                invariant
                    i <= outcomes@.len(),
                    outcomes@.len() == people@.len(),
                    acc@ == sort_desc(
                        selected_matches(people@, outcomes@.take(i as int), threshold_millis as int),
                    ),
                decreases outcomes@.len() - i,
            {
                let o = outcomes[i];
                let ghost taken = outcomes@.take(i as int);
                if let CandidateOutcome::Scored(s) = o {
                    if is_match(s, threshold_millis) {
                        let name = people[i].name.clone();
                        let p = probability_for_score(s);
                        insert_sorted_desc(&mut acc, MatchResult { name, probability: p });
                    }
                }
                proof {
                    assert(outcomes@.take(i + 1) =~= taken.push(outcomes@[i as int]));
                    lemma_selected_matches_push(people@, taken, outcomes@[i as int], threshold_millis as int);
                    lemma_sort_desc_push(
                        selected_matches(people@, taken, threshold_millis as int),
                        match_for(people@[i as int], outcomes@[i as int]),
                    );
                }
                i = i + 1;
            }
            proof {
                assert(outcomes@.take(outcomes@.len() as int) =~= outcomes@);
            }
            CompareResponse { matches: acc }
        },
        _ => {
            let r = CompareResponse { matches: Vec::new() };
            proof {
                assert(r.matches@ =~= Seq::<MatchResult>::empty());
            }
            r
        },
    }
}

/// One comparison request being driven to completion.
///
/// The caller owns all outside work (network fetches, engine access) and
/// reports each outcome back; the machine makes every decision. The engine
/// is stateful and must never be entered concurrently, so the caller is
/// asked for one piece of work at a time and holds engine access only while
/// producing a single outcome — never across a fetch.
pub struct Comparison {
    /// The match threshold, in thousandths of the raw similarity score.
    pub threshold_millis: i64,
    /// The URL of the target image.
    pub target_url: String,
    /// The candidates, in request order.
    pub people: Vec<Person>,
    /// Where the comparison stands.
    pub phase: Phase,
    /// Whether the target yielded a signature.
    pub target_ready: bool,
    /// How many candidates have been resolved.
    pub next_candidate: usize,
    /// The accepted results so far, kept in stable descending order.
    pub matches: Vec<MatchResult>,
    /// The candidate outcomes reported so far, oldest first.
    pub outcomes: Ghost<Seq<CandidateOutcome>>,
}

impl Comparison {
    /// The machine's invariant: the collected results are always exactly
    /// what the outcomes reported so far dictate.
    pub open spec fn wf(self) -> bool {
        &&& self.outcomes@.len() == self.next_candidate as int
        &&& self.next_candidate as int <= self.people@.len()
        &&& match self.phase {
            Phase::AwaitingTarget => {
                &&& !self.target_ready
                &&& self.next_candidate == 0
                &&& self.matches@.len() == 0
            },
            Phase::Scoring => {
                &&& self.target_ready
                &&& (self.next_candidate as int) < self.people@.len()
                &&& self.matches@ == sort_desc(
                    selected_matches(self.people@, self.outcomes@, self.threshold_millis as int),
                )
            },
            Phase::Done => {
                &&& (self.target_ready ==> self.next_candidate as int == self.people@.len())
                &&& self.matches@ == response_spec(
                    self.target_ready,
                    self.people@,
                    self.outcomes@,
                    self.threshold_millis as int,
                )
            },
        }
    }

    /// Starts a comparison for one request. No outside work has happened
    /// yet; the first action asked for is the target fetch.
    pub fn new(request: CompareRequest, threshold_millis: i64) -> (r: Comparison)
        ensures
            r.wf(),
            r.phase is AwaitingTarget,
            r.target_url == request.target_url,
            r.people == request.people,
            r.threshold_millis == threshold_millis,
            r.outcomes@ == Seq::<CandidateOutcome>::empty(),
    {
        let CompareRequest { target_url, people } = request;
        Comparison {
            threshold_millis,
            target_url,
            people,
            phase: Phase::AwaitingTarget,
            target_ready: false,
            next_candidate: 0,
            matches: Vec::new(),
            outcomes: Ghost(Seq::empty()),
        }
    }

    /// The next piece of outside work the caller should perform.
    pub fn next_action(&self) -> (a: Action)
        requires
            self.wf(),
        ensures
            self.phase is AwaitingTarget <==> a is FetchTarget,
            self.phase is Scoring <==> a == Action::ProcessCandidate(self.next_candidate)
                && (self.next_candidate as int) < self.people@.len(),
            self.phase is Done <==> a is Finished,
    {
        match self.phase {
            Phase::AwaitingTarget => Action::FetchTarget,
            Phase::Scoring => Action::ProcessCandidate(self.next_candidate),
            Phase::Done => Action::Finished,
        }
    }

    /// The URL the target image should be fetched from.
    pub fn target_url(&self) -> (u: &String)
        ensures
            u == self.target_url,
    {
        &self.target_url
    }

    /// The candidate at position `i` of the request.
    pub fn candidate(&self, i: usize) -> (p: &Person)
        requires
            (i as int) < self.people@.len(),
        ensures
            p == self.people@[i as int],
    {
        &self.people[i]
    }

    /// Reports what became of the target. Anything but `Ready` completes
    /// the comparison at once with an empty match list; a ready target
    /// moves on to scoring the candidates, or completes at once when there
    /// are none.
    pub fn target_event(&mut self, outcome: TargetOutcome)
        requires
            old(self).wf(),
            old(self).phase is AwaitingTarget,
        ensures
            final(self).wf(),
            final(self).people == old(self).people,
            final(self).target_url == old(self).target_url,
            final(self).threshold_millis == old(self).threshold_millis,
            final(self).outcomes@ == old(self).outcomes@,
            final(self).target_ready == (outcome is Ready),
            !(outcome is Ready) ==> final(self).phase is Done
                && final(self).matches@ == Seq::<MatchResult>::empty(),
            outcome is Ready && old(self).people@.len() == 0 ==> final(self).phase is Done,
            outcome is Ready && old(self).people@.len() > 0 ==> final(self).phase is Scoring
                && final(self).next_candidate == 0,
    {
        match outcome {
            TargetOutcome::Ready => {
                self.target_ready = true;
                if self.people.len() == 0 {
                    self.phase = Phase::Done;
                    proof {
                        assert(self.matches@ =~= Seq::<MatchResult>::empty());
                        assert(self.matches@ =~= response_spec(
                            true,
                            self.people@,
                            self.outcomes@,
                            self.threshold_millis as int,
                        ));
                    }
                } else {
                    self.phase = Phase::Scoring;
                    proof {
                        assert(self.matches@ =~= sort_desc(
                            selected_matches(self.people@, self.outcomes@, self.threshold_millis as int),
                        ));
                    }
                }
            },
            _ => {
                self.phase = Phase::Done;
                proof {
                    assert(self.matches@ =~= Seq::<MatchResult>::empty());
                }
            },
        }
    }

    /// Reports what became of the candidate the machine asked for. An
    /// outcome that scored strictly above the threshold adds that
    /// candidate's result, already in rank order; any failure adds nothing.
    /// No outcome ever disturbs the results of other candidates.
    pub fn candidate_event(&mut self, outcome: CandidateOutcome)
        requires
            old(self).wf(),
            old(self).phase is Scoring,
        ensures
            final(self).wf(),
            final(self).people == old(self).people,
            final(self).target_url == old(self).target_url,
            final(self).threshold_millis == old(self).threshold_millis,
            final(self).target_ready,
            final(self).outcomes@ == old(self).outcomes@.push(outcome),
            final(self).next_candidate == old(self).next_candidate + 1,
            (final(self).phase is Done <==> old(self).next_candidate + 1
                == old(self).people@.len()),
            (final(self).phase is Scoring <==> old(self).next_candidate + 1
                < old(self).people@.len()),
    {
        let ghost prior = self.outcomes@;
        let i = self.next_candidate;
        if let CandidateOutcome::Scored(s) = outcome {
            if is_match(s, self.threshold_millis) {
                let name = self.people[i].name.clone();
                let p = probability_for_score(s);
                insert_sorted_desc(&mut self.matches, MatchResult { name, probability: p });
            }
        }
        proof {
            lemma_selected_matches_push(self.people@, prior, outcome, self.threshold_millis as int);
            lemma_sort_desc_push(
                selected_matches(self.people@, prior, self.threshold_millis as int),
                match_for(self.people@[i as int], outcome),
            );
        }
        self.outcomes = Ghost(prior.push(outcome));
        let n = self.people.len();
        proof {
            assert((i as int) < old(self).people@.len());
        }
        self.next_candidate = i + 1;
        if self.next_candidate == n {
            self.phase = Phase::Done;
        }
    }

    /// Takes the finished response: the accepted candidates' results,
    /// ordered by probability descending.
    pub fn into_response(self) -> (r: CompareResponse)
        requires
            self.wf(),
            self.phase is Done,
        ensures
            r.matches@ == response_spec(
                self.target_ready,
                self.people@,
                self.outcomes@,
                self.threshold_millis as int,
            ),
    {
        CompareResponse { matches: self.matches }
    }
}

/// Law: a result is among the selected matches exactly when some candidate's
/// outcome scored strictly above the threshold and produced it.
pub proof fn lemma_selected_matches_membership(
    people: Seq<Person>,
    outcomes: Seq<CandidateOutcome>,
    threshold_millis: int,
    m: MatchResult,
)
    ensures
        selected_matches(people, outcomes, threshold_millis).contains(m) <==> exists|i: int|
            0 <= i < outcomes.len() && i < people.len()
                && is_accepted(#[trigger] outcomes[i], threshold_millis)
                && m == match_for(people[i], outcomes[i]),
    decreases outcomes.len(),
{
    let sel = selected_matches(people, outcomes, threshold_millis);
    if outcomes.len() > 0 {
        let oc = outcomes.drop_last();
        let k = outcomes.len() - 1;
        let o = outcomes[k];
        let prev = selected_matches(people, oc, threshold_millis);
        lemma_selected_matches_membership(people, oc, threshold_millis, m);
        assert(forall|i: int| 0 <= i < k ==> #[trigger] oc[i] == outcomes[i]);
        if k < people.len() && is_accepted(o, threshold_millis) {
            let mf = match_for(people[k], o);
            assert(sel == prev.push(mf));
            if sel.contains(m) {
                let j = choose|j: int| 0 <= j < sel.len() && sel[j] == m;
                if j < prev.len() {
                    assert(prev[j] == m);
                    assert(prev.contains(m));
                    let i = choose|i: int|
                        0 <= i < oc.len() && i < people.len()
                            && is_accepted(#[trigger] oc[i], threshold_millis)
                            && m == match_for(people[i], oc[i]);
                    assert(is_accepted(outcomes[i], threshold_millis)
                        && m == match_for(people[i], outcomes[i]));
                } else {
                    assert(m == mf);
                    assert(is_accepted(outcomes[k], threshold_millis)
                        && m == match_for(people[k], outcomes[k]));
                }
            }
            if exists|i: int|
                0 <= i < outcomes.len() && i < people.len()
                    && is_accepted(#[trigger] outcomes[i], threshold_millis)
                    && m == match_for(people[i], outcomes[i]) {
                let i = choose|i: int|
                    0 <= i < outcomes.len() && i < people.len()
                        && is_accepted(#[trigger] outcomes[i], threshold_millis)
                        && m == match_for(people[i], outcomes[i]);
                if i < k {
                    assert(is_accepted(oc[i], threshold_millis)
                        && m == match_for(people[i], oc[i]));
                    assert(prev.contains(m));
                    let j = choose|j: int| 0 <= j < prev.len() && prev[j] == m;
                    assert(sel[j] == m);
                    assert(sel.contains(m));
                } else {
                    assert(sel[prev.len() as int] == m);
                    assert(sel.contains(m));
                }
            }
        } else {
            assert(sel == prev);
            if sel.contains(m) {
                let i = choose|i: int|
                    0 <= i < oc.len() && i < people.len()
                        && is_accepted(#[trigger] oc[i], threshold_millis)
                        && m == match_for(people[i], oc[i]);
                assert(is_accepted(outcomes[i], threshold_millis)
                    && m == match_for(people[i], outcomes[i]));
            }
            if exists|i: int|
                0 <= i < outcomes.len() && i < people.len()
                    && is_accepted(#[trigger] outcomes[i], threshold_millis)
                    && m == match_for(people[i], outcomes[i]) {
                let i = choose|i: int|
                    0 <= i < outcomes.len() && i < people.len()
                        && is_accepted(#[trigger] outcomes[i], threshold_millis)
                        && m == match_for(people[i], outcomes[i]);
                assert(i < k);
                assert(is_accepted(oc[i], threshold_millis)
                    && m == match_for(people[i], oc[i]));
                assert(prev.contains(m));
            }
        }
    }
}

/// Law: a candidate's result appears in a completed response if and only if
/// its outcome scored strictly above the threshold; every failure kind is
/// absent.
pub proof fn lemma_response_membership(
    people: Seq<Person>,
    outcomes: Seq<CandidateOutcome>,
    threshold_millis: int,
    m: MatchResult,
)
    ensures
        response_spec(true, people, outcomes, threshold_millis).contains(m) <==> exists|i: int|
            0 <= i < outcomes.len() && i < people.len()
                && is_accepted(#[trigger] outcomes[i], threshold_millis)
                && m == match_for(people[i], outcomes[i]),
{
    lemma_sort_desc_contains(selected_matches(people, outcomes, threshold_millis), m);
    lemma_selected_matches_membership(people, outcomes, threshold_millis, m);
}

/// Law: every response is ordered by probability descending; for any
/// adjacent pair the earlier probability is at least the later one.
pub proof fn lemma_response_sorted(
    target_ready: bool,
    people: Seq<Person>,
    outcomes: Seq<CandidateOutcome>,
    threshold_millis: int,
)
    ensures
        sorted_desc(response_spec(target_ready, people, outcomes, threshold_millis)),
{
    if target_ready {
        lemma_sort_desc_sorted(selected_matches(people, outcomes, threshold_millis));
    }
}

/// Law: every probability in a response lies in `0 ..= 100`; it is a whole
/// number already by its type.
pub proof fn lemma_response_probability_bounds(
    target_ready: bool,
    people: Seq<Person>,
    outcomes: Seq<CandidateOutcome>,
    threshold_millis: int,
    m: MatchResult,
)
    requires
        response_spec(target_ready, people, outcomes, threshold_millis).contains(m),
    ensures
        m.probability <= 100,
{
    if target_ready {
        lemma_response_membership(people, outcomes, threshold_millis, m);
        let i = choose|i: int|
            0 <= i < outcomes.len() && i < people.len()
                && is_accepted(#[trigger] outcomes[i], threshold_millis)
                && m == match_for(people[i], outcomes[i]);
        lemma_probability_of_bounds(outcome_score(outcomes[i]));
    }
}

/// Law: per-candidate failures are isolated. If two runs differ only in
/// which failure kind their non-matching candidates reported — every
/// accepted outcome is identical — then the selected results are identical;
/// no failure affects any other candidate.
pub proof fn lemma_failures_isolated(
    people: Seq<Person>,
    first: Seq<CandidateOutcome>,
    second: Seq<CandidateOutcome>,
    threshold_millis: int,
)
    requires
        first.len() == second.len(),
        forall|i: int| 0 <= i < first.len() ==> is_accepted(#[trigger] first[i], threshold_millis)
            == is_accepted(#[trigger] second[i], threshold_millis),
        forall|i: int| 0 <= i < first.len() && is_accepted(#[trigger] first[i], threshold_millis)
            ==> first[i] == second[i],
    ensures
        selected_matches(people, first, threshold_millis) == selected_matches(
            people,
            second,
            threshold_millis,
        ),
    decreases first.len(),
{
    if first.len() > 0 {
        let k = first.len() - 1;
        assert(forall|i: int| 0 <= i < k ==> #[trigger] first.drop_last()[i] == first[i]);
        assert(forall|i: int| 0 <= i < k ==> #[trigger] second.drop_last()[i] == second[i]);
        lemma_failures_isolated(people, first.drop_last(), second.drop_last(), threshold_millis);
    }
}

/// Law: failure isolation carried to the whole response: the two runs of
/// `lemma_failures_isolated` produce identical responses.
pub proof fn lemma_response_failures_isolated(
    target_ready: bool,
    people: Seq<Person>,
    first: Seq<CandidateOutcome>,
    second: Seq<CandidateOutcome>,
    threshold_millis: int,
)
    requires
        first.len() == second.len(),
        forall|i: int| 0 <= i < first.len() ==> is_accepted(#[trigger] first[i], threshold_millis)
            == is_accepted(#[trigger] second[i], threshold_millis),
        forall|i: int| 0 <= i < first.len() && is_accepted(#[trigger] first[i], threshold_millis)
            ==> first[i] == second[i],
    ensures
        response_spec(target_ready, people, first, threshold_millis) == response_spec(
            target_ready,
            people,
            second,
            threshold_millis,
        ),
{
    lemma_failures_isolated(people, first, second, threshold_millis);
}

/// Law: the response is a function of the request, the outcomes and the
/// threshold alone. Two completed comparisons over identical inputs hold
/// identical matches — the same results in the same order.
pub proof fn lemma_comparison_deterministic(a: Comparison, b: Comparison)
    requires
        a.wf(),
        b.wf(),
        a.phase is Done,
        b.phase is Done,
        a.target_ready == b.target_ready,
        a.people@ == b.people@,
        a.outcomes@ == b.outcomes@,
        a.threshold_millis == b.threshold_millis,
    ensures
        a.matches@ == b.matches@,
{
}

/// Law: a target that yields no signature produces an empty response,
/// whatever the candidates' outcomes would have been.
pub proof fn lemma_target_failure_empty(
    people: Seq<Person>,
    outcomes: Seq<CandidateOutcome>,
    threshold_millis: int,
)
    ensures
        response_spec(false, people, outcomes, threshold_millis)
            == Seq::<MatchResult>::empty(),
{
}

/// Law: with no candidates the response is empty, whatever the target's
/// outcome.
pub proof fn lemma_empty_people_response(
    target_ready: bool,
    people: Seq<Person>,
    outcomes: Seq<CandidateOutcome>,
    threshold_millis: int,
)
    requires
        people.len() == 0,
    ensures
        response_spec(target_ready, people, outcomes, threshold_millis)
            == Seq::<MatchResult>::empty(),
{
    lemma_selected_matches_empty_people(people, outcomes, threshold_millis);
}

/// With no candidates nothing is ever selected.
proof fn lemma_selected_matches_empty_people(
    people: Seq<Person>,
    outcomes: Seq<CandidateOutcome>,
    threshold_millis: int,
)
    requires
        people.len() == 0,
    ensures
        selected_matches(people, outcomes, threshold_millis) == Seq::<MatchResult>::empty(),
    decreases outcomes.len(),
{
    if outcomes.len() > 0 {
        lemma_selected_matches_empty_people(people, outcomes.drop_last(), threshold_millis);
    }
}

} // verus!
