use face_match::comparator::is_match;
use face_match::comparator::probability_for_score;
use face_match::comparator::DEFAULT_MATCH_THRESHOLD_MILLIS;
use face_match::models::CompareRequest;
use face_match::models::MatchResult;
use face_match::models::Person;
use face_match::pipeline::Action;
use face_match::pipeline::CandidateOutcome;
use face_match::pipeline::Comparison;
use face_match::pipeline::TargetOutcome;
use face_match::pipeline::compare_outcomes;

fn person(name: &str, url: &str) -> Person {
    Person { name: name.to_string(), image_url: url.to_string() }
}

fn request(target: &str, people: Vec<Person>) -> CompareRequest {
    CompareRequest { target_url: target.to_string(), people }
}

#[test]
fn probability_is_clamped_and_rounded() {
    assert_eq!(probability_for_score(-1000), 0);
    assert_eq!(probability_for_score(0), 0);
    assert_eq!(probability_for_score(1), 0);
    assert_eq!(probability_for_score(5), 1);
    assert_eq!(probability_for_score(364), 36);
    assert_eq!(probability_for_score(365), 37);
    assert_eq!(probability_for_score(500), 50);
    assert_eq!(probability_for_score(994), 99);
    assert_eq!(probability_for_score(995), 100);
    assert_eq!(probability_for_score(1000), 100);
    assert_eq!(probability_for_score(2000), 100);
    assert_eq!(probability_for_score(i64::MAX), 100);
    assert_eq!(probability_for_score(i64::MIN), 0);
}

#[test]
fn threshold_is_strict() {
    assert!(!is_match(362, DEFAULT_MATCH_THRESHOLD_MILLIS));
    assert!(!is_match(363, DEFAULT_MATCH_THRESHOLD_MILLIS));
    assert!(is_match(364, DEFAULT_MATCH_THRESHOLD_MILLIS));
    assert!(is_match(1000, DEFAULT_MATCH_THRESHOLD_MILLIS));
    assert!(!is_match(-500, DEFAULT_MATCH_THRESHOLD_MILLIS));
}

#[test]
fn threshold_is_configurable() {
    let people = vec![person("a", "http://img/a")];
    let outcomes = vec![CandidateOutcome::Scored(500)];
    let strict = compare_outcomes(TargetOutcome::Ready, &people, &outcomes, 600);
    assert!(strict.matches.is_empty());
    let lax = compare_outcomes(TargetOutcome::Ready, &people, &outcomes, 100);
    assert_eq!(lax.matches.len(), 1);
}

#[test]
fn scenario_one_match_one_dead_url_one_faceless() {
    let people = vec![
        person("genuine", "http://img/genuine"),
        person("dead-url", "http://img/404"),
        person("faceless", "http://img/faceless"),
    ];
    let outcomes = vec![
        CandidateOutcome::Scored(500),
        CandidateOutcome::FetchFailed,
        CandidateOutcome::NoFaceFound,
    ];
    let r = compare_outcomes(
        TargetOutcome::Ready,
        &people,
        &outcomes,
        DEFAULT_MATCH_THRESHOLD_MILLIS,
    );
    assert_eq!(
        r.matches,
        vec![MatchResult { name: "genuine".to_string(), probability: 50 }]
    );
}

#[test]
fn scenario_empty_people_means_empty_matches() {
    let people: Vec<Person> = vec![];
    let outcomes: Vec<CandidateOutcome> = vec![];
    let r = compare_outcomes(
        TargetOutcome::Ready,
        &people,
        &outcomes,
        DEFAULT_MATCH_THRESHOLD_MILLIS,
    );
    assert!(r.matches.is_empty());
}

#[test]
fn scenario_unreachable_target_means_empty_matches() {
    let people = vec![person("would-match", "http://img/a"), person("also", "http://img/b")];
    let outcomes = vec![CandidateOutcome::Scored(900), CandidateOutcome::Scored(800)];
    let r = compare_outcomes(
        TargetOutcome::FetchFailed,
        &people,
        &outcomes,
        DEFAULT_MATCH_THRESHOLD_MILLIS,
    );
    assert!(r.matches.is_empty());
}

#[test]
fn faceless_target_means_empty_matches() {
    let people = vec![person("would-match", "http://img/a")];
    let outcomes = vec![CandidateOutcome::Scored(900)];
    let r = compare_outcomes(
        TargetOutcome::NoFaceFound,
        &people,
        &outcomes,
        DEFAULT_MATCH_THRESHOLD_MILLIS,
    );
    assert!(r.matches.is_empty());
    let r = compare_outcomes(
        TargetOutcome::ExtractionFailed,
        &people,
        &outcomes,
        DEFAULT_MATCH_THRESHOLD_MILLIS,
    );
    assert!(r.matches.is_empty());
}

#[test]
fn matches_are_sorted_by_probability_descending() {
    let people = vec![
        person("low", "http://img/low"),
        person("high", "http://img/high"),
        person("mid", "http://img/mid"),
    ];
    let outcomes = vec![
        CandidateOutcome::Scored(400),
        CandidateOutcome::Scored(900),
        CandidateOutcome::Scored(600),
    ];
    let r = compare_outcomes(
        TargetOutcome::Ready,
        &people,
        &outcomes,
        DEFAULT_MATCH_THRESHOLD_MILLIS,
    );
    let names: Vec<&str> = r.matches.iter().map(|m| m.name.as_str()).collect();
    assert_eq!(names, vec!["high", "mid", "low"]);
    let probabilities: Vec<u32> = r.matches.iter().map(|m| m.probability).collect();
    assert_eq!(probabilities, vec![90, 60, 40]);
    for pair in r.matches.windows(2) {
        assert!(pair[0].probability >= pair[1].probability);
    }
}

#[test]
fn ties_stay_together_without_losing_anyone() {
    let people = vec![
        person("first-tie", "http://img/a"),
        person("top", "http://img/b"),
        person("second-tie", "http://img/c"),
    ];
    let outcomes = vec![
        CandidateOutcome::Scored(500),
        CandidateOutcome::Scored(700),
        CandidateOutcome::Scored(500),
    ];
    let r = compare_outcomes(
        TargetOutcome::Ready,
        &people,
        &outcomes,
        DEFAULT_MATCH_THRESHOLD_MILLIS,
    );
    assert_eq!(r.matches.len(), 3);
    assert_eq!(r.matches[0].name, "top");
    for pair in r.matches.windows(2) {
        assert!(pair[0].probability >= pair[1].probability);
    }
    let mut tied: Vec<&str> =
        r.matches[1..].iter().map(|m| m.name.as_str()).collect();
    tied.sort();
    assert_eq!(tied, vec!["first-tie", "second-tie"]);
    assert!(r.matches[1..].iter().all(|m| m.probability == 50));
}

#[test]
fn probabilities_stay_within_bounds() {
    let people = vec![
        person("over-unit-score", "http://img/a"),
        person("huge-score", "http://img/b"),
    ];
    let outcomes = vec![
        CandidateOutcome::Scored(1200),
        CandidateOutcome::Scored(i64::MAX),
    ];
    let r = compare_outcomes(
        TargetOutcome::Ready,
        &people,
        &outcomes,
        DEFAULT_MATCH_THRESHOLD_MILLIS,
    );
    assert_eq!(r.matches.len(), 2);
    for m in &r.matches {
        assert!(m.probability <= 100);
        assert_eq!(m.probability, 100);
    }
}

#[test]
fn candidate_failures_are_isolated() {
    let people = vec![
        person("a", "http://img/a"),
        person("b", "http://img/b"),
        person("c", "http://img/c"),
    ];
    let with_fetch_failure = vec![
        CandidateOutcome::Scored(800),
        CandidateOutcome::FetchFailed,
        CandidateOutcome::Scored(400),
    ];
    let with_other_failures = vec![
        CandidateOutcome::Scored(800),
        CandidateOutcome::ScoringFailed,
        CandidateOutcome::Scored(400),
    ];
    let r1 = compare_outcomes(
        TargetOutcome::Ready,
        &people,
        &with_fetch_failure,
        DEFAULT_MATCH_THRESHOLD_MILLIS,
    );
    let r2 = compare_outcomes(
        TargetOutcome::Ready,
        &people,
        &with_other_failures,
        DEFAULT_MATCH_THRESHOLD_MILLIS,
    );
    assert_eq!(r1, r2);
    let names: Vec<&str> = r1.matches.iter().map(|m| m.name.as_str()).collect();
    assert_eq!(names, vec!["a", "c"]);
}

#[test]
fn below_threshold_scores_are_absent() {
    let people = vec![
        person("exactly-at", "http://img/a"),
        person("just-above", "http://img/b"),
        person("below", "http://img/c"),
    ];
    let outcomes = vec![
        CandidateOutcome::Scored(363),
        CandidateOutcome::Scored(364),
        CandidateOutcome::Scored(-100),
    ];
    let r = compare_outcomes(
        TargetOutcome::Ready,
        &people,
        &outcomes,
        DEFAULT_MATCH_THRESHOLD_MILLIS,
    );
    assert_eq!(
        r.matches,
        vec![MatchResult { name: "just-above".to_string(), probability: 36 }]
    );
}

#[test]
fn identical_inputs_give_identical_matches() {
    let people = vec![
        person("x", "http://img/x"),
        person("y", "http://img/y"),
        person("z", "http://img/z"),
    ];
    let outcomes = vec![
        CandidateOutcome::Scored(500),
        CandidateOutcome::Scored(500),
        CandidateOutcome::NoFaceFound,
    ];
    let r1 = compare_outcomes(
        TargetOutcome::Ready,
        &people,
        &outcomes,
        DEFAULT_MATCH_THRESHOLD_MILLIS,
    );
    let r2 = compare_outcomes(
        TargetOutcome::Ready,
        &people,
        &outcomes,
        DEFAULT_MATCH_THRESHOLD_MILLIS,
    );
    assert_eq!(r1, r2);
}

#[test]
fn state_machine_walks_target_then_each_candidate() {
    let mut cmp = Comparison::new(
        request(
            "http://img/target",
            vec![person("match", "http://img/m"), person("miss", "http://img/n")],
        ),
        DEFAULT_MATCH_THRESHOLD_MILLIS,
    );
    assert_eq!(cmp.next_action(), Action::FetchTarget);
    assert_eq!(cmp.target_url(), "http://img/target");
    cmp.target_event(TargetOutcome::Ready);
    assert_eq!(cmp.next_action(), Action::ProcessCandidate(0));
    assert_eq!(cmp.candidate(0).image_url, "http://img/m");
    cmp.candidate_event(CandidateOutcome::Scored(750));
    assert_eq!(cmp.next_action(), Action::ProcessCandidate(1));
    assert_eq!(cmp.candidate(1).image_url, "http://img/n");
    cmp.candidate_event(CandidateOutcome::Scored(100));
    assert_eq!(cmp.next_action(), Action::Finished);
    let r = cmp.into_response();
    assert_eq!(
        r.matches,
        vec![MatchResult { name: "match".to_string(), probability: 75 }]
    );
}

#[test]
fn state_machine_finishes_at_once_on_target_failure() {
    let mut cmp = Comparison::new(
        request("http://img/gone", vec![person("never-asked", "http://img/a")]),
        DEFAULT_MATCH_THRESHOLD_MILLIS,
    );
    cmp.target_event(TargetOutcome::FetchFailed);
    assert_eq!(cmp.next_action(), Action::Finished);
    assert!(cmp.into_response().matches.is_empty());
}

#[test]
fn state_machine_finishes_at_once_without_candidates() {
    let mut cmp = Comparison::new(
        request("http://img/target", vec![]),
        DEFAULT_MATCH_THRESHOLD_MILLIS,
    );
    cmp.target_event(TargetOutcome::Ready);
    assert_eq!(cmp.next_action(), Action::Finished);
    assert!(cmp.into_response().matches.is_empty());
}

#[test]
fn state_machine_agrees_with_batch_form() {
    let people = vec![
        person("p0", "http://img/0"),
        person("p1", "http://img/1"),
        person("p2", "http://img/2"),
        person("p3", "http://img/3"),
    ];
    let outcomes = vec![
        CandidateOutcome::Scored(400),
        CandidateOutcome::ExtractionFailed,
        CandidateOutcome::Scored(990),
        CandidateOutcome::Scored(364),
    ];
    let batch = compare_outcomes(
        TargetOutcome::Ready,
        &people,
        &outcomes,
        DEFAULT_MATCH_THRESHOLD_MILLIS,
    );
    let mut cmp = Comparison::new(
        request("http://img/target", people.clone()),
        DEFAULT_MATCH_THRESHOLD_MILLIS,
    );
    cmp.target_event(TargetOutcome::Ready);
    for o in &outcomes {
        cmp.candidate_event(*o);
    }
    assert_eq!(cmp.into_response(), batch);
}
