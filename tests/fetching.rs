use rest_scraper::assemble::{GeoJsonChunk, GeoJsonWriter};
use rest_scraper::fetch::{
    body_outcome, request_failed, status_outcome, AttemptOutcome, BodyShape, FetchError, RetryAction,
    RetryState, TransientReason,
};
use rest_scraper::harvest::OrderedCollector;

fn transient() -> AttemptOutcome {
    AttemptOutcome::Transient(TransientReason::InvalidResponse(503))
}

/// Feeds scripted outcomes to the policy until it stops retrying; returns
/// the attempts made and the last decision.
fn run(max_tries: u32, outcomes: Vec<AttemptOutcome>) -> (u32, RetryAction) {
    let mut state = RetryState::new(max_tries);
    let mut last = RetryAction::RetryAfterDelay;
    for outcome in outcomes {
        assert!(state.can_attempt());
        last = state.record(outcome);
        if last != RetryAction::RetryAfterDelay {
            break;
        }
    }
    (state.attempts, last)
}

#[test]
fn transient_failures_exhaust_the_cap() {
    let (attempts, action) = run(3, vec![transient(), transient(), transient(), transient(), transient()]);
    assert_eq!(attempts, 3);
    assert_eq!(
        action,
        RetryAction::Abort(FetchError::TooManyRetries { max_tries: 3, last: TransientReason::InvalidResponse(503) })
    );
}

#[test]
fn success_on_second_attempt() {
    let (attempts, action) = run(3, vec![transient(), AttemptOutcome::Success, transient()]);
    assert_eq!(attempts, 2);
    assert_eq!(action, RetryAction::Accept);
}

#[test]
fn fatal_outcome_is_not_retried() {
    let (attempts, action) = run(5, vec![AttemptOutcome::Fatal("bad feature".to_owned()), AttemptOutcome::Success]);
    assert_eq!(attempts, 1);
    assert_eq!(action, RetryAction::Abort(FetchError::Fatal("bad feature".to_owned())));
}

#[test]
fn zero_cap_still_makes_one_attempt() {
    let (attempts, action) = run(0, vec![transient(), transient()]);
    assert_eq!(attempts, 1);
    assert!(matches!(action, RetryAction::Abort(FetchError::TooManyRetries { max_tries: 0, .. })));
    let (attempts, action) = run(0, vec![AttemptOutcome::Success]);
    assert_eq!((attempts, action), (1, RetryAction::Accept));
}

#[test]
fn outcome_classification() {
    assert_eq!(status_outcome(200), None);
    assert_eq!(status_outcome(500), Some(AttemptOutcome::Transient(TransientReason::InvalidResponse(500))));
    assert_eq!(status_outcome(404), Some(AttemptOutcome::Transient(TransientReason::InvalidResponse(404))));
    assert_eq!(
        request_failed("timed out".to_owned()),
        AttemptOutcome::Transient(TransientReason::RequestFailed("timed out".to_owned()))
    );
    assert_eq!(body_outcome(BodyShape::FeatureCollection), AttemptOutcome::Success);
    assert_eq!(
        body_outcome(BodyShape::Unparseable("<html>".to_owned())),
        AttemptOutcome::Transient(TransientReason::InvalidJsonResponse("<html>".to_owned()))
    );
    assert_eq!(
        body_outcome(BodyShape::ServiceError("Invalid query".to_owned())),
        AttemptOutcome::Transient(TransientReason::ServiceError("Invalid query".to_owned()))
    );
    assert_eq!(
        body_outcome(BodyShape::Geometry),
        AttemptOutcome::Transient(TransientReason::InvalidJsonResponse(
            "Expected a FeatureCollection but got a Geometry".to_owned()
        ))
    );
    assert_eq!(
        body_outcome(BodyShape::Feature),
        AttemptOutcome::Transient(TransientReason::InvalidJsonResponse(
            "Expected a FeatureCollection but got a Feature".to_owned()
        ))
    );
    assert_eq!(body_outcome(BodyShape::MalformedFeature("x".to_owned())), AttemptOutcome::Fatal("x".to_owned()));
}

/// Delivers chunk texts in `order`, writing what is ready after each
/// arrival, and returns the whole document.
fn assemble(order: &[usize]) -> String {
    let chunks = vec![
        vec!["{\"id\":1}".to_owned(), "{\"id\":2}".to_owned()],
        vec![],
        vec!["{\"id\":3}".to_owned()],
        vec!["{\"id\":4}".to_owned()],
    ];
    let mut collector = OrderedCollector::new(chunks.len());
    let mut writer = GeoJsonWriter::new();
    let mut out = String::new();
    for &i in order {
        assert!(collector.accepts(i));
        collector.deliver(i, chunks[i].clone());
        for features in collector.take_ready() {
            out.push_str(&writer.chunk_text(&GeoJsonChunk { crs: None, features }));
        }
    }
    assert!(collector.is_complete());
    out.push_str(&writer.finish());
    out
}

#[test]
fn completion_order_does_not_change_output() {
    let planned = assemble(&[0, 1, 2, 3]);
    assert_eq!(
        planned,
        "{\"type\":\"FeatureCollection\",\"features\":[{\"id\":1},{\"id\":2},{\"id\":3},{\"id\":4}]}"
    );
    assert_eq!(assemble(&[3, 2, 1, 0]), planned);
    assert_eq!(assemble(&[2, 0, 3, 1]), planned);
    assert_eq!(assemble(&[1, 3, 0, 2]), planned);
}

#[test]
fn collector_holds_results_until_the_gap_closes() {
    let mut c = OrderedCollector::new(3);
    assert_eq!(c.len(), 3);
    c.deliver(2, "c");
    assert!(c.take_ready().is_empty());
    assert!(!c.accepts(2));
    c.deliver(0, "a");
    assert_eq!(c.take_ready(), vec!["a"]);
    assert!(!c.accepts(0));
    c.deliver(1, "b");
    assert_eq!(c.take_ready(), vec!["b", "c"]);
    assert!(c.is_complete());
    assert!(!c.accepts(3));
}
