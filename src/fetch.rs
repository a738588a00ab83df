//! Classification of one fetch attempt, and the retry policy that decides
//! after each attempt whether to accept, try again, or give up.
use vstd::prelude::*;

verus! {

/// The seconds to wait before trying a chunk's query again.
pub const RETRY_DELAY_SECS: u64 = 10;

/// Why an attempt failed in a way that may pass on a new try.
#[derive(Debug, Clone, PartialEq, Eq)]
pub enum TransientReason {
    /// No response arrived: the request could not be sent or timed out.
    RequestFailed(String),
    /// The response's status was not success.
    InvalidResponse(u16),
    /// The body was not the structured response expected.
    InvalidJsonResponse(String),
    /// The body was the service's own error object.
    ServiceError(String),
}

/// What one attempt at a chunk's query came to.
#[derive(Debug, Clone, PartialEq, Eq)]
pub enum AttemptOutcome {
    /// A feature collection arrived, possibly empty.
    Success,
    /// The attempt failed, and a new try may succeed.
    Transient(TransientReason),
    /// The data broke its contract; trying again will not help.
    Fatal(String),
}

/// The shape of a response body with success status.
#[derive(Debug, Clone, PartialEq, Eq)]
pub enum BodyShape {
    /// The body does not parse.
    Unparseable(String),
    /// The body is the service's error object.
    ServiceError(String),
    /// The body is a single geometry.
    Geometry,
    /// The body is a single feature.
    Feature,
    /// The body is a feature collection.
    FeatureCollection,
    /// A feature of the collection could not be decoded.
    MalformedFeature(String),
}

/// A terminal failure of a chunk, which aborts the run.
#[derive(Debug, Clone, PartialEq, Eq)]
pub enum FetchError {
    /// The data broke its contract.
    Fatal(String),
    /// Every try allowed failed; the last failure is kept.
    TooManyRetries { max_tries: u32, last: TransientReason },
}

/// The response status that counts as success.
pub const SUCCESS_STATUS: u16 = 200;

/// The outcome of an attempt whose request got no response.
pub fn request_failed(message: String) -> (r: AttemptOutcome)
    ensures
        r == AttemptOutcome::Transient(TransientReason::RequestFailed(message)),
{
    AttemptOutcome::Transient(TransientReason::RequestFailed(message))
}

/// The outcome that a response's status decides alone: a transient failure
/// for every status but success, none for success.
pub fn status_outcome(status: u16) -> (r: Option<AttemptOutcome>)
    ensures
        status == SUCCESS_STATUS ==> r is None,
        status != SUCCESS_STATUS ==> r == Some(
            AttemptOutcome::Transient(TransientReason::InvalidResponse(status)),
        ),
{
    if status == SUCCESS_STATUS {
        None
    } else {
        Some(AttemptOutcome::Transient(TransientReason::InvalidResponse(status)))
    }
}

/// Whether `r` is the outcome of an attempt whose response had success
/// status and the body `body`.
pub open spec fn is_body_outcome(body: BodyShape, r: AttemptOutcome) -> bool {
    match body {
        BodyShape::Unparseable(m) => r == AttemptOutcome::Transient(
            TransientReason::InvalidJsonResponse(m),
        ),
        BodyShape::ServiceError(m) => r == AttemptOutcome::Transient(TransientReason::ServiceError(m)),
        BodyShape::Geometry => r matches AttemptOutcome::Transient(
            TransientReason::InvalidJsonResponse(m),
        ) && m@ == "Expected a FeatureCollection but got a Geometry"@,
        BodyShape::Feature => r matches AttemptOutcome::Transient(
            TransientReason::InvalidJsonResponse(m),
        ) && m@ == "Expected a FeatureCollection but got a Feature"@,
        BodyShape::FeatureCollection => r == AttemptOutcome::Success,
        BodyShape::MalformedFeature(m) => r == AttemptOutcome::Fatal(m),
    }
}

/// The outcome of an attempt whose response had success status: a feature
/// collection succeeds, a malformed feature is fatal, anything else is
/// transient.
pub fn body_outcome(body: BodyShape) -> (r: AttemptOutcome)
    ensures
        is_body_outcome(body, r),
{
    match body {
        BodyShape::Unparseable(m) => AttemptOutcome::Transient(TransientReason::InvalidJsonResponse(m)),
        BodyShape::ServiceError(m) => AttemptOutcome::Transient(TransientReason::ServiceError(m)),
        BodyShape::Geometry => AttemptOutcome::Transient(
            TransientReason::InvalidJsonResponse(
                "Expected a FeatureCollection but got a Geometry".to_owned(),
            ),
        ),
        BodyShape::Feature => AttemptOutcome::Transient(
            TransientReason::InvalidJsonResponse(
                "Expected a FeatureCollection but got a Feature".to_owned(),
            ),
        ),
        BodyShape::FeatureCollection => AttemptOutcome::Success,
        BodyShape::MalformedFeature(m) => AttemptOutcome::Fatal(m),
    }
}

/// What the policy decides after an attempt.
#[derive(Debug, Clone, PartialEq, Eq)]
pub enum RetryAction {
    /// The chunk's response is good: take it.
    Accept,
    /// Wait `RETRY_DELAY_SECS` and try again.
    RetryAfterDelay,
    /// Give up on the chunk, and so on the run.
    Abort(FetchError),
}

/// The decision after the `attempts`-th attempt of at most `max_tries`.
/// A transient failure is retried while fewer than `max_tries` attempts were
/// made; at least one attempt is always made.
pub open spec fn decide(attempts: int, max_tries: u32, outcome: AttemptOutcome) -> RetryAction {
    match outcome {
        AttemptOutcome::Success => RetryAction::Accept,
        AttemptOutcome::Fatal(m) => RetryAction::Abort(FetchError::Fatal(m)),
        AttemptOutcome::Transient(reason) => if attempts >= max_tries {
            RetryAction::Abort(FetchError::TooManyRetries { max_tries, last: reason })
        } else {
            RetryAction::RetryAfterDelay
        },
    }
}

/// The attempts made so far at one chunk, and the most allowed.
#[derive(Debug, Clone, Copy, PartialEq, Eq)]
pub struct RetryState {
    pub attempts: u32,
    pub max_tries: u32,
}

/// Whether another attempt may be made: none was made yet, or fewer than
/// the most allowed.
pub open spec fn may_attempt(s: RetryState) -> bool {
    s.attempts == 0 || s.attempts < s.max_tries
}

impl RetryState {
    /// The state before the first attempt.
    pub fn new(max_tries: u32) -> (r: RetryState)
        ensures
            r.attempts == 0,
            r.max_tries == max_tries,
    {
        RetryState { attempts: 0, max_tries }
    }

    /// Whether another attempt may be made.
    pub fn can_attempt(&self) -> (r: bool)
        ensures
            r == may_attempt(*self),
    {
        self.attempts == 0 || self.attempts < self.max_tries
    }

    /// Records the outcome of one more attempt and decides what follows.
    pub fn record(&mut self, outcome: AttemptOutcome) -> (r: RetryAction)
        requires
            may_attempt(*old(self)),
        ensures
            final(self).attempts == old(self).attempts + 1,
            final(self).max_tries == old(self).max_tries,
            r == decide(final(self).attempts as int, old(self).max_tries, outcome),
            r is RetryAfterDelay ==> may_attempt(*final(self)),
    {
        self.attempts = self.attempts + 1;
        match outcome {
            AttemptOutcome::Success => RetryAction::Accept,
            AttemptOutcome::Fatal(m) => RetryAction::Abort(FetchError::Fatal(m)),
            AttemptOutcome::Transient(reason) => {
                if self.attempts >= self.max_tries {
                    RetryAction::Abort(FetchError::TooManyRetries { max_tries: self.max_tries, last: reason })
                } else {
                    RetryAction::RetryAfterDelay
                }
            },
        }
    }
}

/// The attempts made and the final decision when the policy, after
/// `attempts` attempts, meets `outcomes` in turn; `RetryAfterDelay` where the
/// outcomes run out first.
pub open spec fn retry_run(attempts: int, max_tries: u32, outcomes: Seq<AttemptOutcome>) -> (
    int,
    RetryAction,
)
    decreases outcomes.len(),
{
    if outcomes.len() == 0 {
        (attempts, RetryAction::RetryAfterDelay)
    } else {
        let a = decide(attempts + 1, max_tries, outcomes[0]);
        if a is RetryAfterDelay {
            retry_run(attempts + 1, max_tries, outcomes.drop_first())
        } else {
            (attempts + 1, a)
        }
    }
}

/// The retry cap: against a query that fails transiently on every attempt,
/// the policy makes exactly `max_tries` attempts (one where `max_tries` is
/// zero) and then gives up with too many retries, naming the last failure.
pub proof fn lemma_retry_cap(max_tries: u32, outcomes: Seq<AttemptOutcome>)
    requires
        outcomes.len() >= max_tries,
        outcomes.len() >= 1,
        forall|i: int| 0 <= i < outcomes.len() ==> #[trigger] outcomes[i] is Transient,
    ensures
        ({
            let n = if max_tries == 0 { 1int } else { max_tries as int };
            retry_run(0, max_tries, outcomes) == (
                n,
                RetryAction::Abort(
                    FetchError::TooManyRetries {
                        max_tries,
                        last: outcomes[n - 1]->Transient_0,
                    },
                ),
            )
        }),
{
    lemma_retry_transient_prefix(0, max_tries, outcomes);
}

proof fn lemma_retry_transient_prefix(attempts: int, max_tries: u32, outcomes: Seq<AttemptOutcome>)
    requires
        0 <= attempts,
        attempts == 0 || attempts < max_tries,
        attempts + outcomes.len() >= max_tries,
        outcomes.len() >= 1,
        forall|i: int| 0 <= i < outcomes.len() ==> #[trigger] outcomes[i] is Transient,
    ensures
        ({
            let n = if max_tries == 0 { 1int } else { max_tries as int };
            retry_run(attempts, max_tries, outcomes) == (
                n,
                RetryAction::Abort(
                    FetchError::TooManyRetries {
                        max_tries,
                        last: outcomes[n - attempts - 1]->Transient_0,
                    },
                ),
            )
        }),
    decreases outcomes.len(),
{
    assert(outcomes[0] is Transient);
    if attempts + 1 < max_tries {
        let rest = outcomes.drop_first();
        assert forall|i: int| 0 <= i < rest.len() implies #[trigger] rest[i] is Transient by {
            assert(rest[i] == outcomes[i + 1]);
        }
        lemma_retry_transient_prefix(attempts + 1, max_tries, rest);
        let n = if max_tries == 0 { 1int } else { max_tries as int };
        assert(rest[n - (attempts + 1) - 1] == outcomes[n - attempts - 1]);
    }
}

/// A query that fails transiently before succeeding on attempt `k`, with
/// `k` within the cap, is accepted after exactly `k` attempts.
pub proof fn lemma_retry_success_within_cap(max_tries: u32, outcomes: Seq<AttemptOutcome>, k: int)
    requires
        1 <= k <= outcomes.len(),
        k <= max_tries,
        outcomes[k - 1] is Success,
        forall|i: int| 0 <= i < k - 1 ==> #[trigger] outcomes[i] is Transient,
    ensures
        retry_run(0, max_tries, outcomes) == (k, RetryAction::Accept),
{
    lemma_retry_success_from(0, max_tries, outcomes, k);
}

proof fn lemma_retry_success_from(
    attempts: int,
    max_tries: u32,
    outcomes: Seq<AttemptOutcome>,
    k: int,
)
    requires
        0 <= attempts,
        1 <= k <= outcomes.len(),
        attempts + k <= max_tries,
        outcomes[k - 1] is Success,
        forall|i: int| 0 <= i < k - 1 ==> #[trigger] outcomes[i] is Transient,
    ensures
        retry_run(attempts, max_tries, outcomes) == (attempts + k, RetryAction::Accept),
    decreases k,
{
    if k > 1 {
        assert(outcomes[0] is Transient);
        let rest = outcomes.drop_first();
        assert forall|i: int| 0 <= i < k - 2 implies #[trigger] rest[i] is Transient by {
            assert(rest[i] == outcomes[i + 1]);
        }
        lemma_retry_success_from(attempts + 1, max_tries, rest, k - 1);
    }
}

} // verus!
