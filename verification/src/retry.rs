//! The bounded retry-on-timeout loop, as a state machine: the caller issues
//! one wire query per step and feeds the outcome back in.

use vstd::prelude::*;
use crate::error::{ClientError, ResolverError};
use crate::message::Message;

verus! {

/// State of one retry loop.
#[derive(Debug, PartialEq, Eq)]
pub struct RetryState {
    pub tries_left: u32,
    pub message: Option<Message>,
}

/// What the loop does after an outcome: issue another query, or stop.
#[derive(Debug, PartialEq, Eq)]
pub enum RetryStep {
    Continue(RetryState),
    Break(RetryState),
}

/// How far a loop got on a given list of outcomes: the wire queries it
/// issued, and its result if it finished.
pub struct RetryRun {
    pub queries: nat,
    pub result: Option<Result<Message, ResolverError>>,
}

impl RetryState {
    /// A loop in progress has at least one try left and no message yet.
    pub open spec fn active(&self) -> bool {
        self.tries_left >= 1 && self.message is None
    }

    /// The state after one failed attempt.
    pub open spec fn spec_next_step(self) -> RetryStep {
        let next = RetryState { tries_left: (self.tries_left - 1) as u32, message: self.message };
        if next.tries_left > 0 {
            RetryStep::Continue(next)
        } else {
            RetryStep::Break(next)
        }
    }

    /// The reaction to the outcome of one wire query.
    pub open spec fn spec_on_result(self, outcome: Result<Message, ClientError>) -> Result<
        RetryStep,
        ResolverError,
    > {
        match outcome {
            Ok(message) => Ok(
                RetryStep::Break(RetryState { tries_left: self.tries_left, message: Some(message) }),
            ),
            Err(ClientError::Timeout) => Ok(self.spec_next_step()),
            Err(ClientError::Canceled(_)) => Ok(self.spec_next_step()),
            Err(ClientError::Other(text)) => Err(ResolverError::DnsClientError(text)),
        }
    }

    /// The result of a loop that has stopped in this state.
    pub open spec fn spec_finish(self) -> Result<Message, ResolverError> {
        match self.message {
            Some(message) => Ok(message),
            None => Err(ResolverError::ConnectionTimeout),
        }
    }

    /// The loop run from this state over `outcomes`, the outcomes of its
    /// successive wire queries: it issues a query, reacts to the outcome, and
    /// goes on until it stops or the given outcomes run out.
    pub open spec fn run(self, outcomes: Seq<Result<Message, ClientError>>) -> RetryRun
        decreases outcomes.len(),
    {
        if outcomes.len() == 0 {
            RetryRun { queries: 0, result: None }
        } else {
            match self.spec_on_result(outcomes[0]) {
                Err(e) => RetryRun { queries: 1, result: Some(Err(e)) },
                Ok(RetryStep::Break(state)) => RetryRun {
                    queries: 1,
                    result: Some(state.spec_finish()),
                },
                Ok(RetryStep::Continue(state)) => {
                    let rest = state.run(outcomes.drop_first());
                    RetryRun { queries: rest.queries + 1, result: rest.result }
                },
            }
        }
    }

    /// A fresh loop with `tries` attempts.
    pub fn new(tries: u32) -> (s: RetryState)
        ensures
            s.tries_left == tries,
            s.message is None,
    {
        RetryState { tries_left: tries, message: None }
    }

    /// Uses up one attempt; the loop goes on while attempts remain.
    pub fn next_step(self) -> (step: RetryStep)
        requires
            self.tries_left >= 1,
        ensures
            step == self.spec_next_step(),
    {
        let next = RetryState { tries_left: self.tries_left - 1, message: self.message };
        if next.tries_left > 0 {
            RetryStep::Continue(next)
        } else {
            RetryStep::Break(next)
        }
    }

    /// True while an attempt remains.
    pub fn has_next_step(&self) -> (b: bool)
        ensures
            b == (self.tries_left > 0),
    {
        self.tries_left > 0
    }

    /// Stores the response.
    pub fn with_message(self, message: Message) -> (s: RetryState)
        ensures
            s.tries_left == self.tries_left,
            s.message == Some(message),
    {
        RetryState { tries_left: self.tries_left, message: Some(message) }
    }

    /// The stored response, if any.
    pub fn into_message(self) -> (m: Option<Message>)
        ensures
            m == self.message,
    {
        self.message
    }

    /// Reacts to the outcome of one wire query: a response stops the loop
    /// with the message stored; a timeout or a cancellation uses up one
    /// attempt; any other failure ends the loop with that error.
    pub fn on_result(self, outcome: Result<Message, ClientError>) -> (r: Result<
        RetryStep,
        ResolverError,
    >)
        requires
            self.tries_left >= 1,
        ensures
            r == self.spec_on_result(outcome),
    {
        match outcome {
            Ok(message) => Ok(RetryStep::Break(self.with_message(message))),
            Err(ClientError::Timeout) => Ok(self.next_step()),
            Err(ClientError::Canceled(_)) => Ok(self.next_step()),
            Err(ClientError::Other(text)) => Err(ResolverError::DnsClientError(text)),
        }
    }

    /// The result of a loop that has stopped: the message if one arrived,
    /// `ConnectionTimeout` otherwise.
    pub fn finish(self) -> (r: Result<Message, ResolverError>)
        ensures
            r == self.spec_finish(),
    {
        match self.into_message() {
            Some(message) => Ok(message),
            None => Err(ResolverError::ConnectionTimeout),
        }
    }
}

/// True when every outcome in `outcomes` is a timeout.
pub open spec fn all_timeouts(outcomes: Seq<Result<Message, ClientError>>) -> bool {
    forall|i: int|
        0 <= i < outcomes.len() ==> #[trigger] outcomes[i] == Err::<Message, ClientError>(
            ClientError::Timeout,
        )
}

/// Retry bound: a loop with `tries` attempts never issues more than `tries`
/// wire queries, and while it goes on it has attempts left.
pub proof fn lemma_retry_bound(state: RetryState, outcomes: Seq<Result<Message, ClientError>>)
    requires
        state.active(),
    ensures
        state.run(outcomes).queries <= state.tries_left,
        state.run(outcomes).queries <= outcomes.len(),
    decreases outcomes.len(),
{
    if outcomes.len() > 0 {
        match state.spec_on_result(outcomes[0]) {
            Ok(RetryStep::Continue(next)) => {
                lemma_retry_bound(next, outcomes.drop_first());
            },
            _ => {},
        }
    }
}

/// Retry law: against a server that only ever times out, a loop with
/// `tries` attempts issues exactly `tries` wire queries and then fails with
/// `ConnectionTimeout`.
pub proof fn lemma_timeouts_use_every_try(
    state: RetryState,
    outcomes: Seq<Result<Message, ClientError>>,
)
    requires
        state.active(),
        all_timeouts(outcomes),
        outcomes.len() >= state.tries_left,
    ensures
        state.run(outcomes).queries == state.tries_left,
        state.run(outcomes).result == Some(
            Err::<Message, ResolverError>(ResolverError::ConnectionTimeout),
        ),
    decreases outcomes.len(),
{
    assert(outcomes[0] == Err::<Message, ClientError>(ClientError::Timeout));
    match state.spec_on_result(outcomes[0]) {
        Ok(RetryStep::Continue(next)) => {
            let rest = outcomes.drop_first();
            assert forall|i: int| 0 <= i < rest.len() implies #[trigger] rest[i] == Err::<
                Message,
                ClientError,
            >(ClientError::Timeout) by {
                assert(rest[i] == outcomes[i + 1]);
            }
            lemma_timeouts_use_every_try(next, rest);
        },
        _ => {},
    }
}

/// A loop stops at the first response and returns that very message.
pub proof fn lemma_first_response_wins(
    state: RetryState,
    outcomes: Seq<Result<Message, ClientError>>,
    message: Message,
)
    requires
        state.active(),
        outcomes.len() >= 1,
        outcomes[0] == Ok::<Message, ClientError>(message),
    ensures
        state.run(outcomes).queries == 1,
        state.run(outcomes).result == Some(Ok::<Message, ResolverError>(message)),
{
}

/// The state only moves one way: an outcome never adds attempts, a loop
/// that goes on has one attempt fewer and still no message, and a message
/// is stored only by the step that stops the loop.
pub proof fn lemma_retry_is_monotonic(state: RetryState, outcome: Result<Message, ClientError>)
    requires
        state.active(),
    ensures
        match state.spec_on_result(outcome) {
            Ok(RetryStep::Continue(next)) => next.active() && next.tries_left + 1
                == state.tries_left,
            Ok(RetryStep::Break(next)) => next.tries_left <= state.tries_left && (next.message
                is Some <==> outcome is Ok),
            Err(_) => outcome is Err,
        },
{
}

/// What a loop comes to against a server that gives the same outcome to
/// every attempt: its response; `ConnectionTimeout` if it times out or is
/// cancelled; the wire-level failure otherwise.
pub open spec fn settled(outcome: Result<Message, ClientError>) -> Result<Message, ResolverError> {
    match outcome {
        Ok(message) => Ok(message),
        Err(ClientError::Other(text)) => Err(ResolverError::DnsClientError(text)),
        Err(_) => Err(ResolverError::ConnectionTimeout),
    }
}

/// Determinism law: against a server that gives the same outcome to every
/// attempt, a loop finishes within its attempts, and its result depends on
/// that outcome alone, not on the number of attempts or on anything else.
pub proof fn lemma_same_outcome_same_result(
    state: RetryState,
    outcomes: Seq<Result<Message, ClientError>>,
    outcome: Result<Message, ClientError>,
)
    requires
        state.active(),
        outcomes.len() >= state.tries_left,
        forall|i: int| 0 <= i < outcomes.len() ==> #[trigger] outcomes[i] == outcome,
    ensures
        state.run(outcomes).result == Some(settled(outcome)),
    decreases outcomes.len(),
{
    assert(outcomes[0] == outcome);
    match state.spec_on_result(outcomes[0]) {
        Ok(RetryStep::Continue(next)) => {
            let rest = outcomes.drop_first();
            assert forall|i: int| 0 <= i < rest.len() implies #[trigger] rest[i] == outcome by {
                assert(rest[i] == outcomes[i + 1]);
            }
            lemma_same_outcome_same_result(next, rest, outcome);
        },
        _ => {},
    }
}

} // verus!
