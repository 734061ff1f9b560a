use vstd::prelude::*;

verus! {

/// The `then` handler of a promise reaction: absent (`undefined`), a
/// function, or another value.
#[derive(Debug, Clone, Copy, PartialEq, Eq, Structural)]
pub enum Handler {
    Missing,
    Function,
    NotCallable,
}

/// How a promise reaction begins.
#[derive(Debug, Clone, Copy, PartialEq, Eq, Structural)]
pub enum ReactionStart {
    /// The settled value goes on as the handler's result.
    PassOn,
    /// The reaction fails with a `TypeError`.
    FailWithTypeError,
    /// The handler is called with the settled value.
    CallHandler,
}

/// The first step of a promise reaction, from its handler and whether the
/// promise was fulfilled (else rejected).
pub fn reaction_start(handler: Handler, is_fulfilled: bool) -> (r: ReactionStart)
    ensures
        r == (match handler {
            Handler::Missing => if is_fulfilled {
                ReactionStart::PassOn
            } else {
                ReactionStart::FailWithTypeError
            },
            Handler::Function => ReactionStart::CallHandler,
            Handler::NotCallable => ReactionStart::PassOn,
        }),
{
    match handler {
        Handler::Missing => if is_fulfilled {
            ReactionStart::PassOn
        } else {
            ReactionStart::FailWithTypeError
        },
        Handler::Function => ReactionStart::CallHandler,
        Handler::NotCallable => ReactionStart::PassOn,
    }
}

/// The state of a promise, read from its state text.
#[derive(Debug, Clone, Copy, PartialEq, Eq, Structural)]
pub enum PromiseState {
    Fulfilled,
    Rejected,
    /// Any other text: the promise is still pending.
    Pending,
}

/// The state a state text names: `fulfilled`, `rejected`, and pending for
/// any other text.
pub fn promise_state(state: &String) -> (r: PromiseState)
    ensures
        r == (if state@ == "fulfilled"@ {
            PromiseState::Fulfilled
        } else if state@ == "rejected"@ {
            PromiseState::Rejected
        } else {
            PromiseState::Pending
        }),
{
    if *state == String::from_str("fulfilled") {
        PromiseState::Fulfilled
    } else if *state == String::from_str("rejected") {
        PromiseState::Rejected
    } else {
        PromiseState::Pending
    }
}

/// What the first step of a reaction gave.
#[derive(Debug, Clone, Copy, PartialEq, Eq, Structural)]
pub enum Outcome {
    /// A value that is no promise.
    Value,
    /// A promise whose state has a text, in this state.
    Promise(PromiseState),
    /// A promise whose state is no text.
    PromiseWithoutState,
    /// A failure.
    Failed,
}

/// How a promise reaction ends, on the promise that the reaction settles.
#[derive(Debug, Clone, Copy, PartialEq, Eq, Structural)]
pub enum ReactionEnd {
    /// Its resolve function is called with the value.
    ResolveWithValue,
    /// Its resolve function is called with the returned promise's value.
    ResolveWithFulfilledValue,
    /// Its reject function is called with the returned promise's reason.
    RejectWithReason,
    /// `then` is called on the returned pending promise with the resolve
    /// and reject functions.
    ChainThen,
    /// Its reject function is called with the failure.
    RejectWithError,
    /// Nothing is done.
    Nothing,
}

/// The last step of a promise reaction, from what its first step gave.
pub fn reaction_end(outcome: Outcome) -> (r: ReactionEnd)
    ensures
        r == (match outcome {
            Outcome::Value => ReactionEnd::ResolveWithValue,
            Outcome::Promise(PromiseState::Fulfilled) => ReactionEnd::ResolveWithFulfilledValue,
            Outcome::Promise(PromiseState::Rejected) => ReactionEnd::RejectWithReason,
            Outcome::Promise(PromiseState::Pending) => ReactionEnd::ChainThen,
            Outcome::PromiseWithoutState => ReactionEnd::Nothing,
            Outcome::Failed => ReactionEnd::RejectWithError,
        }),
{
    match outcome {
        Outcome::Value => ReactionEnd::ResolveWithValue,
        Outcome::Promise(PromiseState::Fulfilled) => ReactionEnd::ResolveWithFulfilledValue,
        Outcome::Promise(PromiseState::Rejected) => ReactionEnd::RejectWithReason,
        Outcome::Promise(PromiseState::Pending) => ReactionEnd::ChainThen,
        Outcome::PromiseWithoutState => ReactionEnd::Nothing,
        Outcome::Failed => ReactionEnd::RejectWithError,
    }
}

} // verus!
