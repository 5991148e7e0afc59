//! Why a command is refused.
use vstd::prelude::*;
use vstd::std_specs::convert::FromSpecImpl;
use vstd::string::*;
use crate::domain::ids::PartyId;
use crate::domain::money::{Amount, InvalidPrice};
use crate::domain::request::EmptyLegs;
use crate::domain::state::RequestState;
use crate::ledger::InsufficientFunds;

verus! {

#[derive(Debug, Clone, Copy, PartialEq, Eq, Structural)]
pub enum EngineError {
    NotFound,
    NotOwner,
    WrongState { expected: RequestState, actual: RequestState },
    QuoteNotLive,
    /// A requester does not quote its own request.
    SelfQuote,
    QuoteExpired,
    QuoteTooSmall,
    QuoteExpiresBeforeAcceptWindow,
    InsufficientFunds { party: PartyId, needed: Amount, available: Amount },
    DeadlineInPast,
    DeadlineBeyondHorizon,
    EmptyLegs,
    InvalidPrice,
    Unavailable,
}

/// The name of a request's state in messages.
pub open spec fn state_label(state: RequestState) -> Seq<char> {
    match state {
        RequestState::Open => "Open"@,
        RequestState::Presented => "Presented"@,
        RequestState::Locked => "Locked"@,
        RequestState::Reported => "Reported"@,
        RequestState::Disputed => "Disputed"@,
        RequestState::Settled => "Settled"@,
        RequestState::Unwound => "Unwound"@,
        RequestState::Failed => "Failed"@,
    }
}

fn label_of(state: RequestState) -> (s: &'static str)
    ensures
        s@ == state_label(state),
{
    match state {
        RequestState::Open => "Open",
        RequestState::Presented => "Presented",
        RequestState::Locked => "Locked",
        RequestState::Reported => "Reported",
        RequestState::Disputed => "Disputed",
        RequestState::Settled => "Settled",
        RequestState::Unwound => "Unwound",
        RequestState::Failed => "Failed",
    }
}

impl EngineError {
    pub open spec fn spec_message(self) -> Seq<char> {
        match self {
            EngineError::NotFound => "not found"@,
            EngineError::NotOwner => "caller does not own this request or quote"@,
            EngineError::WrongState { expected, actual } => {
                "request is "@ + state_label(actual) + ", expected "@ + state_label(expected)
            },
            EngineError::QuoteNotLive => "quote is no longer live"@,
            EngineError::SelfQuote => "a requester must not quote its own request"@,
            EngineError::QuoteExpired => "quote has expired"@,
            EngineError::QuoteTooSmall => "quote size is smaller than the leg notional"@,
            EngineError::QuoteExpiresBeforeAcceptWindow => {
                "quote expires before the accept window closes"@
            },
            EngineError::InsufficientFunds { party, needed, available } => {
                (InsufficientFunds { party, needed, available }).spec_message()
            },
            EngineError::DeadlineInPast => "deadline is in the past"@,
            EngineError::DeadlineBeyondHorizon => {
                "deadline is beyond the venue's response horizon"@
            },
            EngineError::EmptyLegs => "a request must have at least one leg"@,
            EngineError::InvalidPrice => "price must be within 1..=9999 basis points"@,
            EngineError::Unavailable => "engine is not running"@,
        }
    }

    pub fn message(self) -> (s: String)
        ensures
            s@ == self.spec_message(),
    {
        match self {
            EngineError::NotFound => "not found".to_owned(),
            EngineError::NotOwner => "caller does not own this request or quote".to_owned(),
            EngineError::WrongState { expected, actual } => {
                let mut s = "request is ".to_owned();
                s.append(label_of(actual));
                s.append(", expected ");
                s.append(label_of(expected));
                s
            },
            EngineError::QuoteNotLive => "quote is no longer live".to_owned(),
            EngineError::SelfQuote => "a requester must not quote its own request".to_owned(),
            EngineError::QuoteExpired => "quote has expired".to_owned(),
            EngineError::QuoteTooSmall => "quote size is smaller than the leg notional".to_owned(),
            EngineError::QuoteExpiresBeforeAcceptWindow => {
                "quote expires before the accept window closes".to_owned()
            },
            EngineError::InsufficientFunds { party, needed, available } => {
                (InsufficientFunds { party, needed, available }).message()
            },
            EngineError::DeadlineInPast => "deadline is in the past".to_owned(),
            EngineError::DeadlineBeyondHorizon => {
                "deadline is beyond the venue's response horizon".to_owned()
            },
            EngineError::EmptyLegs => "a request must have at least one leg".to_owned(),
            EngineError::InvalidPrice => "price must be within 1..=9999 basis points".to_owned(),
            EngineError::Unavailable => "engine is not running".to_owned(),
        }
    }
}

impl From<InsufficientFunds> for EngineError {
    fn from(e: InsufficientFunds) -> (error: EngineError) {
        EngineError::InsufficientFunds {
            party: e.party,
            needed: e.needed,
            available: e.available,
        }
    }
}

impl FromSpecImpl<InsufficientFunds> for EngineError {
    open spec fn obeys_from_spec() -> bool {
        true
    }

    open spec fn from_spec(e: InsufficientFunds) -> EngineError {
        EngineError::InsufficientFunds {
            party: e.party,
            needed: e.needed,
            available: e.available,
        }
    }
}

impl From<EmptyLegs> for EngineError {
    fn from(e: EmptyLegs) -> (error: EngineError) {
        EngineError::EmptyLegs
    }
}

impl FromSpecImpl<EmptyLegs> for EngineError {
    open spec fn obeys_from_spec() -> bool {
        true
    }

    open spec fn from_spec(e: EmptyLegs) -> EngineError {
        EngineError::EmptyLegs
    }
}

impl From<InvalidPrice> for EngineError {
    fn from(e: InvalidPrice) -> (error: EngineError) {
        EngineError::InvalidPrice
    }
}

impl FromSpecImpl<InvalidPrice> for EngineError {
    open spec fn obeys_from_spec() -> bool {
        true
    }

    open spec fn from_spec(e: InvalidPrice) -> EngineError {
        EngineError::InvalidPrice
    }
}

} // verus!
