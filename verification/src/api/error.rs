//! Statuses, codes and messages of errors.
use vstd::prelude::*;
use vstd::std_specs::convert::FromSpecImpl;
use vstd::string::*;
use crate::domain::ids::{InvalidContractDescription, InvalidContractId};
use crate::domain::money::InvalidPrice;
use crate::domain::request::{EmptyLegs, ZeroNotional};
use crate::engine::error::EngineError;

verus! {

/// The body of an error: a code for programs and a message for people.
#[derive(Debug, PartialEq, Eq)]
pub struct ErrorBody {
    pub code: &'static str,
    pub message: String,
}

impl ErrorBody {
    pub fn new(code: &'static str, message: &str) -> (body: ErrorBody)
        ensures
            body.code@ == code@,
            body.message@ == message@,
    {
        ErrorBody { code, message: message.to_owned() }
    }
}

/// An error as it is answered: the HTTP status and the body.
#[derive(Debug, PartialEq, Eq)]
pub struct ErrorResponse {
    pub status: u16,
    pub body: ErrorBody,
}

/// The HTTP status of a refused command.
pub open spec fn engine_status(e: EngineError) -> u16 {
    match e {
        EngineError::NotFound => 404,
        EngineError::NotOwner => 403,
        EngineError::WrongState { .. } | EngineError::QuoteNotLive => 409,
        EngineError::InsufficientFunds { .. } => 402,
        EngineError::Unavailable => 503,
        _ => 400,
    }
}

/// The code of a refused command.
pub open spec fn engine_code(e: EngineError) -> Seq<char> {
    match e {
        EngineError::NotFound => "not_found"@,
        EngineError::NotOwner => "not_owner"@,
        EngineError::WrongState { .. } => "wrong_state"@,
        EngineError::QuoteNotLive => "quote_not_live"@,
        EngineError::SelfQuote => "self_quote"@,
        EngineError::QuoteExpired => "quote_expired"@,
        EngineError::QuoteTooSmall => "quote_too_small"@,
        EngineError::QuoteExpiresBeforeAcceptWindow => "quote_expires_before_accept_window"@,
        EngineError::InsufficientFunds { .. } => "insufficient_funds"@,
        EngineError::DeadlineInPast => "deadline_in_past"@,
        EngineError::DeadlineBeyondHorizon => "deadline_beyond_horizon"@,
        EngineError::EmptyLegs => "empty_legs"@,
        EngineError::InvalidPrice => "invalid_price"@,
        EngineError::Unavailable => "engine_unavailable"@,
    }
}

/// How a refused command is answered.
pub fn engine_error_response(e: EngineError) -> (response: ErrorResponse)
    ensures
        response.status == engine_status(e),
        response.body.code@ == engine_code(e),
        response.body.message@ == e.spec_message(),
{
    let (status, code): (u16, &'static str) = match e {
        EngineError::NotFound => (404, "not_found"),
        EngineError::NotOwner => (403, "not_owner"),
        EngineError::WrongState { .. } => (409, "wrong_state"),
        EngineError::QuoteNotLive => (409, "quote_not_live"),
        EngineError::SelfQuote => (400, "self_quote"),
        EngineError::QuoteExpired => (400, "quote_expired"),
        EngineError::QuoteTooSmall => (400, "quote_too_small"),
        EngineError::QuoteExpiresBeforeAcceptWindow => (400, "quote_expires_before_accept_window"),
        EngineError::InsufficientFunds { .. } => (402, "insufficient_funds"),
        EngineError::DeadlineInPast => (400, "deadline_in_past"),
        EngineError::DeadlineBeyondHorizon => (400, "deadline_beyond_horizon"),
        EngineError::EmptyLegs => (400, "empty_legs"),
        EngineError::InvalidPrice => (400, "invalid_price"),
        EngineError::Unavailable => (503, "engine_unavailable"),
    };
    ErrorResponse { status, body: ErrorBody { code, message: e.message() } }
}

/// What is wrong with a body.
#[derive(Debug, Clone, Copy, PartialEq, Eq, Structural)]
pub enum ApiError {
    InvalidPrice(InvalidPrice),
    InvalidContractId(InvalidContractId),
    InvalidContractDescription(InvalidContractDescription),
    ZeroNotional(ZeroNotional),
    EmptyLegs(EmptyLegs),
    ZeroAmount,
    ZeroSize,
}

impl ApiError {
    pub open spec fn spec_code(self) -> Seq<char> {
        match self {
            ApiError::InvalidPrice(_) => "invalid_price"@,
            ApiError::InvalidContractId(_) => "invalid_contract_id"@,
            ApiError::InvalidContractDescription(_) => "invalid_contract_description"@,
            ApiError::ZeroNotional(_) => "zero_notional"@,
            ApiError::EmptyLegs(_) => "empty_legs"@,
            ApiError::ZeroAmount => "zero_amount"@,
            ApiError::ZeroSize => "zero_size"@,
        }
    }

    pub fn code(self) -> (code: &'static str)
        ensures
            code@ == self.spec_code(),
    {
        match self {
            ApiError::InvalidPrice(_) => "invalid_price",
            ApiError::InvalidContractId(_) => "invalid_contract_id",
            ApiError::InvalidContractDescription(_) => "invalid_contract_description",
            ApiError::ZeroNotional(_) => "zero_notional",
            ApiError::EmptyLegs(_) => "empty_legs",
            ApiError::ZeroAmount => "zero_amount",
            ApiError::ZeroSize => "zero_size",
        }
    }

    pub open spec fn spec_message(self) -> Seq<char> {
        match self {
            ApiError::InvalidPrice(e) => e.spec_message(),
            ApiError::InvalidContractId(e) => e.spec_message(),
            ApiError::InvalidContractDescription(e) => e.spec_message(),
            ApiError::ZeroNotional(e) => e.spec_message(),
            ApiError::EmptyLegs(e) => e.spec_message(),
            ApiError::ZeroAmount => "amount must be greater than zero"@,
            ApiError::ZeroSize => "quote size must be greater than zero"@,
        }
    }

    pub fn message(self) -> (s: String)
        ensures
            s@ == self.spec_message(),
    {
        match self {
            ApiError::InvalidPrice(e) => e.message(),
            ApiError::InvalidContractId(e) => e.message(),
            ApiError::InvalidContractDescription(e) => e.message(),
            ApiError::ZeroNotional(e) => e.message(),
            ApiError::EmptyLegs(e) => e.message(),
            ApiError::ZeroAmount => "amount must be greater than zero".to_owned(),
            ApiError::ZeroSize => "quote size must be greater than zero".to_owned(),
        }
    }
}

/// How a bad body is answered.
pub fn api_error_response(e: ApiError) -> (response: ErrorResponse)
    ensures
        response.status == 400,
        response.body.code@ == e.spec_code(),
        response.body.message@ == e.spec_message(),
{
    ErrorResponse { status: 400, body: ErrorBody { code: e.code(), message: e.message() } }
}

impl From<InvalidPrice> for ApiError {
    fn from(e: InvalidPrice) -> (error: ApiError) {
        ApiError::InvalidPrice(e)
    }
}

impl FromSpecImpl<InvalidPrice> for ApiError {
    open spec fn obeys_from_spec() -> bool {
        true
    }

    open spec fn from_spec(e: InvalidPrice) -> ApiError {
        ApiError::InvalidPrice(e)
    }
}

impl From<InvalidContractId> for ApiError {
    fn from(e: InvalidContractId) -> (error: ApiError) {
        ApiError::InvalidContractId(e)
    }
}

impl FromSpecImpl<InvalidContractId> for ApiError {
    open spec fn obeys_from_spec() -> bool {
        true
    }

    open spec fn from_spec(e: InvalidContractId) -> ApiError {
        ApiError::InvalidContractId(e)
    }
}

impl From<InvalidContractDescription> for ApiError {
    fn from(e: InvalidContractDescription) -> (error: ApiError) {
        ApiError::InvalidContractDescription(e)
    }
}

impl FromSpecImpl<InvalidContractDescription> for ApiError {
    open spec fn obeys_from_spec() -> bool {
        true
    }

    open spec fn from_spec(e: InvalidContractDescription) -> ApiError {
        ApiError::InvalidContractDescription(e)
    }
}

impl From<ZeroNotional> for ApiError {
    fn from(e: ZeroNotional) -> (error: ApiError) {
        ApiError::ZeroNotional(e)
    }
}

impl FromSpecImpl<ZeroNotional> for ApiError {
    open spec fn obeys_from_spec() -> bool {
        true
    }

    open spec fn from_spec(e: ZeroNotional) -> ApiError {
        ApiError::ZeroNotional(e)
    }
}

impl From<EmptyLegs> for ApiError {
    fn from(e: EmptyLegs) -> (error: ApiError) {
        ApiError::EmptyLegs(e)
    }
}

impl FromSpecImpl<EmptyLegs> for ApiError {
    open spec fn obeys_from_spec() -> bool {
        true
    }

    open spec fn from_spec(e: EmptyLegs) -> ApiError {
        ApiError::EmptyLegs(e)
    }
}

} // verus!
