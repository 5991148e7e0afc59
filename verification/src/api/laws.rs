//! What bodies are taken for, what is shown of requests, and how errors are answered.
use vstd::prelude::*;
use vstd::std_specs::convert::{FromSpec, TryFromSpec};
use crate::api::dto;
use crate::api::dto::{
    BalanceView, CreditBody, EscrowView, LegBody, LegSideDto, LegView, OutcomeDto, QuoteView,
    ResolveBody, SelectionView, SubmitQuoteBody,
};
use crate::api::error;
use crate::api::error::{ApiError, ErrorResponse};
use crate::api::extract;
use crate::api::extract::Party;
use crate::domain::ids::{InvalidContractDescription, InvalidContractId, PartyId, RequestId};
use crate::domain::money::{Amount, InvalidPrice};
use crate::domain::request::{EmptyLegs, Escrow, Leg, Quote, Selection, ZeroNotional};
use crate::domain::state::{LegSide, OracleOutcome, RequestState};
use crate::engine::error::EngineError;
use crate::ledger::{InsufficientFunds, LedgerAccount};
use crate::text;

verus! {

/// Sides and outcomes on the wire stand for those of the same name.
pub proof fn law_wire_choices_keep_their_names()
    ensures
        LegSideDto::BuyYes.side() == LegSide::BuyYes,
        LegSideDto::SellYes.side() == LegSide::SellYes,
        LegSideDto::BuyNo.side() == LegSide::BuyNo,
        LegSideDto::SellNo.side() == LegSide::SellNo,
        OutcomeDto::Yes.outcome() == OracleOutcome::Yes,
        OutcomeDto::No.outcome() == OracleOutcome::No,
        OutcomeDto::Invalid.outcome() == OracleOutcome::Invalid,
        OutcomeDto::Disputed.outcome() == OracleOutcome::Disputed,
        forall|s: LegSideDto| #[trigger] <LegSide as FromSpec<LegSideDto>>::from_spec(s) == s.side(),
        forall|o: OutcomeDto|
            #[trigger] <OracleOutcome as FromSpec<OutcomeDto>>::from_spec(o) == o.outcome(),
{
}

/// A report is for the request and with the outcome that its body names, a credit for the party and
/// with the amount, unless that is zero.
pub proof fn law_bodies_name_what_they_are_for(report: ResolveBody, credit: CreditBody)
    ensures
        ({
            let taken = <(RequestId, OracleOutcome) as FromSpec<ResolveBody>>::from_spec(report);
            taken.0 == RequestId(report.request_id) && taken.1 == report.outcome.outcome()
        }),
        ({
            let taken = <(PartyId, Amount) as TryFromSpec<CreditBody>>::try_from_spec(credit);
            &&& credit.amount == 0 ==> taken == Err::<(PartyId, Amount), ApiError>(
                ApiError::ZeroAmount,
            )
            &&& credit.amount > 0 ==> taken == Ok::<(PartyId, Amount), ApiError>(
                (PartyId(credit.party_id), Amount(credit.amount)),
            )
        }),
{
}

/// A leg is refused for a contract that is blank, then for a description that is blank or longer
/// than a thousand characters without the white space at its ends, then for a notional of zero. Any
/// other is taken.
pub proof fn law_which_legs_are_taken(b: LegBody)
    ensures
        ({
            let contract = text::trimmed(b.contract@).len();
            let description = text::trimmed(b.description@).len();
            &&& b.error() is None <==> contract > 0 && 1 <= description <= 1_000 && b.notional > 0
            &&& contract == 0 ==> b.error() == Some(ApiError::InvalidContractId(InvalidContractId))
            &&& contract > 0 && description == 0 ==> b.error() == Some(
                ApiError::InvalidContractDescription(InvalidContractDescription::Empty),
            )
            &&& contract > 0 && description > 1_000 ==> b.error() == Some(
                ApiError::InvalidContractDescription(InvalidContractDescription::TooLong),
            )
            &&& contract > 0 && 1 <= description <= 1_000 && b.notional == 0 ==> b.error() == Some(
                ApiError::ZeroNotional(ZeroNotional),
            )
        }),
{
}

/// The leg that a body asks for has its contract as it stands, its description without the white
/// space at its ends, its side and its notional, under a random identifier.
pub proof fn law_legs_are_as_asked_for(b: LegBody, leg: Leg)
    ensures
        b.asks_for(leg) <==> {
            &&& (leg.id.0 >> 76) & 0xf == 4
            &&& (leg.id.0 >> 62) & 0x3 == 2
            &&& leg.contract@ == b.contract@
            &&& leg.description@ == text::trimmed(b.description@)
            &&& leg.side == b.side.side()
            &&& leg.notional.0 == b.notional
        },
{
}

/// A request without legs is refused, and one with a bad leg for what is wrong with the first such.
pub proof fn law_requests_are_refused_for_their_first_bad_leg(legs: Seq<LegBody>, i: int)
    ensures
        legs.len() == 0 ==> dto::legs_error(legs) == Some(ApiError::EmptyLegs(EmptyLegs)),
        0 <= i < legs.len() && legs[i].error() is Some && (forall|j: int|
            0 <= j < i ==> (#[trigger] legs[j]).error() is None) ==> dto::legs_error(legs)
            == legs[i].error(),
        legs.len() > 0 && (forall|j: int|
            0 <= j < legs.len() ==> (#[trigger] legs[j]).error() is None) ==> dto::legs_error(legs)
            is None,
{
    lemma_first_leg_error(legs, 0, i);
}

proof fn lemma_first_leg_error(legs: Seq<LegBody>, from: int, i: int)
    requires
        0 <= from <= legs.len(),
    ensures
        from <= i < legs.len() && legs[i].error() is Some && (forall|j: int|
            from <= j < i ==> (#[trigger] legs[j]).error() is None) ==> dto::first_leg_error(
            legs,
            from,
        ) == legs[i].error(),
        (forall|j: int| from <= j < legs.len() ==> (#[trigger] legs[j]).error() is None)
            ==> dto::first_leg_error(legs, from) is None,
    decreases legs.len() - from,
{
    if from < legs.len() {
        lemma_first_leg_error(legs, from + 1, i);
        assert(legs[from] == legs[from]);
    }
}

/// A quote is refused for a size of zero, and then for a price outside one to 9,999 basis points.
pub proof fn law_which_quote_bodies_are_taken(b: SubmitQuoteBody)
    ensures
        b.error() is None <==> b.size > 0 && 1 <= b.price_bps <= 9_999,
        b.size == 0 ==> b.error() == Some(ApiError::ZeroSize),
        b.size > 0 && !(1 <= b.price_bps <= 9_999) ==> b.error() == Some(
            ApiError::InvalidPrice(InvalidPrice { bps: b.price_bps }),
        ),
{
}

/// What is shown is what there is, field by field; of a quote all but its place in the order of
/// submission.
pub proof fn law_views_show_what_there_is(
    l: Leg,
    q: Quote,
    s: Selection,
    e: Escrow,
    party: PartyId,
    account: LedgerAccount,
)
    ensures
        ({
            let view = LegView::showing(l);
            &&& view.id == l.id
            &&& view.contract == l.contract
            &&& view.description == l.description
            &&& view.side == l.side
            &&& view.notional == l.notional
        }),
        ({
            let view = QuoteView::showing(q);
            &&& view.id == q.id
            &&& view.leg_id == q.leg_id
            &&& view.maker == q.maker
            &&& view.price_bps == q.price
            &&& view.size == q.size
            &&& view.expires_at == q.expires_at
            &&& view.submitted_at == q.submitted_at
            &&& view.state == q.state
        }),
        ({
            let view = SelectionView::showing(s);
            view.leg_id == s.leg_id && view.quote_id == s.quote_id
        }),
        ({
            let view = EscrowView::showing(e);
            &&& view.leg_id == e.leg_id
            &&& view.yes_buyer == e.yes_buyer
            &&& view.yes_seller == e.yes_seller
            &&& view.yes_buyer_amount == e.yes_buyer_amount
            &&& view.yes_seller_amount == e.yes_seller_amount
            &&& view.notional == e.notional
        }),
        ({
            let view = <BalanceView as FromSpec<(PartyId, LedgerAccount)>>::from_spec(
                (party, account),
            );
            &&& view.party_id == party
            &&& view.free == account.free
            &&& view.reserved == account.reserved
            &&& view.escrowed == account.escrowed
        }),
        <LegView as FromSpec<&Leg>>::from_spec(&l) == LegView::showing(l),
        <QuoteView as FromSpec<&Quote>>::from_spec(&q) == QuoteView::showing(q),
        <SelectionView as FromSpec<&Selection>>::from_spec(&s) == SelectionView::showing(s),
        <EscrowView as FromSpec<&Escrow>>::from_spec(&e) == EscrowView::showing(e),
{
}

/// The status of a refused command: 404 for what is not there, 403 for what is not the caller's,
/// 409 for what is in the wrong state, 402 for want of funds, 503 while the engine is not running,
/// and 400 for anything else.
pub proof fn law_statuses_of_refusals(e: EngineError)
    ensures
        error::engine_status(e) == 404 <==> e == EngineError::NotFound,
        error::engine_status(e) == 403 <==> e == EngineError::NotOwner,
        error::engine_status(e) == 409 <==> e is WrongState || e == EngineError::QuoteNotLive,
        error::engine_status(e) == 402 <==> e is InsufficientFunds,
        error::engine_status(e) == 503 <==> e == EngineError::Unavailable,
        error::engine_status(e) == 400 <==> e == EngineError::SelfQuote || e
            == EngineError::QuoteExpired || e == EngineError::QuoteTooSmall || e
            == EngineError::QuoteExpiresBeforeAcceptWindow || e == EngineError::DeadlineInPast
            || e == EngineError::DeadlineBeyondHorizon || e == EngineError::EmptyLegs || e
            == EngineError::InvalidPrice,
{
}

/// The codes of refused commands and of bad bodies.
pub proof fn law_codes_of_errors(
    states: (RequestState, RequestState),
    party: PartyId,
    amounts: (Amount, Amount),
    price: InvalidPrice,
    description: InvalidContractDescription,
)
    ensures
        error::engine_code(EngineError::NotFound) == "not_found"@,
        error::engine_code(EngineError::NotOwner) == "not_owner"@,
        error::engine_code(
            EngineError::WrongState { expected: states.0, actual: states.1 },
        ) == "wrong_state"@,
        error::engine_code(EngineError::QuoteNotLive) == "quote_not_live"@,
        error::engine_code(EngineError::SelfQuote) == "self_quote"@,
        error::engine_code(EngineError::QuoteExpired) == "quote_expired"@,
        error::engine_code(EngineError::QuoteTooSmall) == "quote_too_small"@,
        error::engine_code(EngineError::QuoteExpiresBeforeAcceptWindow)
            == "quote_expires_before_accept_window"@,
        error::engine_code(
            EngineError::InsufficientFunds { party, needed: amounts.0, available: amounts.1 },
        ) == "insufficient_funds"@,
        error::engine_code(EngineError::DeadlineInPast) == "deadline_in_past"@,
        error::engine_code(EngineError::DeadlineBeyondHorizon) == "deadline_beyond_horizon"@,
        error::engine_code(EngineError::EmptyLegs) == "empty_legs"@,
        error::engine_code(EngineError::InvalidPrice) == "invalid_price"@,
        error::engine_code(EngineError::Unavailable) == "engine_unavailable"@,
        ApiError::InvalidPrice(price).spec_code() == "invalid_price"@,
        ApiError::InvalidContractId(InvalidContractId).spec_code() == "invalid_contract_id"@,
        ApiError::InvalidContractDescription(description).spec_code()
            == "invalid_contract_description"@,
        ApiError::ZeroNotional(ZeroNotional).spec_code() == "zero_notional"@,
        ApiError::EmptyLegs(EmptyLegs).spec_code() == "empty_legs"@,
        ApiError::ZeroAmount.spec_code() == "zero_amount"@,
        ApiError::ZeroSize.spec_code() == "zero_size"@,
{
}

/// What refusals say. One over a state names the state that the request is in and then the one that
/// it should be in, one over funds the party, what was needed and what there is.
pub proof fn law_messages_of_refusals(
    states: (RequestState, RequestState),
    party: PartyId,
    amounts: (Amount, Amount),
)
    ensures
        EngineError::NotFound.spec_message() == "not found"@,
        EngineError::NotOwner.spec_message() == "caller does not own this request or quote"@,
        ({
            let name = |state: RequestState|
                match state {
                    RequestState::Open => "Open"@,
                    RequestState::Presented => "Presented"@,
                    RequestState::Locked => "Locked"@,
                    RequestState::Reported => "Reported"@,
                    RequestState::Disputed => "Disputed"@,
                    RequestState::Settled => "Settled"@,
                    RequestState::Unwound => "Unwound"@,
                    RequestState::Failed => "Failed"@,
                };
            (EngineError::WrongState { expected: states.0, actual: states.1 }).spec_message()
                == "request is "@ + name(states.1) + ", expected "@ + name(states.0)
        }),
        EngineError::QuoteNotLive.spec_message() == "quote is no longer live"@,
        EngineError::SelfQuote.spec_message() == "a requester must not quote its own request"@,
        EngineError::QuoteExpired.spec_message() == "quote has expired"@,
        EngineError::QuoteTooSmall.spec_message() == "quote size is smaller than the leg notional"@,
        EngineError::QuoteExpiresBeforeAcceptWindow.spec_message()
            == "quote expires before the accept window closes"@,
        (EngineError::InsufficientFunds {
            party,
            needed: amounts.0,
            available: amounts.1,
        }).spec_message() == "insufficient funds for "@ + text::hyphenated(party.0) + ": needed "@
            + text::decimal(amounts.0.0 as nat) + ", available "@ + text::decimal(
            amounts.1.0 as nat,
        ),
        EngineError::DeadlineInPast.spec_message() == "deadline is in the past"@,
        EngineError::DeadlineBeyondHorizon.spec_message()
            == "deadline is beyond the venue's response horizon"@,
        EngineError::EmptyLegs.spec_message() == "a request must have at least one leg"@,
        EngineError::InvalidPrice.spec_message() == "price must be within 1..=9999 basis points"@,
        EngineError::Unavailable.spec_message() == "engine is not running"@,
{
}

/// What is said of bad bodies.
pub proof fn law_messages_of_bad_bodies(bps: u32)
    ensures
        ApiError::InvalidPrice(InvalidPrice { bps }).spec_message() == "price "@ + text::decimal(
            bps as nat,
        ) + " bps is outside 1..=9999"@,
        ApiError::InvalidContractId(InvalidContractId).spec_message()
            == "contract id must be non-empty"@,
        ApiError::InvalidContractDescription(
            InvalidContractDescription::Empty,
        ).spec_message() == "contract description must be non-empty"@,
        ApiError::InvalidContractDescription(
            InvalidContractDescription::TooLong,
        ).spec_message() == "contract description exceeds "@ + text::decimal(1_000)
            + " characters"@,
        ApiError::ZeroNotional(ZeroNotional).spec_message()
            == "leg notional must be greater than zero"@,
        ApiError::EmptyLegs(EmptyLegs).spec_message() == "a request must have at least one leg"@,
        ApiError::ZeroAmount.spec_message() == "amount must be greater than zero"@,
        ApiError::ZeroSize.spec_message() == "quote size must be greater than zero"@,
{
}

/// What an error of the domain becomes in the engine and in the interface.
pub proof fn law_errors_are_passed_on(
    price: InvalidPrice,
    description: InvalidContractDescription,
    funds: InsufficientFunds,
)
    ensures
        <EngineError as FromSpec<InsufficientFunds>>::from_spec(funds) == (
        EngineError::InsufficientFunds {
            party: funds.party,
            needed: funds.needed,
            available: funds.available,
        }),
        <EngineError as FromSpec<EmptyLegs>>::from_spec(EmptyLegs) == EngineError::EmptyLegs,
        <EngineError as FromSpec<InvalidPrice>>::from_spec(price) == EngineError::InvalidPrice,
        <ApiError as FromSpec<InvalidPrice>>::from_spec(price) == ApiError::InvalidPrice(price),
        <ApiError as FromSpec<InvalidContractId>>::from_spec(InvalidContractId)
            == ApiError::InvalidContractId(InvalidContractId),
        <ApiError as FromSpec<InvalidContractDescription>>::from_spec(description)
            == ApiError::InvalidContractDescription(description),
        <ApiError as FromSpec<ZeroNotional>>::from_spec(ZeroNotional) == ApiError::ZeroNotional(
            ZeroNotional,
        ),
        <ApiError as FromSpec<EmptyLegs>>::from_spec(EmptyLegs) == ApiError::EmptyLegs(EmptyLegs),
{
}

/// A call without an identity is answered with the status 401 and the code for it.
pub proof fn law_calls_without_identity(claim: Result<Party, ErrorResponse>, message: Seq<char>)
    ensures
        extract::refused(claim, message) <==> (claim matches Err(response) && response.status == 401
            && response.body.code@ == "missing_party"@ && response.body.message@ == message),
{
}

} // verus!
