//! Bodies, views and errors at the edge of the venue.
use rfq_engine::api::dto::{
    BalanceView, CreateRequestBody, CreditBody, EscrowView, LegBody, LegSideDto, LegView,
    OutcomeDto, PackageView, QuoteView, RequestView, ResolveBody, SelectionView, SubmitQuoteBody,
};
use rfq_engine::api::error::{
    api_error_response, engine_error_response, ApiError, ErrorBody, ErrorResponse,
};
use rfq_engine::api::extract::{claimed_party, party_of, Party, PartyHeader, PARTY_HEADER};
use rfq_engine::domain::ids::{
    ContractDescription, ContractId, InvalidContractDescription, InvalidContractId, LegId, PartyId,
    QuoteId, RequestId, SeqNo,
};
use rfq_engine::domain::money::{Amount, InvalidPrice, Price};
use rfq_engine::domain::request::{
    EmptyLegs, Escrow, Leg, Package, Quote, RfqRequest, Selection, ZeroNotional,
};
use rfq_engine::domain::state::{
    FailReason, LegSide, OracleOutcome, QuoteState, RequestState, Tenor,
};
use rfq_engine::engine::error::EngineError;
use rfq_engine::ledger::{InsufficientFunds, LedgerAccount};
use rfq_engine::time::Timestamp;

fn t(secs: i64) -> Timestamp {
    Timestamp::new(secs, 0).unwrap()
}

fn status(e: EngineError) -> u16 {
    engine_error_response(e).status
}

const NIL: u128 = 0;

const WORDS: &str = "Settles Yes if BTC/USD on Coinbase is above 100000.00 at 2026-12-31T00:00:00Z; otherwise No.";

// ---- errors ----------------------------------------------------------------------------------

#[test]
fn api_engine_errors_map_to_expected_statuses() {
    assert_eq!(status(EngineError::NotFound), 404);
    assert_eq!(status(EngineError::NotOwner), 403);
    assert_eq!(
        status(EngineError::WrongState {
            expected: RequestState::Presented,
            actual: RequestState::Settled
        }),
        409
    );
    assert_eq!(status(EngineError::QuoteNotLive), 409);
    assert_eq!(status(EngineError::Unavailable), 503);
    assert_eq!(
        status(EngineError::InsufficientFunds {
            party: PartyId::new(),
            needed: Amount::new(2),
            available: Amount::new(1)
        }),
        402
    );
    for e in [
        EngineError::QuoteExpired,
        EngineError::QuoteTooSmall,
        EngineError::QuoteExpiresBeforeAcceptWindow,
        EngineError::DeadlineInPast,
        EngineError::EmptyLegs,
    ] {
        assert_eq!(status(e.clone()), 400, "{e:?}");
    }
}

#[test]
fn error_engine_errors_map_to_expected_statuses() {
    assert_eq!(status(EngineError::NotFound), 404);
    assert_eq!(status(EngineError::NotOwner), 403);
    assert_eq!(
        status(EngineError::WrongState {
            expected: RequestState::Presented,
            actual: RequestState::Settled
        }),
        409
    );
    assert_eq!(status(EngineError::QuoteNotLive), 409);
    assert_eq!(status(EngineError::Unavailable), 503);
    assert_eq!(
        status(EngineError::InsufficientFunds {
            party: PartyId::new(),
            needed: Amount::new(2),
            available: Amount::new(1),
        }),
        402
    );
    for e in [
        EngineError::QuoteExpired,
        EngineError::QuoteTooSmall,
        EngineError::QuoteExpiresBeforeAcceptWindow,
        EngineError::InvalidPrice,
        EngineError::DeadlineInPast,
        EngineError::EmptyLegs,
    ] {
        assert_eq!(status(e.clone()), 400, "{e:?}");
    }
}

#[test]
fn api_error_body_carries_code_and_message() {
    let body: ErrorBody = engine_error_response(EngineError::NotOwner).body;
    assert_eq!(body.code, "not_owner");
    assert!(!body.message.is_empty());
}

#[test]
fn error_error_body_carries_code_and_message() {
    let response = engine_error_response(EngineError::NotOwner);
    assert_eq!(response.body.code, "not_owner");
    assert!(!response.body.message.is_empty());
    assert_eq!(
        response.body.message,
        "caller does not own this request or quote"
    );
}

#[test]
fn zero_amount_and_zero_size_are_bad_request() {
    for e in [ApiError::ZeroAmount, ApiError::ZeroSize] {
        let response = api_error_response(e.clone());
        assert_eq!(response.status, 400, "{e:?}");
        assert!(response.body.code.starts_with("zero_"));
    }
}

#[test]
fn api_api_errors_are_bad_request() {
    let response = api_error_response(ApiError::from(InvalidPrice { bps: 0 }));
    assert_eq!(response.status, 400);
    assert_eq!(response.body.code, "invalid_price");
}

#[test]
fn error_api_errors_are_bad_request() {
    let response: ErrorResponse = api_error_response(InvalidPrice { bps: 0 }.into());
    assert_eq!(response.status, 400);
    assert_eq!(response.body.code, "invalid_price");
}

#[test]
fn every_engine_error_has_a_code_and_a_message() {
    let party = PartyId::from(1);
    let expected = [
        (EngineError::NotFound, 404, "not_found", "not found"),
        (
            EngineError::WrongState {
                expected: RequestState::Presented,
                actual: RequestState::Settled,
            },
            409,
            "wrong_state",
            "request is Settled, expected Presented",
        ),
        (
            EngineError::QuoteNotLive,
            409,
            "quote_not_live",
            "quote is no longer live",
        ),
        (
            EngineError::SelfQuote,
            400,
            "self_quote",
            "a requester must not quote its own request",
        ),
        (EngineError::QuoteExpired, 400, "quote_expired", "quote has expired"),
        (
            EngineError::QuoteTooSmall,
            400,
            "quote_too_small",
            "quote size is smaller than the leg notional",
        ),
        (
            EngineError::QuoteExpiresBeforeAcceptWindow,
            400,
            "quote_expires_before_accept_window",
            "quote expires before the accept window closes",
        ),
        (
            EngineError::InsufficientFunds {
                party,
                needed: Amount::new(2),
                available: Amount::new(1),
            },
            402,
            "insufficient_funds",
            "insufficient funds for 00000000-0000-0000-0000-000000000001: needed 2, available 1",
        ),
        (
            EngineError::DeadlineInPast,
            400,
            "deadline_in_past",
            "deadline is in the past",
        ),
        (
            EngineError::DeadlineBeyondHorizon,
            400,
            "deadline_beyond_horizon",
            "deadline is beyond the venue's response horizon",
        ),
        (
            EngineError::EmptyLegs,
            400,
            "empty_legs",
            "a request must have at least one leg",
        ),
        (
            EngineError::Unavailable,
            503,
            "engine_unavailable",
            "engine is not running",
        ),
    ];
    for (e, status, code, message) in expected {
        let response = engine_error_response(e);
        assert_eq!(
            (response.status, response.body.code, response.body.message.as_str()),
            (status, code, message)
        );
    }
    assert_eq!(EngineError::from(EmptyLegs), EngineError::EmptyLegs);
    assert_eq!(
        EngineError::from(InvalidPrice { bps: 0 }),
        EngineError::InvalidPrice
    );
    assert_eq!(
        EngineError::from(InsufficientFunds {
            party,
            needed: Amount::new(2),
            available: Amount::new(1)
        }),
        EngineError::InsufficientFunds {
            party,
            needed: Amount::new(2),
            available: Amount::new(1)
        }
    );
}

#[test]
fn every_body_error_has_a_code_and_a_message() {
    let expected = [
        (
            ApiError::from(InvalidPrice { bps: 10_000 }),
            "invalid_price",
            "price 10000 bps is outside 1..=9999",
        ),
        (
            ApiError::from(InvalidContractId),
            "invalid_contract_id",
            "contract id must be non-empty",
        ),
        (
            ApiError::from(InvalidContractDescription::TooLong),
            "invalid_contract_description",
            "contract description exceeds 1000 characters",
        ),
        (
            ApiError::from(ZeroNotional),
            "zero_notional",
            "leg notional must be greater than zero",
        ),
        (
            ApiError::from(EmptyLegs),
            "empty_legs",
            "a request must have at least one leg",
        ),
        (
            ApiError::ZeroAmount,
            "zero_amount",
            "amount must be greater than zero",
        ),
        (
            ApiError::ZeroSize,
            "zero_size",
            "quote size must be greater than zero",
        ),
    ];
    for (e, code, message) in expected {
        let response = api_error_response(e);
        assert_eq!(
            (response.status, response.body.code, response.body.message.as_str()),
            (400, code, message)
        );
    }
}

// ---- the caller's identity -------------------------------------------------------------------

#[test]
fn missing_party_header_is_unauthorized() {
    let response = claimed_party(PartyHeader::Absent).unwrap_err();
    assert_eq!(response.status, 401);
    assert_eq!(response.body.code, "missing_party");
    assert_eq!(response.body.message, "missing x-party-id header");
    assert_eq!(PARTY_HEADER, "x-party-id");
}

#[test]
fn open_fm_missing_party_header_is_401() {
    let response = claimed_party(PartyHeader::Absent).unwrap_err();
    assert_eq!(response.status, 401);
    assert_eq!(response.body.code, "missing_party");
    assert!(
        claimed_party(PartyHeader::Text(PartyId::new().text())).is_ok(),
        "header present → past the extractor"
    );
}

#[test]
fn an_identity_is_read_back_from_its_text() {
    let raw: u128 = 0x67e55044_10b1_426f_9247_bb680e5fe0c8;
    for text in [
        "67e55044-10b1-426f-9247-bb680e5fe0c8",
        "67E55044-10B1-426F-9247-BB680E5FE0C8",
        "67e5504410b1426f9247bb680e5fe0c8",
        "urn:uuid:67e55044-10b1-426f-9247-bb680e5fe0c8",
        "{67e55044-10b1-426f-9247-bb680e5fe0c8}",
    ] {
        assert_eq!(
            claimed_party(PartyHeader::Text(text.to_owned())),
            Ok(Party(PartyId::from(raw))),
            "{text}"
        );
    }
    let party = PartyId::new();
    assert_eq!(
        claimed_party(PartyHeader::Text(party.text())),
        Ok(Party(party))
    );
}

#[test]
fn an_identity_that_is_no_uuid_is_refused() {
    for header in [
        PartyHeader::Unreadable,
        PartyHeader::Text(String::new()),
        PartyHeader::Text("alice".to_owned()),
        PartyHeader::Text("67e55044-10b1-426f-9247-bb680e5fe0c".to_owned()),
    ] {
        let response = claimed_party(header).unwrap_err();
        assert_eq!(response.status, 401);
        assert_eq!(response.body.code, "missing_party");
        assert_eq!(response.body.message, "x-party-id must be a UUID");
    }
    assert_eq!(party_of(Some(5)), Ok(Party(PartyId::from(5))));
    assert_eq!(party_of(None).unwrap_err().status, 401);
}

// ---- bodies ----------------------------------------------------------------------------------

fn leg_body(contract: &str, description: &str, notional: u64) -> LegBody {
    LegBody {
        contract: contract.into(),
        description: description.into(),
        side: LegSideDto::SellYes,
        notional,
    }
}

#[test]
fn api_leg_body_parses_into_domain_leg() {
    let body = LegBody {
        contract: "BTC-100K".into(),
        description: WORDS.into(),
        side: LegSideDto::BuyYes,
        notional: 1000,
    };
    let leg = Leg::try_from(body).unwrap();
    assert_eq!(leg.contract.as_str(), "BTC-100K");
    assert_eq!(leg.description.as_str(), WORDS);
    assert_eq!(leg.side, LegSide::BuyYes);
    assert_eq!(leg.notional, Amount::new(1_000));
}

#[test]
fn dto_leg_body_parses_into_domain_leg() {
    let body = LegBody {
        contract: "BTC-100K".into(),
        description: "BTC above 100K".into(),
        side: LegSideDto::BuyYes,
        notional: 1000,
    };
    let leg = Leg::try_from(body).unwrap();
    assert_eq!(leg.contract.as_str(), "BTC-100K");
    assert_eq!(leg.side, LegSide::BuyYes);
    assert_eq!(leg.notional, Amount::new(1_000));
}

#[test]
fn api_leg_body_rejects_bad_input() {
    assert!(matches!(
        Leg::try_from(leg_body("C", "d", 0)),
        Err(ApiError::ZeroNotional(_))
    ));
    assert!(matches!(
        Leg::try_from(leg_body(" ", "d", 1)),
        Err(ApiError::InvalidContractId(_))
    ));
    assert!(matches!(
        Leg::try_from(leg_body("C", "  ", 1)),
        Err(ApiError::InvalidContractDescription(_))
    ));
}

#[test]
fn dto_leg_body_rejects_bad_input() {
    let zero = LegBody {
        contract: "C".into(),
        description: "d".into(),
        side: LegSideDto::SellYes,
        notional: 0,
    };
    assert!(matches!(Leg::try_from(zero), Err(ApiError::ZeroNotional(_))));
    let blank = LegBody {
        contract: " ".into(),
        description: "d".into(),
        side: LegSideDto::SellYes,
        notional: 1,
    };
    assert!(matches!(
        Leg::try_from(blank),
        Err(ApiError::InvalidContractId(_))
    ));
}

#[test]
fn the_first_fault_of_a_leg_is_the_one_named() {
    assert!(matches!(
        Leg::try_from(leg_body("", "", 0)),
        Err(ApiError::InvalidContractId(_))
    ));
    assert!(matches!(
        Leg::try_from(leg_body("C", &"x".repeat(1_001), 0)),
        Err(ApiError::InvalidContractDescription(
            InvalidContractDescription::TooLong
        ))
    ));
}

#[test]
fn create_request_body_requires_legs() {
    let body = CreateRequestBody {
        legs: vec![],
        tenor: Tenor::FiveMinutes,
        response_deadline: t(10),
    };
    let r: Result<(Vec<Leg>, Tenor, Timestamp), _> = body.try_into();
    assert!(matches!(r, Err(ApiError::EmptyLegs(_))));
}

#[test]
fn a_request_body_keeps_its_legs_in_order() {
    let body = CreateRequestBody {
        legs: vec![leg_body("A", "a", 1), leg_body("B", "b", 2)],
        tenor: Tenor::OneHour,
        response_deadline: t(10),
    };
    let (legs, tenor, deadline): (Vec<Leg>, Tenor, Timestamp) = body.try_into().unwrap();
    assert_eq!(legs.len(), 2);
    assert_eq!(legs[0].contract.as_str(), "A");
    assert_eq!(legs[1].contract.as_str(), "B");
    assert_ne!(legs[0].id, legs[1].id);
    assert_eq!((tenor, deadline), (Tenor::OneHour, t(10)));

    let body = CreateRequestBody {
        legs: vec![leg_body("A", "a", 1), leg_body("B", "b", 0), leg_body("", "c", 1)],
        tenor: Tenor::OneHour,
        response_deadline: t(10),
    };
    let r: Result<(Vec<Leg>, Tenor, Timestamp), _> = body.try_into();
    assert!(matches!(r, Err(ApiError::ZeroNotional(_))), "the first bad leg");
}

#[test]
fn quote_body_validates_price_and_size() {
    let leg_id = LegId::new().0;
    let ok = SubmitQuoteBody {
        leg_id,
        price_bps: 2_500,
        size: 10,
        expires_at: t(10),
    };
    let (lid, price, size, exp): (LegId, Price, Amount, Timestamp) = ok.try_into().unwrap();
    assert_eq!(lid, LegId::from(leg_id));
    assert_eq!(price.bps(), 2_500);
    assert_eq!(size, Amount::new(10));
    assert_eq!(exp, t(10));

    let bad_price = SubmitQuoteBody {
        leg_id,
        price_bps: 10_000,
        size: 10,
        expires_at: t(10),
    };
    let r: Result<(LegId, Price, Amount, Timestamp), _> = bad_price.try_into();
    assert!(matches!(r, Err(ApiError::InvalidPrice(_))));

    let zero_size = SubmitQuoteBody {
        leg_id,
        price_bps: 100,
        size: 0,
        expires_at: t(10),
    };
    let r: Result<(LegId, Price, Amount, Timestamp), _> = zero_size.try_into();
    assert_eq!(r, Err(ApiError::ZeroSize));
}

#[test]
fn credit_body_rejects_zero() {
    let body = CreditBody {
        party_id: PartyId::new().0,
        amount: 0,
    };
    let r: Result<(PartyId, Amount), _> = body.try_into();
    assert_eq!(r, Err(ApiError::ZeroAmount));
    let body = CreditBody {
        party_id: 9,
        amount: 5,
    };
    let r: Result<(PartyId, Amount), _> = body.try_into();
    assert_eq!(r, Ok((PartyId::from(9), Amount::new(5))));
}

#[test]
fn resolve_body_parses_outcome() {
    let body = ResolveBody {
        request_id: NIL,
        outcome: OutcomeDto::Invalid,
    };
    assert_eq!(RequestId::from(body.request_id), RequestId::from(NIL));
    assert_eq!(OracleOutcome::from(body.outcome), OracleOutcome::Invalid);
}

#[test]
fn resolve_body_maps_outcome() {
    let body = ResolveBody {
        request_id: NIL,
        outcome: OutcomeDto::Invalid,
    };
    let (rid, outcome): (RequestId, OracleOutcome) = body.into();
    assert_eq!(rid, RequestId::from(NIL));
    assert_eq!(outcome, OracleOutcome::Invalid);
}

#[test]
fn sides_and_outcomes_on_the_wire_are_those_of_the_domain() {
    for (dto, side) in [
        (LegSideDto::BuyYes, LegSide::BuyYes),
        (LegSideDto::SellYes, LegSide::SellYes),
        (LegSideDto::BuyNo, LegSide::BuyNo),
        (LegSideDto::SellNo, LegSide::SellNo),
    ] {
        assert_eq!(LegSide::from(dto), side);
    }
    for (dto, outcome) in [
        (OutcomeDto::Yes, OracleOutcome::Yes),
        (OutcomeDto::No, OracleOutcome::No),
        (OutcomeDto::Invalid, OracleOutcome::Invalid),
        (OutcomeDto::Disputed, OracleOutcome::Disputed),
    ] {
        assert_eq!(OracleOutcome::from(dto), outcome);
    }
}

// ---- views -----------------------------------------------------------------------------------

#[test]
fn balance_view_flattens_account() {
    let party = PartyId::new();
    let view = BalanceView::from((
        party,
        LedgerAccount {
            free: Amount::new(1),
            reserved: Amount::new(2),
            escrowed: Amount::new(3),
        },
    ));
    assert_eq!(view.party_id.text(), party.text());
    assert_eq!(
        (
            view.free.minor_units(),
            view.reserved.minor_units(),
            view.escrowed.minor_units()
        ),
        (1, 2, 3)
    );
}

fn leg() -> Leg {
    Leg::new(
        ContractId::new("C").unwrap(),
        ContractDescription::new("C resolves Yes").unwrap(),
        LegSide::BuyYes,
        Amount::new(500),
    )
    .unwrap()
}

#[test]
fn request_view_serializes_domain_aggregate() {
    let req = RfqRequest::open(
        RequestId::new(),
        PartyId::new(),
        vec![leg()],
        Tenor::FiveMinutes,
        t(10),
        t(310),
        t(0),
    )
    .unwrap();
    let view = RequestView::of(&req);
    assert_eq!(view.state.wire_name(), "open");
    assert_eq!(view.legs[0].side.wire_name(), "buy_yes");
    assert_eq!(view.legs[0].notional.minor_units(), 500);
    assert!(view.package.is_none(), "absent package is omitted");
    assert!(view.fail_reason.is_none());
    assert_eq!((view.id, view.requester), (req.id, req.requester));
    assert_eq!(
        (view.response_deadline, view.resolves_at, view.created_at),
        (t(10), t(310), t(0))
    );
}

#[test]
fn a_view_shows_every_part_of_a_request() {
    let (requester, maker) = (PartyId::new(), PartyId::new());
    let leg = leg();
    let price = Price::new(2_500).unwrap();
    let quote = Quote {
        id: QuoteId::new(),
        leg_id: leg.id,
        maker,
        price,
        size: Amount::new(600),
        expires_at: t(100),
        submitted_at: t(1),
        seq: SeqNo::new(3),
        state: QuoteState::Locked,
    };
    let escrow = Escrow::new(&leg, price, requester, maker);
    let selection = Selection {
        leg_id: leg.id,
        quote_id: quote.id,
    };
    let mut req = RfqRequest::open(
        RequestId::new(),
        requester,
        vec![leg.clone()],
        Tenor::FiveMinutes,
        t(10),
        t(310),
        t(0),
    )
    .unwrap();
    req.quotes.push(quote);
    req.escrows.push(escrow);
    req.package = Some(Package {
        selections: vec![selection],
    });
    req.state = RequestState::Disputed;
    req.accept_deadline = Some(t(70));
    req.reported_outcome = Some(OracleOutcome::Yes);
    req.dispute_deadline = Some(t(80));
    req.unwind_deadline = Some(t(90));
    req.fail_reason = Some(FailReason::Rejected);

    let view = RequestView::of(&req);
    assert_eq!(view.legs, vec![LegView::from(&leg)]);
    assert_eq!(view.quotes, vec![QuoteView::from(&quote)]);
    assert_eq!(view.quotes[0].price_bps.bps(), 2_500);
    assert_eq!(view.quotes[0].state, QuoteState::Locked);
    assert_eq!(view.escrows, vec![EscrowView::from(&escrow)]);
    assert_eq!(view.escrows[0].yes_buyer_amount, Amount::new(125));
    assert_eq!(view.escrows[0].yes_seller_amount, Amount::new(375));
    assert_eq!(
        view.package,
        Some(PackageView {
            selections: vec![SelectionView {
                leg_id: leg.id,
                quote_id: quote.id
            }]
        })
    );
    assert_eq!(view.state, RequestState::Disputed);
    assert_eq!(view.tenor, Tenor::FiveMinutes);
    assert_eq!(view.accept_deadline, Some(t(70)));
    assert_eq!(view.reported_outcome, Some(OracleOutcome::Yes));
    assert_eq!(view.dispute_deadline, Some(t(80)));
    assert_eq!(view.unwind_deadline, Some(t(90)));
    assert_eq!(view.fail_reason, Some(FailReason::Rejected));
}
