//! Identifiers, money, states, requests and matching.
use rfq_engine::domain::ids::{
    ContractDescription, ContractId, InvalidContractDescription, InvalidContractId, LegId, PartyId,
    QuoteId, RequestId, SeqNo,
};
use rfq_engine::domain::matching::{best_quote, select_best};
use rfq_engine::domain::money::{Amount, InvalidPrice, Price};
use rfq_engine::domain::request::{
    EmptyLegs, Escrow, Leg, Package, Quote, RfqRequest, Selection, ZeroNotional,
};
use rfq_engine::domain::state::{
    FailReason, LegSide, OracleOutcome, QuoteState, RequestState, Tenor,
};
use rfq_engine::time::Timestamp;

fn t(secs: i64) -> Timestamp {
    Timestamp::new(secs, 0).unwrap()
}

// ---- identifiers ---------------------------------------------------------------------------

#[test]
fn contract_id_rejects_empty_and_whitespace() {
    assert_eq!(ContractId::new(""), Err(InvalidContractId));
    assert_eq!(ContractId::new("   "), Err(InvalidContractId));
    assert_eq!(
        ContractId::new("BTC-100K-2026").unwrap().as_str(),
        "BTC-100K-2026"
    );
}

#[test]
fn contract_description_is_trimmed_and_bounded() {
    assert_eq!(
        ContractDescription::new("  "),
        Err(InvalidContractDescription::Empty)
    );
    assert_eq!(
        ContractDescription::new(&"x".repeat(ContractDescription::MAX_CHARS + 1)),
        Err(InvalidContractDescription::TooLong)
    );
    assert_eq!(
        ContractDescription::new("  BTC > 100k  ").unwrap().as_str(),
        "BTC > 100k"
    );
    assert!(ContractDescription::new(&"x".repeat(ContractDescription::MAX_CHARS)).is_ok());
}

#[test]
fn a_description_is_measured_in_characters_once_trimmed() {
    assert_eq!(ContractDescription::MAX_CHARS, 1_000);
    let accented = "é".repeat(1_000);
    assert_eq!(ContractDescription::new(&accented).unwrap().as_str(), accented);
    let padded = format!("\t{}\u{3000}\n", "é".repeat(1_000));
    assert_eq!(ContractDescription::new(&padded).unwrap().as_str(), accented);
    assert_eq!(
        ContractDescription::new(&"é".repeat(1_001)),
        Err(InvalidContractDescription::TooLong)
    );
}

#[test]
fn a_contract_id_keeps_its_padding() {
    assert_eq!(ContractId::new(" BTC ").unwrap().as_str(), " BTC ");
    assert_eq!(ContractId::new("\u{3000}\u{a0}"), Err(InvalidContractId));
}

#[test]
fn seq_is_monotonic() {
    let a = SeqNo::zero();
    let b = a.next();
    assert!(b > a);
    assert_eq!(b, SeqNo::new(1));
}

#[test]
fn random_identifiers_are_version_four() {
    for id in [
        PartyId::new().0,
        RequestId::new().0,
        LegId::new().0,
        QuoteId::new().0,
    ] {
        assert_eq!(id >> 76 & 0xf, 4, "{id:x}");
        assert_eq!(id >> 62 & 0x3, 2, "{id:x}");
    }
    assert_ne!(PartyId::new(), PartyId::new());
}

#[test]
fn an_identifier_shows_as_hyphenated_hexadecimal() {
    let raw: u128 = 0x67e55044_10b1_426f_9247_bb680e5fe0c8;
    let text = "67e55044-10b1-426f-9247-bb680e5fe0c8";
    assert_eq!(PartyId::from(raw).text(), text);
    assert_eq!(RequestId::from(raw).text(), text);
    assert_eq!(LegId::from(raw).text(), text);
    assert_eq!(QuoteId::from(raw).text(), text);
    assert_eq!(
        PartyId::from(0).text(),
        "00000000-0000-0000-0000-000000000000"
    );
}

#[test]
fn refused_names_say_why() {
    assert_eq!(InvalidContractId.message(), "contract id must be non-empty");
    assert_eq!(
        InvalidContractDescription::Empty.message(),
        "contract description must be non-empty"
    );
    assert_eq!(
        InvalidContractDescription::TooLong.message(),
        "contract description exceeds 1000 characters"
    );
    assert_eq!(ZeroNotional.message(), "leg notional must be greater than zero");
    assert_eq!(EmptyLegs.message(), "a request must have at least one leg");
}

// ---- money -----------------------------------------------------------------------------------

#[test]
fn price_rejects_zero_and_full() {
    assert_eq!(Price::new(0), Err(InvalidPrice { bps: 0 }));
    assert_eq!(Price::new(10_000), Err(InvalidPrice { bps: 10_000 }));
    assert_eq!(Price::new(10_001), Err(InvalidPrice { bps: 10_001 }));
    assert_eq!(Price::new(1).unwrap().bps(), 1);
    assert_eq!(Price::new(9_999).unwrap().bps(), 9_999);
}

#[test]
fn buyer_lock_is_truncated_share_of_notional() {
    let p = Price::new(2_500).unwrap();
    assert_eq!(p.yes_buyer_lock(Amount::new(10_000)), Amount::new(2_500));
    assert_eq!(p.yes_seller_lock(Amount::new(10_000)), Amount::new(7_500));
    // 7 * 2500 / 10000 = 1.75 -> 1; seller absorbs the remainder.
    assert_eq!(p.yes_buyer_lock(Amount::new(7)), Amount::new(1));
    assert_eq!(p.yes_seller_lock(Amount::new(7)), Amount::new(6));
}

#[test]
fn buyer_plus_seller_equals_notional_for_sweep() {
    let prices = [
        1, 2, 3, 7, 9, 99, 100, 1_234, 5_000, 6_667, 9_990, 9_998, 9_999,
    ];
    let notionals = [
        1,
        2,
        3,
        7,
        9_999,
        10_000,
        10_001,
        123_456_789,
        u64::MAX / 2,
        u64::MAX,
    ];
    for &bps in &prices {
        let p = Price::new(bps).unwrap();
        for &n in &notionals {
            let notional = Amount::new(n);
            let buyer = p.yes_buyer_lock(notional);
            let seller = p.yes_seller_lock(notional);
            assert_eq!(
                buyer + seller,
                notional,
                "p={bps} n={n}: {buyer:?} + {seller:?} != {notional:?}"
            );
            assert!(
                buyer < notional,
                "buyer never locks the full notional (p < 100%)"
            );
        }
    }
}

#[test]
fn amount_arithmetic() {
    assert_eq!(Amount::new(5) + Amount::new(7), Amount::new(12));
    assert_eq!(Amount::new(7) - Amount::new(5), Amount::new(2));
    assert_eq!(Amount::new(u64::MAX).checked_add(Amount::new(1)), None);
    assert_eq!(Amount::new(1).checked_sub(Amount::new(2)), None);
    assert_eq!(
        Amount::sum(&[Amount::new(1), Amount::new(2)]),
        Amount::new(3)
    );
}

#[test]
fn amounts_show_in_minor_units() {
    assert_eq!(Amount::zero().text(), "0");
    assert_eq!(Amount::new(1_050).text(), "1050");
    assert_eq!(Amount::new(u64::MAX).text(), "18446744073709551615");
    assert_eq!(Amount::new(7).minor_units(), 7);
    assert!(Amount::zero().is_zero() && !Amount::new(1).is_zero());
    assert_eq!(Amount::sum(&[]), Amount::zero());
    assert_eq!(
        Amount::new(u64::MAX - 1).checked_add(Amount::new(1)),
        Some(Amount::new(u64::MAX))
    );
    assert_eq!(Amount::new(2).checked_sub(Amount::new(2)), Some(Amount::zero()));
}

#[test]
fn an_invalid_price_is_named() {
    assert_eq!(
        InvalidPrice { bps: 10_000 }.message(),
        "price 10000 bps is outside 1..=9999"
    );
}

// ---- states ----------------------------------------------------------------------------------

#[test]
fn leg_side_role() {
    assert!(LegSide::BuyYes.requester_buys_yes());
    assert!(LegSide::SellNo.requester_buys_yes());
    assert!(!LegSide::SellYes.requester_buys_yes());
    assert!(!LegSide::BuyNo.requester_buys_yes());
}

#[test]
fn leg_side_round_trips_through_snake_case_wire_names() {
    for (wire, side) in [
        ("buy_yes", LegSide::BuyYes),
        ("sell_yes", LegSide::SellYes),
        ("buy_no", LegSide::BuyNo),
        ("sell_no", LegSide::SellNo),
    ] {
        let parsed: LegSide = LegSide::from_wire(wire).unwrap();
        assert_eq!(parsed, side);
        assert_eq!(side.wire_name(), wire);
    }
}

#[test]
fn fail_reason_serializes_with_tag() {
    let leg = LegId::new();
    let reason = FailReason::LegUnmatched(leg);
    assert_eq!(reason.wire_name(), "leg_unmatched");
    assert_eq!(reason.leg_id().unwrap().text(), leg.text());
    assert_eq!(FailReason::Rejected.wire_name(), "rejected");
}

#[test]
fn other_wire_names_are_snake_case() {
    assert_eq!(
        FailReason::AcceptWindowExpired.wire_name(),
        "accept_window_expired"
    );
    assert_eq!(
        FailReason::InsufficientRequesterFunds.wire_name(),
        "insufficient_requester_funds"
    );
    assert_eq!(FailReason::Rejected.leg_id(), None);
    for (state, wire) in [
        (RequestState::Open, "open"),
        (RequestState::Presented, "presented"),
        (RequestState::Locked, "locked"),
        (RequestState::Reported, "reported"),
        (RequestState::Settled, "settled"),
        (RequestState::Disputed, "disputed"),
        (RequestState::Unwound, "unwound"),
        (RequestState::Failed, "failed"),
    ] {
        assert_eq!(state.wire_name(), wire);
    }
    for (state, wire) in [
        (QuoteState::Live, "live"),
        (QuoteState::Selected, "selected"),
        (QuoteState::Locked, "locked"),
        (QuoteState::Released, "released"),
    ] {
        assert_eq!(state.wire_name(), wire);
    }
    for (outcome, wire) in [
        (OracleOutcome::Yes, "yes"),
        (OracleOutcome::No, "no"),
        (OracleOutcome::Invalid, "invalid"),
        (OracleOutcome::Disputed, "disputed"),
    ] {
        assert_eq!(outcome.wire_name(), wire);
        assert_eq!(OracleOutcome::from_wire(wire), Some(outcome));
    }
    assert_eq!(LegSide::from_wire("BuyYes"), None);
    assert_eq!(OracleOutcome::from_wire(""), None);
    assert_eq!(Tenor::from_wire("five_years"), None);
}

#[test]
fn a_tenor_names_a_duration() {
    assert_eq!(Tenor::from_wire("five_minutes"), Some(Tenor::FiveMinutes));
    assert_eq!(Tenor::FiveMinutes.duration().secs(), 300);
    assert_eq!(Tenor::FiveMinutes.wire_name(), "five_minutes");
}

// ---- requests --------------------------------------------------------------------------------

fn leg(side: LegSide, notional: u64) -> Leg {
    Leg::new(
        ContractId::new("C").unwrap(),
        ContractDescription::new("C resolves Yes").unwrap(),
        side,
        Amount::new(notional),
    )
    .unwrap()
}

fn quote(leg: &Leg, bps: u32) -> Quote {
    Quote {
        id: QuoteId::new(),
        leg_id: leg.id,
        maker: PartyId::new(),
        price: Price::new(bps).unwrap(),
        size: leg.notional,
        expires_at: t(100),
        submitted_at: t(0),
        seq: SeqNo::zero(),
        state: QuoteState::Live,
    }
}

fn open(legs: Vec<Leg>) -> Result<RfqRequest, EmptyLegs> {
    RfqRequest::open(
        RequestId::new(),
        PartyId::new(),
        legs,
        Tenor::FiveMinutes,
        t(10),
        t(310),
        t(0),
    )
}

#[test]
fn leg_rejects_zero_notional() {
    assert_eq!(
        Leg::new(
            ContractId::new("C").unwrap(),
            ContractDescription::new("C").unwrap(),
            LegSide::BuyYes,
            Amount::zero()
        ),
        Err(ZeroNotional)
    );
}

#[test]
fn request_rejects_empty_legs() {
    assert_eq!(open(vec![]), Err(EmptyLegs));
}

#[test]
fn open_request_starts_clean() {
    let r = open(vec![leg(LegSide::BuyYes, 1_000)]).unwrap();
    assert_eq!(r.state, RequestState::Open);
    assert!(r.quotes.is_empty() && r.escrows.is_empty());
    assert!(r.package.is_none() && r.accept_deadline.is_none() && r.fail_reason.is_none());
    assert_eq!(r.response_deadline, t(10));
    assert_eq!(r.resolves_at, t(310));
    assert_eq!(r.created_at, t(0));
    assert_eq!(r.legs.len(), 1);
}

#[test]
fn escrow_roles_follow_leg_side() {
    let requester = PartyId::new();
    let maker = PartyId::new();
    let price = Price::new(3_000).unwrap();

    let buy = leg(LegSide::BuyYes, 10_000);
    let e = Escrow::new(&buy, price, requester, maker);
    assert_eq!((e.yes_buyer, e.yes_seller), (requester, maker));
    assert_eq!(e.yes_buyer_amount, Amount::new(3_000));
    assert_eq!(e.yes_seller_amount, Amount::new(7_000));
    assert_eq!(e.notional, Amount::new(10_000));
    assert_eq!(e.leg_id, buy.id);

    let sell = leg(LegSide::SellYes, 10_000);
    let e = Escrow::new(&sell, price, requester, maker);
    assert_eq!((e.yes_buyer, e.yes_seller), (maker, requester));
    assert_eq!(e.yes_buyer_amount + e.yes_seller_amount, e.notional);

    // Buying No is selling Yes; selling No is buying Yes. Same escrow either way.
    let buy_no = Escrow::new(&leg(LegSide::BuyNo, 10_000), price, requester, maker);
    assert_eq!((buy_no.yes_buyer, buy_no.yes_seller), (maker, requester));
    assert_eq!(
        buy_no.yes_seller_amount,
        Amount::new(7_000),
        "requester locks (1 - p) * n"
    );
    let sell_no = Escrow::new(&leg(LegSide::SellNo, 10_000), price, requester, maker);
    assert_eq!((sell_no.yes_buyer, sell_no.yes_seller), (requester, maker));
    assert_eq!(
        sell_no.yes_buyer_amount,
        Amount::new(3_000),
        "requester locks p * n"
    );
}

#[test]
fn maker_lock_is_the_mm_side_of_escrow() {
    let requester = PartyId::new();

    // BuyYes: MM is Yes-seller, locks (1 - p) * n.
    let buy = leg(LegSide::BuyYes, 10_000);
    let q = quote(&buy, 3_000);
    assert_eq!(q.maker_lock(&buy), Amount::new(7_000));
    assert_eq!(
        q.maker_lock(&buy),
        Escrow::new(&buy, q.price, requester, q.maker).yes_seller_amount
    );

    // SellYes: MM is Yes-buyer, locks p * n.
    let sell = leg(LegSide::SellYes, 10_000);
    let q = quote(&sell, 3_000);
    assert_eq!(q.maker_lock(&sell), Amount::new(3_000));
    assert_eq!(
        q.maker_lock(&sell),
        Escrow::new(&sell, q.price, requester, q.maker).yes_buyer_amount
    );

    // BuyNo: MM sells No == buys Yes, locks p * n. SellNo: MM buys No == sells Yes.
    let buy_no = leg(LegSide::BuyNo, 10_000);
    assert_eq!(
        quote(&buy_no, 3_000).maker_lock(&buy_no),
        Amount::new(3_000)
    );
    let sell_no = leg(LegSide::SellNo, 10_000);
    assert_eq!(
        quote(&sell_no, 3_000).maker_lock(&sell_no),
        Amount::new(7_000)
    );

    // Odd notional: MM lock + requester lock still == notional.
    let odd = leg(LegSide::BuyYes, 7);
    let q = quote(&odd, 3_333);
    assert_eq!(
        q.maker_lock(&odd) + q.price.yes_buyer_lock(odd.notional),
        odd.notional
    );
}

#[test]
fn legs_and_quotes_are_found_by_id() {
    let (a, b) = (leg(LegSide::BuyYes, 1_000), leg(LegSide::SellNo, 500));
    let (qa, qb) = (quote(&a, 3_000), quote(&b, 4_000));
    let (leg_b, quote_b) = (b.id, qb.id);
    let mut r = open(vec![a, b]).unwrap();
    r.quotes = vec![qa, qb];
    assert_eq!(r.find_leg(leg_b), Some(1));
    assert_eq!(r.leg(leg_b).unwrap().notional, Amount::new(500));
    assert_eq!(r.find_quote(quote_b), Some(1));
    assert_eq!(r.quote(quote_b), Some(&qb));
    assert!(r.leg(LegId::new()).is_none() && r.quote(QuoteId::new()).is_none());

    r.quote_mut(quote_b).unwrap().state = QuoteState::Selected;
    assert_eq!(r.quotes[0].state, QuoteState::Live);
    assert_eq!(r.quotes[1].state, QuoteState::Selected);
    assert!(r.quote_mut(QuoteId::new()).is_none());
}

#[test]
fn a_copy_of_a_request_is_the_request() {
    let a = leg(LegSide::BuyYes, 1_000);
    let q = quote(&a, 3_000);
    let mut r = open(vec![a]).unwrap();
    r.package = Some(Package {
        selections: vec![Selection { leg_id: q.leg_id, quote_id: q.id }],
    });
    r.quotes.push(q);
    r.state = RequestState::Presented;
    r.accept_deadline = Some(t(70));
    assert_eq!(r.clone(), r);
}

// ---- matching --------------------------------------------------------------------------------

const NOW: i64 = 100;
const ACCEPT_DEADLINE: i64 = 200;

fn thousand(side: LegSide) -> Leg {
    leg(side, 1_000)
}

struct Q {
    leg_id: LegId,
    bps: u32,
    seq: u64,
    size: u64,
    expires_at: i64,
    submitted_at: i64,
    state: QuoteState,
}

fn q(leg: &Leg, bps: u32, seq: u64) -> Q {
    Q {
        leg_id: leg.id,
        bps,
        seq,
        size: 1_000,
        expires_at: 300,
        submitted_at: seq as i64,
        state: QuoteState::Live,
    }
}

fn build(q: Q) -> Quote {
    Quote {
        id: QuoteId::new(),
        leg_id: q.leg_id,
        maker: PartyId::new(),
        price: Price::new(q.bps).unwrap(),
        size: Amount::new(q.size),
        expires_at: t(q.expires_at),
        submitted_at: t(q.submitted_at),
        seq: SeqNo::new(q.seq),
        state: q.state,
    }
}

fn run(leg: &Leg, qs: Vec<Q>) -> (Vec<Quote>, Option<QuoteId>) {
    let quotes: Vec<Quote> = qs.into_iter().map(build).collect();
    let best = select_best(leg, &quotes, t(NOW), t(ACCEPT_DEADLINE));
    (quotes, best)
}

#[test]
fn empty_has_no_best() {
    let leg = thousand(LegSide::BuyYes);
    assert_eq!(select_best(&leg, &[], t(NOW), t(ACCEPT_DEADLINE)), None);
}

#[test]
fn all_expired_has_no_best() {
    let leg = thousand(LegSide::BuyYes);
    let (_, best) = run(
        &leg,
        vec![
            Q { expires_at: 50, ..q(&leg, 4_000, 1) },
            Q { expires_at: NOW, ..q(&leg, 3_000, 2) }, // expires_at == now is expired
        ],
    );
    assert_eq!(best, None);
}

#[test]
fn expiring_inside_accept_window_is_ineligible() {
    let leg = thousand(LegSide::BuyYes);
    let (quotes, best) = run(
        &leg,
        vec![
            Q { expires_at: ACCEPT_DEADLINE - 1, ..q(&leg, 1_000, 1) }, // cheapest but too short
            Q { expires_at: ACCEPT_DEADLINE, ..q(&leg, 2_000, 2) },     // exactly at deadline: ok
        ],
    );
    assert_eq!(best, Some(quotes[1].id));
}

#[test]
fn size_too_small_is_ineligible() {
    let leg = thousand(LegSide::BuyYes);
    let (quotes, best) = run(
        &leg,
        vec![
            Q { size: 999, ..q(&leg, 1_000, 1) }, // cheapest but undersized
            Q { size: 1_000, ..q(&leg, 5_000, 2) },
        ],
    );
    assert_eq!(best, Some(quotes[1].id));

    let (_, best) = run(&leg, vec![Q { size: 1, ..q(&leg, 1_000, 1) }]);
    assert_eq!(best, None);
}

#[test]
fn long_yes_sides_take_lowest_yes_price() {
    for side in [LegSide::BuyYes, LegSide::SellNo] {
        let leg = thousand(side);
        let (quotes, best) = run(
            &leg,
            vec![q(&leg, 4_000, 1), q(&leg, 2_500, 2), q(&leg, 3_000, 3)],
        );
        assert_eq!(best, Some(quotes[1].id), "side {side:?}");
    }
}

#[test]
fn short_yes_sides_take_highest_yes_price() {
    for side in [LegSide::SellYes, LegSide::BuyNo] {
        let leg = thousand(side);
        let (quotes, best) = run(
            &leg,
            vec![q(&leg, 4_000, 1), q(&leg, 2_500, 2), q(&leg, 3_000, 3)],
        );
        assert_eq!(best, Some(quotes[0].id), "side {side:?}");
    }
}

#[test]
fn price_tie_breaks_on_lowest_seq_not_submitted_at() {
    for side in LegSide::all() {
        let leg = thousand(side);
        // seq 2 has the *earlier* submitted_at timestamp; seq 1 must still win.
        let (quotes, best) = run(
            &leg,
            vec![
                Q { submitted_at: 90, ..q(&leg, 3_000, 2) },
                Q { submitted_at: 95, ..q(&leg, 3_000, 1) },
            ],
        );
        assert_eq!(best, Some(quotes[1].id), "side {side:?}");
    }
}

#[test]
fn non_live_quotes_are_ineligible() {
    let leg = thousand(LegSide::BuyYes);
    let (quotes, best) = run(
        &leg,
        vec![
            Q { state: QuoteState::Released, ..q(&leg, 1_000, 1) },
            Q { state: QuoteState::Selected, ..q(&leg, 1_500, 2) },
            Q { state: QuoteState::Locked, ..q(&leg, 2_000, 3) },
            q(&leg, 4_000, 4),
        ],
    );
    assert_eq!(best, Some(quotes[3].id));
}

#[test]
fn quotes_on_other_legs_are_ignored() {
    let leg = thousand(LegSide::BuyYes);
    let other = thousand(LegSide::BuyYes);
    let (_, best) = run(&leg, vec![q(&other, 1_000, 1)]);
    assert_eq!(best, None);
}

#[test]
fn the_best_quote_is_given_by_its_place() {
    let leg = thousand(LegSide::SellYes);
    let quotes: Vec<Quote> = vec![build(q(&leg, 4_000, 1)), build(q(&leg, 4_001, 2))];
    assert_eq!(best_quote(&leg, &quotes, t(NOW), t(ACCEPT_DEADLINE)), Some(1));
    assert_eq!(best_quote(&leg, &[], t(NOW), t(ACCEPT_DEADLINE)), None);
}
