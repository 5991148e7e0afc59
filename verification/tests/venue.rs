//! Requests through their whole life: each failure mode, each race, each way out. Time is driven
//! by hand.
use rfq_engine::api::error::engine_error_response;
use rfq_engine::domain::ids::{ContractDescription, ContractId, LegId, PartyId, QuoteId, RequestId};
use rfq_engine::domain::money::{Amount, Price};
use rfq_engine::domain::request::{Leg, Quote, RfqRequest};
use rfq_engine::domain::state::{
    FailReason, LegSide, OracleOutcome, QuoteState, RequestState, Tenor,
};
use rfq_engine::engine::command::{Command, Reply};
use rfq_engine::engine::error::EngineError;
use rfq_engine::engine::model::EngineConfig;
use rfq_engine::engine::venue::Engine;
use rfq_engine::ledger::{Ledger, LedgerAccount};
use rfq_engine::mock::clock::MockClock;
use rfq_engine::mock::ledger::MockLedger;
use rfq_engine::ports::Clock;
use rfq_engine::time::{Span, Timestamp, MAX_SECS};

const T0: i64 = 1_756_728_000;
const ACCEPT_WINDOW_SECS: i64 = 60;
const DISPUTE_WINDOW_SECS: i64 = 60;
const UNWIND_TIMEOUT_SECS: i64 = 86_400;
const TENOR_SECS: i64 = 300;

/// Notional per leg in [`ThreeLeg`].
const LEG_NOTIONAL: u64 = 1_000;
/// Yes price every maker quotes at in [`ThreeLeg`].
const LEG_PRICE_BPS: u32 = 5_000;
/// Each side of each leg at that price.
const SIDE_LOCK: u64 = 500;
const RESPONSE_DEADLINE_SECS: i64 = 30;
const ACCEPT_DEADLINE_SECS: i64 = RESPONSE_DEADLINE_SECS + ACCEPT_WINDOW_SECS;
const QUOTE_EXPIRY_SECS: i64 = 600;

const M1_PRICE: u32 = 5_000;
const M2_PRICE: u32 = 6_000;
const M2_LOCK: u64 = 400;

fn bal(free: u64, reserved: u64, escrowed: u64) -> LedgerAccount {
    LedgerAccount {
        free: Amount::new(free),
        reserved: Amount::new(reserved),
        escrowed: Amount::new(escrowed),
    }
}

fn leg(side: LegSide, notional: u64) -> Leg {
    Leg::new(
        ContractId::new("C").unwrap(),
        ContractDescription::new("Settles Yes if the index closes above 100.00.").unwrap(),
        side,
        Amount::new(notional),
    )
    .unwrap()
}

fn status(e: EngineError) -> u16 {
    engine_error_response(e).status
}

fn code(e: EngineError) -> &'static str {
    engine_error_response(e).body.code
}

struct Venue {
    engine: Engine<MockLedger>,
    clock: MockClock,
    requests: Vec<RequestId>,
}

impl Venue {
    fn new() -> Venue {
        Venue::with_config(EngineConfig {
            accept_window: Span::seconds(ACCEPT_WINDOW_SECS),
            ..EngineConfig::default()
        })
    }

    fn with_config(config: EngineConfig) -> Venue {
        Venue {
            engine: Engine::new(MockLedger::new(), config),
            clock: MockClock::new(Timestamp::new(T0, 0).unwrap()),
            requests: Vec::new(),
        }
    }

    fn at(&self, secs: i64) -> Timestamp {
        Timestamp::new(T0 + secs, 0).unwrap()
    }

    fn set(&mut self, now: Timestamp) {
        self.clock.set(now);
    }

    fn ask(&mut self, cmd: Command) -> Reply {
        self.engine.handle(&self.clock, cmd).unwrap()
    }

    fn tick_at(&mut self, now: Timestamp) {
        assert_eq!(self.ask(Command::Tick { now }), Reply::Ticked);
    }

    fn tick(&mut self) {
        let now = self.clock.now();
        self.tick_at(now);
    }

    fn advance_to(&mut self, secs: i64) {
        let now = self.at(secs);
        self.set(now);
        self.tick();
    }

    fn request_reply(&mut self, cmd: Command) -> Result<RfqRequest, EngineError> {
        match self.ask(cmd) {
            Reply::Request(answer) => answer,
            other => panic!("unexpected {other:?}"),
        }
    }

    fn fund(&mut self, party: PartyId, amount: u64) {
        let before = self.balances(party);
        let amount = Amount::new(amount);
        match self.ask(Command::Credit { party, amount }) {
            Reply::Account(account) => assert_eq!(account.free, before.free + amount),
            other => panic!("unexpected {other:?}"),
        }
    }

    fn balances(&mut self, party: PartyId) -> LedgerAccount {
        match self.ask(Command::Balance { party }) {
            Reply::Account(account) => account,
            other => panic!("unexpected {other:?}"),
        }
    }

    fn open_request(
        &mut self,
        requester: PartyId,
        legs: Vec<Leg>,
        response_deadline: Timestamp,
    ) -> Result<RfqRequest, EngineError> {
        let answer = self.request_reply(Command::SubmitRequest {
            requester,
            legs,
            tenor: Tenor::FiveMinutes,
            response_deadline,
        });
        if let Ok(request) = &answer {
            self.requests.push(request.id);
        }
        answer
    }

    fn quote(
        &mut self,
        maker: PartyId,
        request_id: RequestId,
        leg_id: LegId,
        price_bps: u32,
        size: u64,
        expires_at: Timestamp,
    ) -> Result<Quote, EngineError> {
        let cmd = Command::SubmitQuote {
            maker,
            request_id,
            leg_id,
            price: Price::new(price_bps).unwrap(),
            size: Amount::new(size),
            expires_at,
        };
        match self.ask(cmd) {
            Reply::Quote(answer) => answer,
            other => panic!("unexpected {other:?}"),
        }
    }

    fn quote_ok(
        &mut self,
        maker: PartyId,
        request_id: RequestId,
        leg_id: LegId,
        price_bps: u32,
        size: u64,
        expires_at: Timestamp,
    ) -> QuoteId {
        let quote = self
            .quote(maker, request_id, leg_id, price_bps, size, expires_at)
            .unwrap();
        assert_eq!(quote.state, QuoteState::Live);
        quote.id
    }

    fn cancel_quote(&mut self, maker: PartyId, quote_id: QuoteId) -> Result<(), EngineError> {
        match self.ask(Command::CancelQuote { maker, quote_id }) {
            Reply::Cancelled(answer) => answer,
            other => panic!("unexpected {other:?}"),
        }
    }

    fn accept(
        &mut self,
        requester: PartyId,
        request_id: RequestId,
    ) -> Result<RfqRequest, EngineError> {
        self.request_reply(Command::Accept {
            requester,
            request_id,
        })
    }

    fn reject(
        &mut self,
        requester: PartyId,
        request_id: RequestId,
    ) -> Result<RfqRequest, EngineError> {
        self.request_reply(Command::Reject {
            requester,
            request_id,
        })
    }

    fn resolve(
        &mut self,
        request_id: RequestId,
        outcome: OracleOutcome,
    ) -> Result<RfqRequest, EngineError> {
        self.request_reply(Command::Resolve {
            request_id,
            outcome,
        })
    }

    fn dispute(
        &mut self,
        party: PartyId,
        request_id: RequestId,
    ) -> Result<RfqRequest, EngineError> {
        self.request_reply(Command::Dispute { party, request_id })
    }

    fn get_request(&mut self, request_id: RequestId) -> Result<RfqRequest, EngineError> {
        self.request_reply(Command::GetRequest { request_id })
    }

    fn snapshot(&mut self, request_id: RequestId) -> RfqRequest {
        self.get_request(request_id).unwrap()
    }

    /// A report, and the dispute window let pass.
    fn resolve_final(&mut self, request_id: RequestId, outcome: OracleOutcome) {
        let reported = self.resolve(request_id, outcome).unwrap();
        assert_eq!(reported.state, RequestState::Reported);
        let past = reported
            .dispute_deadline
            .unwrap()
            .checked_add(Span::seconds(1))
            .unwrap();
        self.set(past);
        self.tick();
        assert_eq!(self.snapshot(request_id).state, RequestState::Settled);
    }

    fn lock_batch_calls(&self) -> usize {
        self.engine.ledger().lock_batch_calls()
    }

    /// Every party holds what it was credited, less what it paid, plus what it received, and the
    /// venue's escrow is the notionals of the requests that are locked.
    fn assert_conserved(&mut self) {
        assert!(self.engine.ledger().conservation_holds());
        for a in self.engine.ledger().audit() {
            let expected = i128::from(a.credited.minor_units())
                - i128::from(a.paid_to_others.minor_units())
                + i128::from(a.received_from_others.minor_units());
            assert_eq!(
                i128::from(a.account.total().minor_units()),
                expected,
                "{a:?}"
            );
        }
        let mut expected_escrow: u64 = 0;
        for id in self.requests.clone() {
            let r = self.snapshot(id);
            if matches!(
                r.state,
                RequestState::Locked | RequestState::Reported | RequestState::Disputed
            ) {
                for e in &r.escrows {
                    expected_escrow += e.notional.minor_units();
                }
            }
        }
        assert_eq!(
            self.engine.ledger().escrowed_total().minor_units(),
            expected_escrow,
            "venue escrow must equal the notionals of locked requests"
        );
    }
}

fn quote_state(request: &RfqRequest, quote_id: QuoteId) -> QuoteState {
    request.quote(quote_id).unwrap().state
}

fn assert_quote_states(request: &RfqRequest, expected: &[(QuoteId, QuoteState)]) {
    for (quote_id, state) in expected {
        assert_eq!(quote_state(request, *quote_id), *state, "{quote_id:?}");
    }
}

fn selections(request: &RfqRequest) -> Vec<QuoteId> {
    request
        .package
        .as_ref()
        .unwrap()
        .selections
        .iter()
        .map(|s| s.quote_id)
        .collect()
}

/// Requester R with three `BuyYes` legs; makers M1..M3 each funded to cover exactly one leg.
struct ThreeLeg {
    requester: PartyId,
    makers: [PartyId; 3],
    request_id: RequestId,
    leg_ids: [LegId; 3],
}

fn three_leg_scenario(v: &mut Venue) -> ThreeLeg {
    three_leg_scenario_with_requester_funds(v, 3 * SIDE_LOCK)
}

fn three_leg_scenario_with_requester_funds(v: &mut Venue, requester_funds: u64) -> ThreeLeg {
    let requester = PartyId::new();
    let makers = [PartyId::new(), PartyId::new(), PartyId::new()];
    v.fund(requester, requester_funds);
    for m in makers {
        v.fund(m, SIDE_LOCK);
    }
    let legs = vec![
        leg(LegSide::BuyYes, LEG_NOTIONAL),
        leg(LegSide::BuyYes, LEG_NOTIONAL),
        leg(LegSide::BuyYes, LEG_NOTIONAL),
    ];
    let deadline = v.at(RESPONSE_DEADLINE_SECS);
    let created = v.open_request(requester, legs, deadline).unwrap();
    ThreeLeg {
        requester,
        makers,
        request_id: created.id,
        leg_ids: [created.legs[0].id, created.legs[1].id, created.legs[2].id],
    }
}

fn quote_leg(v: &mut Venue, s: &ThreeLeg, i: usize) -> QuoteId {
    let expires_at = v.at(QUOTE_EXPIRY_SECS);
    v.quote_ok(
        s.makers[i],
        s.request_id,
        s.leg_ids[i],
        LEG_PRICE_BPS,
        LEG_NOTIONAL,
        expires_at,
    )
}

fn quote_all_legs(v: &mut Venue, s: &ThreeLeg) -> [QuoteId; 3] {
    [
        quote_leg(v, s, 0),
        quote_leg(v, s, 1),
        quote_leg(v, s, 2),
    ]
}

fn escrowed_three(v: &mut Venue, s: &ThreeLeg) {
    assert_eq!(v.balances(s.requester), bal(0, 0, 3 * SIDE_LOCK));
    for m in s.makers {
        assert_eq!(v.balances(m), bal(0, 0, SIDE_LOCK));
    }
}

fn released_three(v: &mut Venue, s: &ThreeLeg) {
    assert_eq!(v.balances(s.requester), bal(3 * SIDE_LOCK, 0, 0));
    for m in s.makers {
        assert_eq!(v.balances(m), bal(SIDE_LOCK, 0, 0));
    }
}

fn locked_three(v: &mut Venue) -> ThreeLeg {
    let s = three_leg_scenario(v);
    quote_all_legs(v, &s);
    v.advance_to(RESPONSE_DEADLINE_SECS);
    assert!(v.accept(s.requester, s.request_id).is_ok());
    s
}

/// Three legs, locked, then the oracle reports Yes; the instant of the report.
fn reported_yes(v: &mut Venue) -> (ThreeLeg, i64) {
    let s = locked_three(v);
    let reported_at = RESPONSE_DEADLINE_SECS + 1;
    let now = v.at(reported_at);
    v.set(now);
    let reported = v.resolve(s.request_id, OracleOutcome::Yes).unwrap();
    assert_eq!(reported.state, RequestState::Reported);
    (s, reported_at)
}

/// R funded 600, M1 and M2 funded 500. M1 quotes at 50% (locks 500), M2 at 60% (locks 400).
/// R's lock is 500 if M1 wins, 600 if M2 wins.
struct OneLeg {
    requester: PartyId,
    m1: PartyId,
    m2: PartyId,
    request_id: RequestId,
    leg_id: LegId,
}

fn one_leg(v: &mut Venue) -> OneLeg {
    let (requester, m1, m2) = (PartyId::new(), PartyId::new(), PartyId::new());
    v.fund(requester, 600);
    v.fund(m1, SIDE_LOCK);
    v.fund(m2, SIDE_LOCK);
    let deadline = v.at(RESPONSE_DEADLINE_SECS);
    let created = v
        .open_request(requester, vec![leg(LegSide::BuyYes, LEG_NOTIONAL)], deadline)
        .unwrap();
    OneLeg {
        requester,
        m1,
        m2,
        request_id: created.id,
        leg_id: created.legs[0].id,
    }
}

impl OneLeg {
    fn quote_m1(&self, v: &mut Venue, expires_secs: i64) -> QuoteId {
        let expires_at = v.at(expires_secs);
        v.quote_ok(
            self.m1,
            self.request_id,
            self.leg_id,
            M1_PRICE,
            LEG_NOTIONAL,
            expires_at,
        )
    }

    fn quote_m2(&self, v: &mut Venue, expires_secs: i64) -> QuoteId {
        let expires_at = v.at(expires_secs);
        v.quote_ok(
            self.m2,
            self.request_id,
            self.leg_id,
            M2_PRICE,
            LEG_NOTIONAL,
            expires_at,
        )
    }
}

// ---- open ------------------------------------------------------------------------------------

#[test]
fn open_fm_unknown_ids_are_404() {
    let mut v = Venue::new();
    let s = one_leg(&mut v);
    let ghost = RequestId::new();
    let later = v.at(QUOTE_EXPIRY_SECS);
    assert_eq!(v.get_request(ghost), Err(EngineError::NotFound));
    assert_eq!(v.accept(s.requester, ghost), Err(EngineError::NotFound));
    assert_eq!(
        v.quote(s.m1, ghost, s.leg_id, M1_PRICE, LEG_NOTIONAL, later),
        Err(EngineError::NotFound)
    );
    assert_eq!(
        v.quote(s.m1, s.request_id, LegId::new(), M1_PRICE, LEG_NOTIONAL, later),
        Err(EngineError::NotFound),
        "unknown leg"
    );
    assert_eq!(
        v.cancel_quote(s.m1, QuoteId::new()),
        Err(EngineError::NotFound)
    );
    assert_eq!(
        v.resolve(ghost, OracleOutcome::Yes),
        Err(EngineError::NotFound)
    );
    assert_eq!(v.dispute(s.requester, ghost), Err(EngineError::NotFound));
    assert_eq!(v.reject(s.requester, ghost), Err(EngineError::NotFound));
    assert_eq!(status(EngineError::NotFound), 404);
    assert_eq!(v.balances(s.m1), bal(SIDE_LOCK, 0, 0));
    v.assert_conserved();
}

#[test]
fn open_fm_response_deadline_in_past_rejected() {
    let mut v = Venue::new();
    let requester = PartyId::new();
    for (deadline, label) in [(v.at(-1), "past"), (v.at(0), "now")] {
        let answer = v.open_request(requester, vec![leg(LegSide::BuyYes, LEG_NOTIONAL)], deadline);
        assert_eq!(answer, Err(EngineError::DeadlineInPast), "{label}");
    }
    assert_eq!(status(EngineError::DeadlineInPast), 400);
    assert_eq!(code(EngineError::DeadlineInPast), "deadline_in_past");
    v.assert_conserved();
}

#[test]
fn fm_response_deadline_beyond_horizon_rejected() {
    let mut v = Venue::new();
    let requester = PartyId::new();
    let two_hundred_years_out = v.at(200 * 365 * 24 * 3_600);
    let e = v
        .open_request(
            requester,
            vec![leg(LegSide::BuyYes, LEG_NOTIONAL)],
            two_hundred_years_out,
        )
        .unwrap_err();
    assert_eq!(status(e), 400, "a deadline centuries out must be rejected");
    assert_eq!(code(e), "deadline_beyond_horizon");
    v.assert_conserved();
}

#[test]
fn fm_response_deadline_beyond_max_rejected() {
    let mut v = Venue::new();
    let requester = PartyId::new();
    let far_future = v.at(10 * 365 * 24 * 3_600);
    let e = v
        .open_request(requester, vec![leg(LegSide::BuyYes, LEG_NOTIONAL)], far_future)
        .unwrap_err();
    assert_eq!(status(e), 400, "a deadline years out must be rejected");
    v.assert_conserved();
}

#[test]
fn fm_far_future_deadline_cannot_kill_engine() {
    let mut v = Venue::new();
    let (requester, maker) = (PartyId::new(), PartyId::new());
    v.fund(requester, SIDE_LOCK);
    v.fund(maker, SIDE_LOCK);

    // Less headroom below the end of the calendar than one accept window.
    let near_max = Timestamp::new(MAX_SECS - 10, 999_999_999).unwrap();
    let e = v
        .open_request(requester, vec![leg(LegSide::BuyYes, LEG_NOTIONAL)], near_max)
        .unwrap_err();
    assert_eq!((status(e), code(e)), (400, "deadline_beyond_horizon"));

    // Venue still answers: an unrelated party can credit and open a request.
    let bystander = PartyId::new();
    v.fund(bystander, SIDE_LOCK);
    let deadline = v.at(RESPONSE_DEADLINE_SECS);
    assert!(v
        .open_request(bystander, vec![leg(LegSide::BuyYes, LEG_NOTIONAL)], deadline)
        .is_ok());
    assert_eq!(v.balances(requester), bal(SIDE_LOCK, 0, 0), "nothing reserved");
    assert_eq!(v.balances(maker), bal(SIDE_LOCK, 0, 0));
    assert_eq!(v.balances(bystander), bal(SIDE_LOCK, 0, 0));
    v.assert_conserved();
}

#[test]
fn the_horizon_itself_is_a_deadline() {
    let mut v = Venue::new();
    let requester = PartyId::new();
    let horizon = v.at(31_536_000);
    assert!(v
        .open_request(requester, vec![leg(LegSide::BuyYes, LEG_NOTIONAL)], horizon)
        .is_ok());
    let beyond = v.at(31_536_001);
    assert_eq!(
        v.open_request(requester, vec![leg(LegSide::BuyYes, LEG_NOTIONAL)], beyond),
        Err(EngineError::DeadlineBeyondHorizon)
    );
    let deadline = v.at(30);
    assert_eq!(
        v.open_request(requester, vec![], deadline),
        Err(EngineError::EmptyLegs)
    );
}

#[test]
fn open_fm_maker_insufficient_funds_at_quote_is_402() {
    let mut v = Venue::new();
    let s = one_leg(&mut v);
    let poor = PartyId::new();
    v.fund(poor, SIDE_LOCK - 1);
    let later = v.at(QUOTE_EXPIRY_SECS);
    let e = v
        .quote(poor, s.request_id, s.leg_id, M1_PRICE, LEG_NOTIONAL, later)
        .unwrap_err();
    assert_eq!((status(e), code(e)), (402, "insufficient_funds"));
    assert_eq!(
        e,
        EngineError::InsufficientFunds {
            party: poor,
            needed: Amount::new(SIDE_LOCK),
            available: Amount::new(SIDE_LOCK - 1)
        }
    );
    assert!(v.snapshot(s.request_id).quotes.is_empty());
    assert_eq!(v.balances(poor), bal(SIDE_LOCK - 1, 0, 0));
    v.assert_conserved();
}

#[test]
fn open_fm_quote_too_small_rejected() {
    let mut v = Venue::new();
    let s = three_leg_scenario(&mut v);
    let later = v.at(QUOTE_EXPIRY_SECS);
    let e = v
        .quote(
            s.makers[0],
            s.request_id,
            s.leg_ids[0],
            LEG_PRICE_BPS,
            LEG_NOTIONAL - 1,
            later,
        )
        .unwrap_err();
    assert_eq!((status(e), code(e)), (400, "quote_too_small"));
    assert_eq!(v.balances(s.makers[0]), bal(SIDE_LOCK, 0, 0));
    v.assert_conserved();
}

#[test]
fn open_fm_quote_expiring_before_accept_window_rejected_at_submit() {
    let mut v = Venue::new();
    let s = three_leg_scenario(&mut v);
    let m = s.makers[0];
    let short = v.at(ACCEPT_DEADLINE_SECS - 1);
    let e = v
        .quote(m, s.request_id, s.leg_ids[0], LEG_PRICE_BPS, LEG_NOTIONAL, short)
        .unwrap_err();
    assert_eq!(
        (status(e), code(e)),
        (400, "quote_expires_before_accept_window")
    );
    let now = v.at(0);
    let e = v
        .quote(m, s.request_id, s.leg_ids[0], LEG_PRICE_BPS, LEG_NOTIONAL, now)
        .unwrap_err();
    assert_eq!((status(e), code(e)), (400, "quote_expired"));
    assert!(v.snapshot(s.request_id).quotes.is_empty());
    assert_eq!(v.balances(m), bal(SIDE_LOCK, 0, 0), "nothing reserved");
    v.assert_conserved();
}

#[test]
fn open_fm_maker_cannot_cancel_others_quote() {
    let mut v = Venue::new();
    let s = three_leg_scenario(&mut v);
    let q0 = quote_leg(&mut v, &s, 0);
    let e = v.cancel_quote(s.makers[1], q0).unwrap_err();
    assert_eq!((status(e), code(e)), (403, "not_owner"));
    assert_quote_states(&v.snapshot(s.request_id), &[(q0, QuoteState::Live)]);
    assert_eq!(v.balances(s.makers[0]), bal(0, SIDE_LOCK, 0));
    v.assert_conserved();
}

#[test]
fn open_fm_cancel_released_quote_is_409() {
    let mut v = Venue::new();
    let s = three_leg_scenario(&mut v);
    let q0 = quote_leg(&mut v, &s, 0);
    assert_eq!(v.cancel_quote(s.makers[0], q0), Ok(()));
    assert_eq!(v.balances(s.makers[0]), bal(SIDE_LOCK, 0, 0));
    let e = v.cancel_quote(s.makers[0], q0).unwrap_err();
    assert_eq!((status(e), code(e)), (409, "quote_not_live"));
    assert_eq!(
        v.balances(s.makers[0]),
        bal(SIDE_LOCK, 0, 0),
        "no double release"
    );
    v.assert_conserved();
}

/// A requester does not quote its own request.
#[test]
fn fm_self_quote_rejected() {
    let mut v = Venue::new();
    let s = one_leg(&mut v);
    let expires_at = v.at(QUOTE_EXPIRY_SECS);
    let e = v
        .quote(s.requester, s.request_id, s.leg_id, M1_PRICE, LEG_NOTIONAL, expires_at)
        .unwrap_err();
    assert_eq!(status(e), 400);
    assert!(v.snapshot(s.request_id).quotes.is_empty());
    assert_eq!(v.balances(s.requester), bal(600, 0, 0));
    v.assert_conserved();
}

/// A requester's own quote is told from other bad ones: only an open request gets that far, and
/// nothing else about the quote matters then.
#[test]
fn a_self_quote_is_refused_before_its_terms_are_read() {
    let mut v = Venue::new();
    let s = one_leg(&mut v);
    let (past, later) = (v.at(-1), v.at(QUOTE_EXPIRY_SECS));
    for (leg_id, size, expires_at) in [
        (LegId::new(), LEG_NOTIONAL, later),
        (s.leg_id, 1, later),
        (s.leg_id, LEG_NOTIONAL, past),
    ] {
        assert_eq!(
            v.quote(s.requester, s.request_id, leg_id, M1_PRICE, size, expires_at),
            Err(EngineError::SelfQuote)
        );
    }
    assert_eq!(code(EngineError::SelfQuote), "self_quote");
    v.advance_to(RESPONSE_DEADLINE_SECS);
    let late = v.quote(s.requester, s.request_id, s.leg_id, M1_PRICE, LEG_NOTIONAL, later);
    assert_eq!(
        late,
        Err(EngineError::WrongState {
            expected: RequestState::Open,
            actual: RequestState::Failed,
        })
    );
}

/// Rejecting, a late accept, an unfunded accept and a deadline without quotes cost a requester
/// nothing, even one that makes the market on somebody else's request.
#[test]
fn a_request_that_fails_costs_its_requester_nothing() {
    let mut v = Venue::new();
    let (requester, other, maker) = (PartyId::new(), PartyId::new(), PartyId::new());
    v.fund(requester, 900);
    v.fund(maker, 10_000);
    let (deadline, later) = (v.at(30), v.at(600));
    let theirs = v
        .open_request(other, vec![leg(LegSide::BuyYes, 1_000)], deadline)
        .unwrap();
    v.quote_ok(requester, theirs.id, theirs.legs[0].id, 5_000, 1_000, later);
    let mut ids: Vec<RequestId> = Vec::new();
    for i in 0..4 {
        let own = v
            .open_request(requester, vec![leg(LegSide::BuyYes, 1_000)], deadline)
            .unwrap();
        if i < 3 {
            v.quote_ok(maker, own.id, own.legs[0].id, 6_000, 1_000, later);
        }
        ids.push(own.id);
    }
    let before = bal(400, 500, 0);
    assert_eq!(v.balances(requester), before);
    v.advance_to(30);
    assert_eq!(v.snapshot(ids[3]).state, RequestState::Failed);
    assert_eq!(v.balances(requester), before, "no quotes");
    assert!(v.reject(requester, ids[0]).is_ok());
    assert_eq!(v.balances(requester), before, "rejected");
    assert_eq!(status(v.accept(requester, ids[1]).unwrap_err()), 402);
    assert_eq!(v.balances(requester), before, "not funded");
    let late = v.at(91);
    v.set(late);
    assert_eq!(status(v.accept(requester, ids[2]).unwrap_err()), 409);
    assert_eq!(v.balances(requester), before, "too late");
    assert_eq!(v.balances(maker), bal(10_000, 0, 0));
}

#[test]
fn quotes_are_numbered_in_order() {
    let mut v = Venue::new();
    let s = three_leg_scenario(&mut v);
    let quotes = quote_all_legs(&mut v, &s);
    let request = v.snapshot(s.request_id);
    assert_eq!(request.quotes.len(), 3);
    for i in 0..2 {
        assert_eq!(request.quotes[i].id, quotes[i]);
        assert!(request.quotes[i].seq < request.quotes[i + 1].seq);
    }
    assert_eq!(v.engine.next_seq(), request.quotes[2].seq.next());
}

// ---- presented -------------------------------------------------------------------------------

#[test]
fn presented_fm_leg_unmatched_at_deadline_releases_all() {
    let mut v = Venue::new();
    let s = three_leg_scenario(&mut v);
    let q0 = quote_leg(&mut v, &s, 0);
    let q2 = quote_leg(&mut v, &s, 2);
    assert_eq!(v.balances(s.makers[0]), bal(0, SIDE_LOCK, 0));
    assert_eq!(v.balances(s.makers[2]), bal(0, SIDE_LOCK, 0));

    v.advance_to(RESPONSE_DEADLINE_SECS);
    let failed = v.snapshot(s.request_id);
    assert_eq!(failed.state, RequestState::Failed);
    assert_eq!(
        failed.fail_reason,
        Some(FailReason::LegUnmatched(s.leg_ids[1]))
    );
    assert!(
        failed.package.is_none(),
        "requester never sees a partial package"
    );
    assert!(failed.escrows.is_empty());
    assert_quote_states(
        &failed,
        &[(q0, QuoteState::Released), (q2, QuoteState::Released)],
    );
    released_three(&mut v, &s);
    assert_eq!(
        v.lock_batch_calls(),
        0,
        "lock_batch is never called on a failed match"
    );
    v.assert_conserved();
}

#[test]
fn presented_fm_quote_expiring_before_accept_deadline_is_ineligible() {
    let mut v = Venue::new();
    let s = one_leg(&mut v);
    // M1 is the better price but expires at the earliest instant the submit guard allows.
    let q1 = s.quote_m1(&mut v, ACCEPT_DEADLINE_SECS);
    let q2 = s.quote_m2(&mut v, QUOTE_EXPIRY_SECS);

    // The tick is one second late, so the accept window now ends after M1 expires.
    v.advance_to(RESPONSE_DEADLINE_SECS + 1);
    let presented = v.snapshot(s.request_id);
    assert_eq!(presented.state, RequestState::Presented);
    assert_eq!(
        presented.accept_deadline,
        Some(v.at(ACCEPT_DEADLINE_SECS + 1))
    );
    assert_eq!(
        selections(&presented),
        vec![q2],
        "worse but longer-lived quote wins"
    );
    assert_quote_states(
        &presented,
        &[(q1, QuoteState::Live), (q2, QuoteState::Selected)],
    );

    let locked = v.accept(s.requester, s.request_id).unwrap();
    assert_quote_states(
        &locked,
        &[(q1, QuoteState::Released), (q2, QuoteState::Locked)],
    );
    assert_eq!(v.balances(s.requester), bal(0, 0, 600));
    assert_eq!(v.balances(s.m1), bal(SIDE_LOCK, 0, 0));
    assert_eq!(v.balances(s.m2), bal(SIDE_LOCK - M2_LOCK, 0, M2_LOCK));
    v.assert_conserved();
}

#[test]
fn presented_fm_expired_quote_not_selected_and_released() {
    let mut v = Venue::new();
    let s = one_leg(&mut v);
    let q1 = s.quote_m1(&mut v, ACCEPT_DEADLINE_SECS);
    let q2 = s.quote_m2(&mut v, QUOTE_EXPIRY_SECS);

    // The tick is very late: M1's quote has expired outright.
    v.advance_to(ACCEPT_DEADLINE_SECS + 5);
    let presented = v.snapshot(s.request_id);
    assert_eq!(presented.state, RequestState::Presented);
    assert_eq!(selections(&presented), vec![q2]);
    assert_quote_states(
        &presented,
        &[(q1, QuoteState::Released), (q2, QuoteState::Selected)],
    );
    assert_eq!(v.balances(s.m1), bal(SIDE_LOCK, 0, 0));
    assert_eq!(v.balances(s.m2), bal(SIDE_LOCK - M2_LOCK, M2_LOCK, 0));
    v.assert_conserved();
}

#[test]
fn presented_fm_tie_breaks_on_seq() {
    let mut v = Venue::new();
    let s = one_leg(&mut v);
    // Same price, same frozen clock instant; M2 submits second.
    let q1 = s.quote_m1(&mut v, QUOTE_EXPIRY_SECS);
    let later = v.at(QUOTE_EXPIRY_SECS);
    let q2 = v.quote_ok(s.m2, s.request_id, s.leg_id, M1_PRICE, LEG_NOTIONAL, later);

    v.advance_to(RESPONSE_DEADLINE_SECS);
    let presented = v.snapshot(s.request_id);
    assert_eq!(
        presented.quotes[0].submitted_at, presented.quotes[1].submitted_at,
        "timestamps tie"
    );
    assert_eq!(selections(&presented), vec![q1], "lower seq wins");
    assert_quote_states(
        &presented,
        &[(q1, QuoteState::Selected), (q2, QuoteState::Live)],
    );
    v.assert_conserved();
}

#[test]
fn fm_accept_window_capped_at_resolution() {
    let mut v = Venue::new();
    let s = three_leg_scenario(&mut v);
    let quotes = quote_all_legs(&mut v, &s);
    let resolves_at = v.at(RESPONSE_DEADLINE_SECS + TENOR_SECS);
    assert_eq!(v.snapshot(s.request_id).resolves_at, resolves_at);

    // The tick comes one second after the contracts resolved.
    v.advance_to(RESPONSE_DEADLINE_SECS + TENOR_SECS + 1);
    let presented = v.snapshot(s.request_id);
    assert_eq!(presented.state, RequestState::Presented);
    assert_eq!(
        presented.accept_deadline,
        Some(resolves_at),
        "window ends at resolves_at, not now + accept_window"
    );

    let e = v.accept(s.requester, s.request_id).unwrap_err();
    assert_eq!(status(e), 409);
    let failed = v.snapshot(s.request_id);
    assert_eq!(failed.state, RequestState::Failed);
    assert_eq!(failed.fail_reason, Some(FailReason::AcceptWindowExpired));
    for q in quotes {
        assert_quote_states(&failed, &[(q, QuoteState::Released)]);
    }
    released_three(&mut v, &s);
    assert_eq!(v.lock_batch_calls(), 0);
    v.assert_conserved();
}

#[test]
fn presented_fm_cancel_and_tick_race() {
    for cancel_first in [true, false] {
        let mut v = Venue::new();
        let s = one_leg(&mut v);
        let q1 = s.quote_m1(&mut v, QUOTE_EXPIRY_SECS);
        let q2 = s.quote_m2(&mut v, QUOTE_EXPIRY_SECS);
        let now = v.at(RESPONSE_DEADLINE_SECS);
        v.set(now);

        let cancelled = if cancel_first {
            let answer = v.cancel_quote(s.m1, q1);
            v.tick();
            answer
        } else {
            v.tick();
            v.cancel_quote(s.m1, q1)
        };

        let r = v.snapshot(s.request_id);
        assert_eq!(
            r.state,
            RequestState::Presented,
            "M2 keeps the leg matched either way"
        );
        if cancel_first {
            assert_eq!(cancelled, Ok(()));
            assert_quote_states(
                &r,
                &[(q1, QuoteState::Released), (q2, QuoteState::Selected)],
            );
            assert_eq!(v.balances(s.m1), bal(SIDE_LOCK, 0, 0));
        } else {
            assert_eq!(status(cancelled.unwrap_err()), 409);
            assert_quote_states(&r, &[(q1, QuoteState::Selected), (q2, QuoteState::Live)]);
            assert_eq!(v.balances(s.m1), bal(0, SIDE_LOCK, 0));
        }
        v.assert_conserved();
    }
}

#[test]
fn presented_fm_selected_quote_cannot_be_cancelled() {
    let mut v = Venue::new();
    let s = three_leg_scenario(&mut v);
    let quotes = quote_all_legs(&mut v, &s);
    v.advance_to(RESPONSE_DEADLINE_SECS);

    let e = v.cancel_quote(s.makers[0], quotes[0]).unwrap_err();
    assert_eq!((status(e), code(e)), (409, "wrong_state"));
    assert_quote_states(
        &v.snapshot(s.request_id),
        &[(quotes[0], QuoteState::Selected)],
    );
    assert_eq!(
        v.balances(s.makers[0]),
        bal(0, SIDE_LOCK, 0),
        "reservation intact"
    );
    v.assert_conserved();
}

#[test]
fn presented_fm_quote_after_presented_is_409() {
    let mut v = Venue::new();
    let s = three_leg_scenario(&mut v);
    quote_all_legs(&mut v, &s);
    v.advance_to(RESPONSE_DEADLINE_SECS);
    let late_maker = PartyId::new();
    v.fund(late_maker, SIDE_LOCK);
    let later = v.at(QUOTE_EXPIRY_SECS);
    let e = v
        .quote(
            late_maker,
            s.request_id,
            s.leg_ids[0],
            LEG_PRICE_BPS - 1,
            LEG_NOTIONAL,
            later,
        )
        .unwrap_err();
    assert_eq!((status(e), code(e)), (409, "wrong_state"));
    assert_eq!(v.snapshot(s.request_id).quotes.len(), 3);
    assert_eq!(v.balances(late_maker), bal(SIDE_LOCK, 0, 0));
    v.assert_conserved();
}

#[test]
fn presented_fm_non_owner_cannot_accept_or_reject() {
    let mut v = Venue::new();
    let s = three_leg_scenario(&mut v);
    quote_all_legs(&mut v, &s);
    v.advance_to(RESPONSE_DEADLINE_SECS);
    let stranger = PartyId::new();

    let e = v.accept(stranger, s.request_id).unwrap_err();
    assert_eq!((status(e), code(e)), (403, "not_owner"));
    let e = v.reject(stranger, s.request_id).unwrap_err();
    assert_eq!(status(e), 403);

    assert_eq!(v.snapshot(s.request_id).state, RequestState::Presented);
    for m in s.makers {
        assert_eq!(v.balances(m), bal(0, SIDE_LOCK, 0));
    }
    v.assert_conserved();
}

#[test]
fn presented_fm_requester_reject_releases_selected_and_losers() {
    let mut v = Venue::new();
    let s = one_leg(&mut v);
    let q1 = s.quote_m1(&mut v, QUOTE_EXPIRY_SECS);
    let q2 = s.quote_m2(&mut v, QUOTE_EXPIRY_SECS);
    v.advance_to(RESPONSE_DEADLINE_SECS);
    let presented = v.snapshot(s.request_id);
    assert_quote_states(
        &presented,
        &[(q1, QuoteState::Selected), (q2, QuoteState::Live)],
    );

    let failed = v.reject(s.requester, s.request_id).unwrap();
    assert_eq!(failed.state, RequestState::Failed);
    assert_eq!(failed.fail_reason, Some(FailReason::Rejected));
    assert_quote_states(
        &failed,
        &[(q1, QuoteState::Released), (q2, QuoteState::Released)],
    );
    assert_eq!(v.balances(s.requester), bal(600, 0, 0));
    assert_eq!(v.balances(s.m1), bal(SIDE_LOCK, 0, 0));
    assert_eq!(v.balances(s.m2), bal(SIDE_LOCK, 0, 0));
    v.assert_conserved();
}

#[test]
fn presented_fm_accept_window_expiry_fails_request() {
    let mut v = Venue::new();
    let s = three_leg_scenario(&mut v);
    let quotes = quote_all_legs(&mut v, &s);
    v.advance_to(RESPONSE_DEADLINE_SECS);
    assert_eq!(v.snapshot(s.request_id).state, RequestState::Presented);

    v.advance_to(ACCEPT_DEADLINE_SECS);
    assert_eq!(
        v.snapshot(s.request_id).state,
        RequestState::Presented,
        "accept is allowed at the deadline instant"
    );

    v.advance_to(ACCEPT_DEADLINE_SECS + 1);
    let failed = v.snapshot(s.request_id);
    assert_eq!(failed.state, RequestState::Failed);
    assert_eq!(failed.fail_reason, Some(FailReason::AcceptWindowExpired));
    for q in quotes {
        assert_quote_states(&failed, &[(q, QuoteState::Released)]);
    }
    for m in s.makers {
        assert_eq!(v.balances(m), bal(SIDE_LOCK, 0, 0));
    }
    let e = v.accept(s.requester, s.request_id).unwrap_err();
    assert_eq!(status(e), 409);
    v.assert_conserved();
}

#[test]
fn fm_accept_past_deadline_without_tick_fails_request() {
    // One second past the deadline, no tick delivered.
    let mut v = Venue::new();
    let s = three_leg_scenario(&mut v);
    let quotes = quote_all_legs(&mut v, &s);
    v.advance_to(RESPONSE_DEADLINE_SECS);
    assert_eq!(v.snapshot(s.request_id).state, RequestState::Presented);

    let late = v.at(ACCEPT_DEADLINE_SECS + 1);
    v.set(late);
    let e = v.accept(s.requester, s.request_id).unwrap_err();
    assert_eq!((status(e), code(e)), (409, "wrong_state"));
    let failed = v.snapshot(s.request_id);
    assert_eq!(failed.state, RequestState::Failed);
    assert_eq!(failed.fail_reason, Some(FailReason::AcceptWindowExpired));
    assert!(failed.escrows.is_empty());
    for q in quotes {
        assert_quote_states(&failed, &[(q, QuoteState::Released)]);
    }
    released_three(&mut v, &s);
    assert_eq!(v.lock_batch_calls(), 0, "no batch attempted");
    v.assert_conserved();

    // Exactly at the deadline, no tick delivered: accept is still allowed.
    let mut v = Venue::new();
    let s = three_leg_scenario(&mut v);
    let quotes = quote_all_legs(&mut v, &s);
    v.advance_to(RESPONSE_DEADLINE_SECS);
    let deadline = v.at(ACCEPT_DEADLINE_SECS);
    v.set(deadline);
    let locked = v.accept(s.requester, s.request_id).unwrap();
    assert_eq!(locked.state, RequestState::Locked);
    for q in quotes {
        assert_quote_states(&locked, &[(q, QuoteState::Locked)]);
    }
    escrowed_three(&mut v, &s);
    v.assert_conserved();
}

#[test]
fn presented_fm_accept_and_tick_race() {
    for accept_first in [true, false] {
        let mut v = Venue::new();
        let s = three_leg_scenario(&mut v);
        quote_all_legs(&mut v, &s);
        v.advance_to(RESPONSE_DEADLINE_SECS);

        // The clock is still inside the window, but the tick carries an instant past it.
        let late = v.at(ACCEPT_DEADLINE_SECS + 1);
        let accepted = if accept_first {
            let answer = v.accept(s.requester, s.request_id);
            v.tick_at(late);
            answer
        } else {
            v.tick_at(late);
            v.accept(s.requester, s.request_id)
        };

        let r = v.snapshot(s.request_id);
        if accept_first {
            assert_eq!(r.state, RequestState::Locked);
            assert!(accepted.is_ok());
            assert_eq!(r.escrows.len(), 3);
            assert_eq!(v.balances(s.requester), bal(0, 0, 3 * SIDE_LOCK));
        } else {
            assert_eq!(r.state, RequestState::Failed);
            assert_eq!(status(accepted.unwrap_err()), 409);
            assert_eq!(r.fail_reason, Some(FailReason::AcceptWindowExpired));
            assert!(r.escrows.is_empty());
            released_three(&mut v, &s);
        }
        v.assert_conserved();
    }
}

// ---- locked ----------------------------------------------------------------------------------

#[test]
fn locked_fm_requester_insufficient_funds_at_accept() {
    let mut v = Venue::new();
    let s = three_leg_scenario_with_requester_funds(&mut v, 3 * SIDE_LOCK - 1);
    let quotes = quote_all_legs(&mut v, &s);
    v.advance_to(RESPONSE_DEADLINE_SECS);

    let e = v.accept(s.requester, s.request_id).unwrap_err();
    assert_eq!((status(e), code(e)), (402, "insufficient_funds"));

    let failed = v.snapshot(s.request_id);
    assert_eq!(failed.state, RequestState::Failed);
    assert_eq!(
        failed.fail_reason,
        Some(FailReason::InsufficientRequesterFunds)
    );
    assert!(failed.escrows.is_empty());
    for q in quotes {
        assert_quote_states(&failed, &[(q, QuoteState::Released)]);
    }
    assert_eq!(
        v.balances(s.requester),
        bal(3 * SIDE_LOCK - 1, 0, 0),
        "failed batch mutated nothing"
    );
    for m in s.makers {
        assert_eq!(v.balances(m), bal(SIDE_LOCK, 0, 0));
    }
    assert_eq!(v.lock_batch_calls(), 1);
    v.assert_conserved();
}

#[test]
fn locked_fm_double_accept_is_409() {
    let mut v = Venue::new();
    let s = locked_three(&mut v);
    let e = v.accept(s.requester, s.request_id).unwrap_err();
    assert_eq!((status(e), code(e)), (409, "wrong_state"));
    assert_eq!(v.snapshot(s.request_id).state, RequestState::Locked);
    assert_eq!(
        v.balances(s.requester),
        bal(0, 0, 3 * SIDE_LOCK),
        "second accept locked nothing extra"
    );
    v.assert_conserved();
}

#[test]
fn locked_fm_accept_after_terminal_is_409() {
    let mut v = Venue::new();
    let s = locked_three(&mut v);
    v.resolve_final(s.request_id, OracleOutcome::Yes);
    let after_settle = v.balances(s.requester);

    assert_eq!(status(v.accept(s.requester, s.request_id).unwrap_err()), 409);
    assert_eq!(status(v.reject(s.requester, s.request_id).unwrap_err()), 409);
    assert_eq!(
        status(v.resolve(s.request_id, OracleOutcome::No).unwrap_err()),
        409,
        "no second payout"
    );
    assert_eq!(v.snapshot(s.request_id).state, RequestState::Settled);
    assert_eq!(v.balances(s.requester), after_settle);
    v.assert_conserved();
}

#[test]
fn locked_fm_resolve_before_locked_is_409() {
    let mut v = Venue::new();
    let s = three_leg_scenario(&mut v);
    quote_all_legs(&mut v, &s);
    assert_eq!(
        status(v.resolve(s.request_id, OracleOutcome::Yes).unwrap_err()),
        409,
        "while Open"
    );
    v.advance_to(RESPONSE_DEADLINE_SECS);
    let e = v.resolve(s.request_id, OracleOutcome::Yes).unwrap_err();
    assert_eq!((status(e), code(e)), (409, "wrong_state"), "while Presented");
    assert_eq!(v.snapshot(s.request_id).state, RequestState::Presented);
    assert_eq!(
        v.balances(s.requester),
        bal(3 * SIDE_LOCK, 0, 0),
        "no payout without escrow"
    );
    v.assert_conserved();
}

#[test]
fn locked_fm_resolve_invalid_unwinds_refunds_each_side() {
    let mut v = Venue::new();
    let s = one_leg(&mut v);
    // Only M2 quotes, at 60%: R (Yes-buyer) locks 600, M2 (Yes-seller) locks 400.
    let q2 = s.quote_m2(&mut v, QUOTE_EXPIRY_SECS);
    v.advance_to(RESPONSE_DEADLINE_SECS);
    assert!(v.accept(s.requester, s.request_id).is_ok());
    assert_eq!(v.balances(s.requester), bal(0, 0, 600));
    assert_eq!(v.balances(s.m2), bal(SIDE_LOCK - M2_LOCK, 0, M2_LOCK));

    let unwound = v.resolve(s.request_id, OracleOutcome::Invalid).unwrap();
    assert_eq!(unwound.state, RequestState::Unwound);
    assert_quote_states(&unwound, &[(q2, QuoteState::Locked)]);
    assert_eq!(v.balances(s.requester), bal(600, 0, 0)); // p·n back, not n/2
    assert_eq!(v.balances(s.m2), bal(SIDE_LOCK, 0, 0)); // n − p·n back
    assert_eq!(
        status(v.resolve(s.request_id, OracleOutcome::Yes).unwrap_err()),
        409,
        "terminal"
    );
    v.assert_conserved();
}

// ---- reported --------------------------------------------------------------------------------

#[test]
fn fm_report_does_not_pay_out() {
    let mut v = Venue::new();
    let (s, reported_at) = reported_yes(&mut v);
    let r = v.snapshot(s.request_id);
    assert_eq!(r.state, RequestState::Reported);
    assert_eq!(r.reported_outcome, Some(OracleOutcome::Yes));
    assert_eq!(
        r.dispute_deadline,
        Some(v.at(reported_at + DISPUTE_WINDOW_SECS))
    );
    assert_eq!(r.escrows.len(), 3, "escrow untouched");
    escrowed_three(&mut v, &s);
    v.assert_conserved();
}

#[test]
fn fm_unfiled_report_settles_after_window() {
    let mut v = Venue::new();
    let (s, reported_at) = reported_yes(&mut v);

    v.advance_to(reported_at + DISPUTE_WINDOW_SECS);
    assert_eq!(
        v.snapshot(s.request_id).state,
        RequestState::Reported,
        "still disputable at the deadline instant"
    );
    escrowed_three(&mut v, &s);

    v.advance_to(reported_at + DISPUTE_WINDOW_SECS + 1);
    assert_eq!(v.snapshot(s.request_id).state, RequestState::Settled);
    assert_eq!(
        v.balances(s.requester),
        bal(3 * LEG_NOTIONAL, 0, 0),
        "Yes-buyer receives n per leg, once"
    );
    for m in s.makers {
        assert_eq!(v.balances(m), bal(0, 0, 0));
    }
    assert_eq!(
        status(v.dispute(s.requester, s.request_id).unwrap_err()),
        409,
        "too late to file"
    );
    assert_eq!(v.balances(s.requester), bal(3 * LEG_NOTIONAL, 0, 0));
    v.assert_conserved();
}

#[test]
fn fm_stranger_cannot_dispute() {
    let mut v = Venue::new();
    let s = one_leg(&mut v);
    let _q1 = s.quote_m1(&mut v, QUOTE_EXPIRY_SECS); // wins
    let _q2 = s.quote_m2(&mut v, QUOTE_EXPIRY_SECS); // loses, released at accept
    v.advance_to(RESPONSE_DEADLINE_SECS);
    assert!(v.accept(s.requester, s.request_id).is_ok());
    assert!(v.resolve(s.request_id, OracleOutcome::Yes).is_ok());

    for (label, party) in [("stranger", PartyId::new()), ("losing maker", s.m2)] {
        let e = v.dispute(party, s.request_id).unwrap_err();
        assert_eq!((status(e), code(e)), (403, "not_owner"), "{label}");
    }
    assert_eq!(v.snapshot(s.request_id).state, RequestState::Reported);
    assert_eq!(v.balances(s.requester), bal(100, 0, 500));
    assert_eq!(v.balances(s.m1), bal(0, 0, SIDE_LOCK));
    assert_eq!(v.balances(s.m2), bal(SIDE_LOCK, 0, 0));
    v.assert_conserved();
}

#[test]
fn fm_dispute_only_while_reported() {
    let mut v = Venue::new();
    let s = three_leg_scenario(&mut v);
    quote_all_legs(&mut v, &s);
    assert_eq!(
        status(v.dispute(s.requester, s.request_id).unwrap_err()),
        409,
        "Open"
    );
    v.advance_to(RESPONSE_DEADLINE_SECS);
    assert_eq!(
        status(v.dispute(s.requester, s.request_id).unwrap_err()),
        409,
        "Presented"
    );
    assert!(v.accept(s.requester, s.request_id).is_ok());
    assert_eq!(
        status(v.dispute(s.requester, s.request_id).unwrap_err()),
        409,
        "Locked"
    );

    assert!(v.resolve(s.request_id, OracleOutcome::Yes).is_ok());
    assert_eq!(
        status(v.resolve(s.request_id, OracleOutcome::No).unwrap_err()),
        409,
        "a report is not overwritten"
    );
    assert_eq!(
        v.snapshot(s.request_id).reported_outcome,
        Some(OracleOutcome::Yes)
    );
    escrowed_three(&mut v, &s);
    v.assert_conserved();
}

// ---- disputed --------------------------------------------------------------------------------

fn locked_then_disputed(v: &mut Venue) -> ThreeLeg {
    let s = locked_three(v);
    let disputed = v.resolve(s.request_id, OracleOutcome::Disputed).unwrap();
    assert_eq!(disputed.state, RequestState::Disputed);
    s
}

#[test]
fn disputed_fm_disputed_then_yes_pays_out() {
    let mut v = Venue::new();
    let s = locked_then_disputed(&mut v);
    assert_eq!(
        v.balances(s.requester),
        bal(0, 0, 3 * SIDE_LOCK),
        "still held, no payout"
    );
    v.assert_conserved();

    let settled = v.resolve(s.request_id, OracleOutcome::Yes).unwrap();
    assert_eq!(settled.state, RequestState::Settled);
    assert_eq!(v.balances(s.requester), bal(3 * LEG_NOTIONAL, 0, 0));
    for m in s.makers {
        assert_eq!(v.balances(m), bal(0, 0, 0));
    }
    v.assert_conserved();
}

#[test]
fn fm_disputed_exits() {
    // (a) disputed again: still disputed, ledger untouched.
    let mut v = Venue::new();
    let s = locked_then_disputed(&mut v);
    let again = v.resolve(s.request_id, OracleOutcome::Disputed).unwrap();
    assert_eq!(again.state, RequestState::Disputed);
    escrowed_three(&mut v, &s);
    v.assert_conserved();

    // (b) no: each leg's Yes-seller (the maker) receives both chunks, n in total.
    let mut v = Venue::new();
    let s = locked_then_disputed(&mut v);
    let settled = v.resolve(s.request_id, OracleOutcome::No).unwrap();
    assert_eq!(settled.state, RequestState::Settled);
    assert_eq!(
        v.balances(s.requester),
        bal(0, 0, 0),
        "Yes-buyer loses its p·n on every leg"
    );
    for m in s.makers {
        assert_eq!(
            v.balances(m),
            bal(LEG_NOTIONAL, 0, 0),
            "Yes-seller receives n"
        );
    }
    v.assert_conserved();

    // (c) invalid: each poster gets its own chunk back; nobody profits; terminal.
    let mut v = Venue::new();
    let s = locked_then_disputed(&mut v);
    let unwound = v.resolve(s.request_id, OracleOutcome::Invalid).unwrap();
    assert_eq!(unwound.state, RequestState::Unwound);
    released_three(&mut v, &s);
    assert_eq!(
        status(v.resolve(s.request_id, OracleOutcome::Yes).unwrap_err()),
        409,
        "terminal"
    );
    v.assert_conserved();
}

#[test]
fn fm_party_dispute_holds_escrow() {
    for filer in ["requester", "maker"] {
        let mut v = Venue::new();
        let (s, reported_at) = reported_yes(&mut v);
        let party = if filer == "requester" {
            s.requester
        } else {
            s.makers[1]
        };

        let filed_at = reported_at + 10;
        let now = v.at(filed_at);
        v.set(now);
        let disputed = v.dispute(party, s.request_id).unwrap();
        assert_eq!(disputed.state, RequestState::Disputed, "{filer}");
        assert_eq!(
            disputed.unwind_deadline,
            Some(v.at(filed_at + UNWIND_TIMEOUT_SECS)),
            "{filer}"
        );
        escrowed_three(&mut v, &s);

        // The report's window passing changes nothing once disputed.
        v.advance_to(reported_at + DISPUTE_WINDOW_SECS + 1);
        assert_eq!(
            v.snapshot(s.request_id).state,
            RequestState::Disputed,
            "{filer}"
        );
        escrowed_three(&mut v, &s);

        // Filing twice is a 409, not a second hold.
        assert_eq!(
            status(v.dispute(party, s.request_id).unwrap_err()),
            409,
            "{filer}"
        );
        v.assert_conserved();
    }
}

#[test]
fn fm_adjudication_settles_or_unwinds_once() {
    // no: reverses the reported yes, makers (Yes-sellers) receive n each.
    let mut v = Venue::new();
    let (s, _) = reported_yes(&mut v);
    assert!(v.dispute(s.requester, s.request_id).is_ok());
    let settled = v.resolve(s.request_id, OracleOutcome::No).unwrap();
    assert_eq!(settled.state, RequestState::Settled);
    assert_eq!(v.balances(s.requester), bal(0, 0, 0));
    for m in s.makers {
        assert_eq!(v.balances(m), bal(LEG_NOTIONAL, 0, 0));
    }
    assert_eq!(
        status(v.resolve(s.request_id, OracleOutcome::Yes).unwrap_err()),
        409
    );
    assert_eq!(status(v.dispute(s.requester, s.request_id).unwrap_err()), 409);
    v.assert_conserved();

    // invalid: each poster gets its own chunk back.
    let mut v = Venue::new();
    let (s, _) = reported_yes(&mut v);
    assert!(v.dispute(s.makers[0], s.request_id).is_ok());
    let unwound = v.resolve(s.request_id, OracleOutcome::Invalid).unwrap();
    assert_eq!(unwound.state, RequestState::Unwound);
    released_three(&mut v, &s);
    assert_eq!(
        status(v.resolve(s.request_id, OracleOutcome::No).unwrap_err()),
        409
    );
    v.assert_conserved();
}

#[test]
fn fm_unwind_timeout_refunds_each_poster() {
    let mut v = Venue::new();
    let (s, reported_at) = reported_yes(&mut v);
    let filed_at = reported_at + 10;
    let now = v.at(filed_at);
    v.set(now);
    assert!(v.dispute(s.requester, s.request_id).is_ok());

    v.advance_to(filed_at + UNWIND_TIMEOUT_SECS);
    assert_eq!(
        v.snapshot(s.request_id).state,
        RequestState::Disputed,
        "still adjudicable at the deadline instant"
    );
    escrowed_three(&mut v, &s);

    v.advance_to(filed_at + UNWIND_TIMEOUT_SECS + 1);
    assert_eq!(v.snapshot(s.request_id).state, RequestState::Unwound);
    released_three(&mut v, &s);
    assert_eq!(
        status(v.resolve(s.request_id, OracleOutcome::Yes).unwrap_err()),
        409,
        "terminal"
    );
    v.assert_conserved();
}

// ---- whole lives -----------------------------------------------------------------------------

/// A venue where outcomes pay out at once and disputes do not time out.
fn venue_without_dispute_window() -> Venue {
    Venue::with_config(EngineConfig {
        accept_window: Span::seconds(ACCEPT_WINDOW_SECS),
        dispute_window: None,
        unwind_timeout: None,
        ..EngineConfig::default()
    })
}

#[test]
fn fm_happy_path_three_legs() {
    let mut v = venue_without_dispute_window();
    let s = three_leg_scenario(&mut v);
    let quotes = quote_all_legs(&mut v, &s);
    for m in s.makers {
        assert_eq!(v.balances(m), bal(0, SIDE_LOCK, 0));
    }
    assert_eq!(
        v.balances(s.requester),
        bal(3 * SIDE_LOCK, 0, 0),
        "requester stays free while Open"
    );

    v.advance_to(RESPONSE_DEADLINE_SECS);
    let presented = v.snapshot(s.request_id);
    assert_eq!(presented.state, RequestState::Presented);
    assert_eq!(selections(&presented), quotes);

    let locked = v.accept(s.requester, s.request_id).unwrap();
    assert_eq!(locked.state, RequestState::Locked);
    assert_eq!(locked.escrows.len(), 3);
    for (i, e) in locked.escrows.iter().enumerate() {
        assert_eq!(e.leg_id, s.leg_ids[i]);
        assert_eq!(e.yes_buyer, s.requester);
        assert_eq!(e.yes_seller, s.makers[i]);
        assert_eq!(
            (e.yes_buyer_amount, e.yes_seller_amount),
            (Amount::new(SIDE_LOCK), Amount::new(SIDE_LOCK))
        );
    }
    escrowed_three(&mut v, &s);
    v.assert_conserved();

    let settled = v.resolve(s.request_id, OracleOutcome::Yes).unwrap();
    assert_eq!(settled.state, RequestState::Settled);
    assert_eq!(
        v.balances(s.requester),
        bal(3 * LEG_NOTIONAL, 0, 0),
        "winner receives n per leg"
    );
    for m in s.makers {
        assert_eq!(v.balances(m), bal(0, 0, 0));
    }
    for q in quotes {
        assert_quote_states(&settled, &[(q, QuoteState::Locked)]);
    }
    v.assert_conserved();
}

#[test]
fn a_dispute_without_a_timeout_waits() {
    let mut v = venue_without_dispute_window();
    let s = locked_then_disputed(&mut v);
    assert_eq!(v.snapshot(s.request_id).unwind_deadline, None);
    v.advance_to(10 * UNWIND_TIMEOUT_SECS);
    assert_eq!(v.snapshot(s.request_id).state, RequestState::Disputed);
    escrowed_three(&mut v, &s);
}

#[test]
fn full_lifecycle_two_legs_settles_yes() {
    let mut v = venue_without_dispute_window();
    let (requester, mm1, mm2) = (PartyId::new(), PartyId::new(), PartyId::new());
    for p in [requester, mm1, mm2] {
        v.fund(p, 10_000);
    }

    // Leg A: requester buys Yes, notional 1_000.  Leg B: requester sells Yes, 2_000.
    let deadline = v.at(30);
    let created = v
        .open_request(
            requester,
            vec![leg(LegSide::BuyYes, 1_000), leg(LegSide::SellYes, 2_000)],
            deadline,
        )
        .unwrap();
    let request_id = created.id;
    let (leg_a, leg_b) = (created.legs[0].id, created.legs[1].id);
    assert_eq!(created.state, RequestState::Open);
    assert_eq!(created.requester, requester);
    assert_eq!(created.response_deadline, deadline);
    assert_eq!(created.created_at, v.at(0));
    // Requester's free balance is untouched while Open: the price is not known yet.
    assert_eq!(v.balances(requester), bal(10_000, 0, 0));

    // Market makers quote; collateral is reserved at submit.
    let expires = v.at(600);
    // Leg A (BuyYes): MM is the Yes-seller and reserves (1 - p) * n.
    let q_a_mm1 = v.quote_ok(mm1, request_id, leg_a, 4_000, 1_000, expires); // 600
    assert_eq!(v.balances(mm1), bal(9_400, 600, 0));
    let q_a_mm2 = v.quote_ok(mm2, request_id, leg_a, 3_500, 1_000, expires); // 650, better
    assert_eq!(v.balances(mm2), bal(9_350, 650, 0));
    // Leg B (SellYes): MM is the Yes-buyer and reserves p * n.
    let q_b_mm1 = v.quote_ok(mm1, request_id, leg_b, 6_000, 2_000, expires); // 1_200
    assert_eq!(v.balances(mm1), bal(8_200, 1_800, 0));
    let q_b_mm2 = v.quote_ok(mm2, request_id, leg_b, 6_500, 2_500, expires); // 1_300, better
    assert_eq!(v.balances(mm2), bal(8_050, 1_950, 0));

    // mm1 posts a would-be-winning quote on leg A, then cancels it.
    let q_a_mm1_cheap = v.quote_ok(mm1, request_id, leg_a, 3_000, 1_000, expires); // 700
    assert_eq!(v.balances(mm1), bal(7_500, 2_500, 0));
    assert_eq!(v.cancel_quote(mm1, q_a_mm1_cheap), Ok(()));
    assert_eq!(v.balances(mm1), bal(8_200, 1_800, 0));

    let open = v.snapshot(request_id);
    assert_eq!(open.state, RequestState::Open);
    assert_eq!(open.quotes.len(), 5);
    assert_quote_states(&open, &[(q_a_mm1_cheap, QuoteState::Released)]);

    // Response deadline passes: the best package is presented.
    v.advance_to(30);
    let presented = v.snapshot(request_id);
    assert_eq!(presented.state, RequestState::Presented);
    assert_eq!(presented.accept_deadline, Some(v.at(30 + ACCEPT_WINDOW_SECS)));
    assert_eq!(selections(&presented), vec![q_a_mm2, q_b_mm2]);
    assert_quote_states(
        &presented,
        &[
            (q_a_mm2, QuoteState::Selected),
            (q_b_mm2, QuoteState::Selected),
            (q_a_mm1, QuoteState::Live),
            (q_b_mm1, QuoteState::Live),
        ],
    );
    // Nothing has moved to escrow yet; losers stay reserved until accept.
    assert_eq!(v.balances(requester), bal(10_000, 0, 0));
    assert_eq!(v.balances(mm1), bal(8_200, 1_800, 0));
    assert_eq!(v.balances(mm2), bal(8_050, 1_950, 0));

    // Requester accepts: one batch, losers released.
    let locked = v.accept(requester, request_id).unwrap();
    assert_eq!(locked.state, RequestState::Locked);
    let [a, b] = [locked.escrows[0], locked.escrows[1]];
    assert_eq!((a.leg_id, a.yes_buyer, a.yes_seller), (leg_a, requester, mm2));
    assert_eq!(
        (a.yes_buyer_amount, a.yes_seller_amount, a.notional),
        (Amount::new(350), Amount::new(650), Amount::new(1_000))
    );
    assert_eq!((b.leg_id, b.yes_buyer, b.yes_seller), (leg_b, mm2, requester));
    assert_eq!(
        (b.yes_buyer_amount, b.yes_seller_amount, b.notional),
        (Amount::new(1_300), Amount::new(700), Amount::new(2_000))
    );
    assert_quote_states(
        &locked,
        &[
            (q_a_mm2, QuoteState::Locked),
            (q_b_mm2, QuoteState::Locked),
            (q_a_mm1, QuoteState::Released),
            (q_b_mm1, QuoteState::Released),
        ],
    );
    assert_eq!(v.balances(requester), bal(8_950, 0, 1_050)); // 350 (leg A) + 700 (leg B)
    assert_eq!(v.balances(mm1), bal(10_000, 0, 0));
    assert_eq!(v.balances(mm2), bal(8_050, 0, 1_950)); // 650 (leg A) + 1_300 (leg B)

    // Oracle says Yes: each leg's Yes-buyer receives its notional.
    let settled = v.resolve(request_id, OracleOutcome::Yes).unwrap();
    assert_eq!(settled.state, RequestState::Settled);
    assert_eq!(v.balances(requester), bal(9_950, 0, 0)); // 8_950 + 1_000 (leg A)
    assert_eq!(v.balances(mm1), bal(10_000, 0, 0));
    assert_eq!(v.balances(mm2), bal(10_050, 0, 0)); // 8_050 + 2_000 (leg B)

    // Terminal: a second accept or resolve is a 409.
    assert_eq!(
        v.accept(requester, request_id),
        Err(EngineError::WrongState {
            expected: RequestState::Presented,
            actual: RequestState::Settled
        })
    );
    assert_eq!(
        v.resolve(request_id, OracleOutcome::No),
        Err(EngineError::WrongState {
            expected: RequestState::Locked,
            actual: RequestState::Settled
        })
    );
    assert_eq!(v.snapshot(request_id).state, RequestState::Settled);
    v.assert_conserved();
}

#[test]
fn unmatched_leg_fails_request_and_releases_every_reservation() {
    let mut v = Venue::new();
    let (requester, mm) = (PartyId::new(), PartyId::new());
    v.fund(requester, 5_000);
    v.fund(mm, 5_000);
    let deadline = v.at(30);
    let created = v
        .open_request(
            requester,
            vec![
                leg(LegSide::BuyYes, 1_000),
                leg(LegSide::BuyYes, 1_000),
                leg(LegSide::BuyYes, 1_000),
            ],
            deadline,
        )
        .unwrap();
    let later = v.at(600);

    // Quotes on legs 1 and 3 only.
    v.quote_ok(mm, created.id, created.legs[0].id, 5_000, 1_000, later);
    v.quote_ok(mm, created.id, created.legs[2].id, 5_000, 1_000, later);
    assert_eq!(v.balances(mm), bal(4_000, 1_000, 0));

    v.advance_to(30);
    let failed = v.snapshot(created.id);
    assert_eq!(failed.state, RequestState::Failed);
    assert_eq!(
        failed.fail_reason,
        Some(FailReason::LegUnmatched(created.legs[1].id))
    );
    assert!(
        failed.package.is_none(),
        "the requester is never shown a partial package"
    );
    assert!(failed.quotes.iter().all(|q| q.state == QuoteState::Released));
    assert_eq!(v.balances(requester), bal(5_000, 0, 0));
    assert_eq!(v.balances(mm), bal(5_000, 0, 0));
    v.assert_conserved();
}

/// One winning maker quotes each leg at the given Yes price, a losing one 500 bps worse.
fn settle_case(legs: &[(LegSide, u64, u32)], outcome: OracleOutcome, requester_pnl: i64) {
    const START: u64 = 100_000;
    let mut v = venue_without_dispute_window();
    let (requester, winner, loser) = (PartyId::new(), PartyId::new(), PartyId::new());
    for p in [requester, winner, loser] {
        v.fund(p, START);
    }
    let deadline = v.at(30);
    let later = v.at(600);
    let created = v
        .open_request(
            requester,
            legs.iter().map(|(side, n, _)| leg(*side, *n)).collect(),
            deadline,
        )
        .unwrap();

    let mut winning_quotes = Vec::new();
    let mut losing_quotes = Vec::new();
    let (mut requester_lock, mut winner_lock) = (0, 0);
    for (i, (side, notional, price)) in legs.iter().enumerate() {
        let leg_id = created.legs[i].id;
        let long_yes = matches!(side, LegSide::BuyYes | LegSide::SellNo);
        let worse = if long_yes { price + 500 } else { price - 500 };
        losing_quotes.push(v.quote_ok(loser, created.id, leg_id, worse, *notional, later));
        winning_quotes.push(v.quote_ok(winner, created.id, leg_id, *price, *notional, later));
        // Yes-buyer locks p * n (truncated); Yes-seller locks the remainder.
        let buyer_amount = notional * u64::from(*price) / 10_000;
        let seller_amount = notional - buyer_amount;
        if long_yes {
            requester_lock += buyer_amount;
            winner_lock += seller_amount;
        } else {
            requester_lock += seller_amount;
            winner_lock += buyer_amount;
        }
    }
    assert!(v.balances(loser).free < Amount::new(START));

    v.advance_to(30);
    let presented = v.snapshot(created.id);
    assert_eq!(presented.state, RequestState::Presented);
    assert_eq!(selections(&presented), winning_quotes);

    let locked = v.accept(requester, created.id).unwrap();
    for (i, e) in locked.escrows.iter().enumerate() {
        let (side, notional, price) = legs[i];
        let buyer_amount = notional * u64::from(price) / 10_000;
        let parties = if matches!(side, LegSide::BuyYes | LegSide::SellNo) {
            (requester, winner)
        } else {
            (winner, requester)
        };
        assert_eq!(e.leg_id, created.legs[i].id);
        assert_eq!((e.yes_buyer, e.yes_seller), parties);
        assert_eq!(e.yes_buyer_amount, Amount::new(buyer_amount));
        assert_eq!(e.yes_seller_amount, Amount::new(notional - buyer_amount));
        assert_eq!(e.notional, Amount::new(notional));
    }
    for q in winning_quotes {
        assert_quote_states(&locked, &[(q, QuoteState::Locked)]);
    }
    for q in losing_quotes {
        assert_quote_states(&locked, &[(q, QuoteState::Released)]);
    }
    assert_eq!(
        v.balances(requester),
        bal(START - requester_lock, 0, requester_lock)
    );
    assert_eq!(v.balances(winner), bal(START - winner_lock, 0, winner_lock));
    assert_eq!(v.balances(loser), bal(START, 0, 0));

    // Zero-sum between requester and winner; loser untouched.
    let settled = v.resolve(created.id, outcome).unwrap();
    assert_eq!(settled.state, RequestState::Settled);
    let after = |pnl: i64| u64::try_from(i64::try_from(START).unwrap() + pnl).unwrap();
    assert_eq!(v.balances(requester), bal(after(requester_pnl), 0, 0));
    assert_eq!(v.balances(winner), bal(after(-requester_pnl), 0, 0));
    assert_eq!(v.balances(loser), bal(START, 0, 0));
    v.assert_conserved();
}

#[test]
fn settles() {
    // Single leg, notional 1_000.
    settle_case(&[(LegSide::BuyYes, 1_000, 3_500)], OracleOutcome::Yes, 650);
    settle_case(&[(LegSide::BuyYes, 1_000, 3_500)], OracleOutcome::No, -350);
    settle_case(&[(LegSide::SellYes, 1_000, 3_500)], OracleOutcome::Yes, -650);
    settle_case(&[(LegSide::SellYes, 1_000, 3_500)], OracleOutcome::No, 350);
    settle_case(&[(LegSide::BuyNo, 1_000, 4_000)], OracleOutcome::Yes, -600);
    settle_case(&[(LegSide::BuyNo, 1_000, 4_000)], OracleOutcome::No, 400);
    settle_case(&[(LegSide::SellNo, 1_000, 4_000)], OracleOutcome::Yes, 600);
    settle_case(&[(LegSide::SellNo, 1_000, 4_000)], OracleOutcome::No, -400);
    // Multi-leg: legs settle independently, P&L is the sum.
    let two = [(LegSide::BuyYes, 1_000, 3_500), (LegSide::SellYes, 2_000, 6_500)];
    settle_case(&two, OracleOutcome::Yes, 650 - 700);
    settle_case(&two, OracleOutcome::No, -350 + 1_300);
    let four = [
        (LegSide::BuyYes, 1_000, 3_500),
        (LegSide::SellYes, 2_000, 6_500),
        (LegSide::BuyNo, 1_000, 4_000),
        (LegSide::SellNo, 1_000, 2_500),
    ];
    settle_case(&four, OracleOutcome::Yes, 650 - 700 - 600 + 750);
    settle_case(&four, OracleOutcome::No, -350 + 1_300 + 400 - 250);
    // Rounding: odd notional, remainder lands on the Yes-seller.
    settle_case(&[(LegSide::BuyYes, 7, 3_333)], OracleOutcome::Yes, 7 - 2);
    settle_case(&[(LegSide::BuyYes, 7, 3_333)], OracleOutcome::No, -2);
}

// ---- money -----------------------------------------------------------------------------------

/// Quoting, cancelling, presenting, accepting, reporting and disputing leave every party's total
/// as it was; an outcome moves it.
#[test]
fn only_outcomes_move_money_between_parties() {
    let mut v = Venue::new();
    let s = three_leg_scenario(&mut v);
    let parties = [s.requester, s.makers[0], s.makers[1], s.makers[2]];
    let totals = |v: &mut Venue| -> Vec<u64> {
        parties
            .iter()
            .map(|p| v.balances(*p).total().minor_units())
            .collect()
    };
    let start = totals(&mut v);
    let q0 = quote_leg(&mut v, &s, 0);
    assert_eq!(v.cancel_quote(s.makers[0], q0), Ok(()));
    quote_all_legs(&mut v, &s);
    assert_eq!(totals(&mut v), start);
    v.advance_to(RESPONSE_DEADLINE_SECS);
    assert!(v.accept(s.requester, s.request_id).is_ok());
    assert_eq!(totals(&mut v), start);
    assert!(v.resolve(s.request_id, OracleOutcome::Yes).is_ok());
    assert!(v.dispute(s.makers[0], s.request_id).is_ok());
    assert_eq!(totals(&mut v), start);
    assert!(v.resolve(s.request_id, OracleOutcome::No).is_ok());
    assert_eq!(totals(&mut v), vec![0, 1_000, 1_000, 1_000]);
}

/// What a maker has reserved is its side of every leg it has a live or selected quote on.
#[test]
fn live_quotes_are_collateralised() {
    let mut v = Venue::new();
    let (requester, maker) = (PartyId::new(), PartyId::new());
    v.fund(maker, 10_000);
    let deadline = v.at(30);
    let later = v.at(600);
    let created = v
        .open_request(
            requester,
            vec![leg(LegSide::BuyYes, 1_000), leg(LegSide::BuyNo, 700)],
            deadline,
        )
        .unwrap();
    let (a, b) = (created.legs[0].clone(), created.legs[1].clone());
    v.quote_ok(maker, created.id, a.id, 3_333, 5_000, later);
    v.quote_ok(maker, created.id, b.id, 3_333, 700, later);
    let request = v.snapshot(created.id);
    let locks = request.quotes[0].maker_lock(&a) + request.quotes[1].maker_lock(&b);
    assert_eq!(locks, Amount::new(667 + 233));
    assert_eq!(v.balances(maker).reserved, locks);
    v.advance_to(30);
    assert_eq!(v.snapshot(created.id).state, RequestState::Presented);
    assert_eq!(v.balances(maker).reserved, locks, "selected quotes too");
    assert_eq!(v.lock_batch_calls(), 0, "the clock locks nothing");
    assert!(v.reject(requester, created.id).is_ok());
    assert_eq!(v.balances(maker), bal(10_000, 0, 0), "failed requests hold nothing");
}

// ---- commands --------------------------------------------------------------------------------

#[test]
fn an_identifier_in_use_is_passed_over() {
    let mut v = Venue::new();
    let requester = PartyId::new();
    let now = v.at(0);
    let deadline = v.at(30);
    let open = |legs: Vec<Leg>| Command::SubmitRequest {
        requester,
        legs,
        tenor: Tenor::FiveMinutes,
        response_deadline: deadline,
    };
    let drawn: u128 = 0x0123_4567_89ab_4def_8000_0000_0000_0002;
    let next: u128 = 0x0123_4567_89ab_4def_8000_0000_0000_0000;
    let another = || open(vec![leg(LegSide::BuyYes, 10)]);
    assert_eq!(v.engine.unused_id(drawn, &another()), Some(drawn));
    let first = v.engine.apply(now, drawn, another());
    assert!(matches!(first, Some(Reply::Request(Ok(_)))));
    assert!(v.engine.has_request(RequestId::from(drawn)));
    assert_eq!(v.engine.unused_id(drawn, &another()), Some(next));
    let second = v.engine.apply(now, next, another());
    assert!(matches!(second, Some(Reply::Request(Ok(_)))));
    assert_eq!(v.engine.unused_id(drawn, &another()), Some(next + 1));
    assert_eq!(
        v.engine.unused_id(drawn, &Command::Balance { party: requester }),
        Some(drawn),
        "nothing is added"
    );
}

/// Legs may share an identifier; a quote is then for the first of them.
#[test]
fn legs_with_one_identifier_are_taken() {
    let mut v = Venue::new();
    let (requester, maker) = (PartyId::new(), PartyId::new());
    v.fund(requester, 10_000);
    v.fund(maker, 10_000);
    let (deadline, later) = (v.at(30), v.at(600));
    let twin = leg(LegSide::BuyYes, 1_000);
    let opened = v
        .open_request(requester, vec![twin.clone(), twin.clone()], deadline)
        .unwrap();
    assert_eq!(opened.state, RequestState::Open);
    assert_eq!(opened.legs, vec![twin.clone(), twin.clone()]);
    let quote = v.quote_ok(maker, opened.id, twin.id, 6_000, 1_000, later);
    v.advance_to(30);
    let presented = v.snapshot(opened.id);
    assert_eq!(presented.state, RequestState::Presented);
    let selections = &presented.package.as_ref().unwrap().selections;
    assert_eq!(selections.len(), 2);
    assert!(selections.iter().all(|s| s.quote_id == quote));
    // The collateral of one quote cannot be used for two legs.
    let now = v.at(40);
    assert!(!v.engine.can_accept(now, requester, opened.id));
    let accept = Command::Accept {
        requester,
        request_id: opened.id,
    };
    assert_eq!(v.engine.apply(now, 0, accept), None);
    assert_eq!(v.balances(maker), bal(9_600, 400, 0));
    assert!(v.reject(requester, opened.id).is_ok());
    assert_eq!(v.balances(maker), bal(10_000, 0, 0));
}

/// A requester without funds for the first leg never gets to the second one's.
#[test]
fn legs_with_one_identifier_and_no_funds() {
    let mut v = Venue::new();
    let (requester, maker) = (PartyId::new(), PartyId::new());
    v.fund(requester, 599);
    v.fund(maker, 1_000);
    let (deadline, later) = (v.at(30), v.at(600));
    let twin = leg(LegSide::BuyYes, 1_000);
    let opened = v
        .open_request(requester, vec![twin.clone(), twin.clone()], deadline)
        .unwrap();
    v.quote_ok(maker, opened.id, twin.id, 6_000, 1_000, later);
    v.advance_to(30);
    assert_eq!(status(v.accept(requester, opened.id).unwrap_err()), 402);
    assert_eq!(v.snapshot(opened.id).state, RequestState::Failed);
    assert_eq!(v.balances(maker), bal(1_000, 0, 0));
}

/// Two sides of one contract under one identifier have different best quotes. Both go into escrow
/// on the terms of the first leg, and cannot be told apart afterwards.
#[test]
fn legs_with_one_identifier_and_two_best_quotes() {
    let mut v = Venue::new();
    let (requester, maker) = (PartyId::new(), PartyId::new());
    v.fund(requester, 10_000);
    v.fund(maker, 10_000);
    let (deadline, later) = (v.at(30), v.at(600));
    let first = leg(LegSide::BuyYes, 1_000);
    let mut second = first.clone();
    second.side = LegSide::SellYes;
    second.notional = Amount::new(500);
    let opened = v
        .open_request(requester, vec![first.clone(), second], deadline)
        .unwrap();
    let low = v.quote_ok(maker, opened.id, first.id, 4_000, 1_000, later);
    let high = v.quote_ok(maker, opened.id, first.id, 7_000, 1_000, later);
    assert_eq!(v.balances(maker), bal(9_100, 900, 0));
    v.advance_to(30);
    let package = v.snapshot(opened.id).package.unwrap();
    assert_eq!(package.selections[0].quote_id, low);
    assert_eq!(package.selections[1].quote_id, high);
    let locked = v.accept(requester, opened.id).unwrap();
    assert_eq!(locked.state, RequestState::Locked);
    assert_eq!(locked.escrows.len(), 2);
    for escrow in &locked.escrows {
        assert_eq!((escrow.leg_id, escrow.notional), (first.id, Amount::new(1_000)));
        assert_eq!((escrow.yes_buyer, escrow.yes_seller), (requester, maker));
    }
    assert_eq!(v.balances(maker), bal(9_100, 0, 900));
    assert_eq!(v.balances(requester), bal(8_900, 0, 1_100));
    let now = v.at(40);
    assert!(v.engine.can_resolve(now, opened.id, OracleOutcome::Yes), "only reported");
    assert!(!v.engine.can_resolve(now, opened.id, OracleOutcome::Invalid));
    assert!(v.resolve(opened.id, OracleOutcome::Yes).is_ok());
    let late = v.at(200);
    assert!(!v.engine.advance(late), "cannot be paid out");
    assert_eq!(v.snapshot(opened.id).state, RequestState::Reported);
}

/// A command is carried out at the instant that the clock shows.
#[test]
fn commands_go_by_the_clock() {
    let mut v = Venue::new();
    let requester = PartyId::new();
    let deadline = v.at(30);
    let opened = v.open_request(requester, vec![leg(LegSide::BuyYes, 10)], deadline).unwrap();
    assert_eq!(opened.created_at, v.at(0));
    let later = v.at(31);
    v.set(later);
    assert_eq!(
        v.open_request(requester, vec![leg(LegSide::BuyYes, 10)], deadline).unwrap_err(),
        EngineError::DeadlineInPast
    );
}

#[test]
fn a_credit_beyond_the_largest_amount_is_not_taken() {
    let mut v = Venue::new();
    let party = PartyId::new();
    v.fund(party, u64::MAX);
    let more = Command::Credit {
        party,
        amount: Amount::new(1),
    };
    let now = v.at(0);
    assert_eq!(v.engine.apply(now, 0, more), None);
    assert_eq!(v.balances(party), bal(u64::MAX, 0, 0));
}

/// Two requests in escrow between `rich`, who buys Yes at 60%, and a maker, one leg of 1000 each;
/// `rich` then holds `funds` in all.
fn two_locked(v: &mut Venue, funds: u64) -> (PartyId, [RequestId; 2]) {
    let (rich, maker) = (PartyId::new(), PartyId::new());
    v.fund(rich, funds);
    v.fund(maker, 1_000);
    let deadline = v.at(30);
    let later = v.at(600);
    let mut ids: Vec<RequestId> = Vec::new();
    for _ in 0..2 {
        let created = v
            .open_request(rich, vec![leg(LegSide::BuyYes, 1_000)], deadline)
            .unwrap();
        v.quote_ok(maker, created.id, created.legs[0].id, 6_000, 1_000, later);
        ids.push(created.id);
    }
    v.advance_to(30);
    for id in &ids {
        assert!(v.accept(rich, *id).is_ok());
    }
    (rich, [ids[0], ids[1]])
}

#[test]
fn an_outcome_is_taken_up_to_the_largest_amount() {
    let mut v = venue_without_dispute_window();
    let (rich, [first, second]) = two_locked(&mut v, u64::MAX - 400);
    let now = v.at(40);
    assert!(v.engine.can_resolve(now, first, OracleOutcome::Yes));
    assert_eq!(
        v.resolve(first, OracleOutcome::Yes).unwrap().state,
        RequestState::Settled
    );
    assert_eq!(v.balances(rich), bal(u64::MAX - 600, 0, 600));
    // The winnings of the other request would not fit.
    assert!(!v.engine.can_resolve(now, second, OracleOutcome::Yes));
    let yes = Command::Resolve {
        request_id: second,
        outcome: OracleOutcome::Yes,
    };
    assert_eq!(v.engine.apply(now, 0, yes), None);
    assert_eq!(v.snapshot(second).state, RequestState::Locked);
    assert_eq!(v.balances(rich), bal(u64::MAX - 600, 0, 600));
    assert_eq!(
        v.resolve(second, OracleOutcome::No).unwrap().state,
        RequestState::Settled
    );
    assert_eq!(v.balances(rich), bal(u64::MAX - 600, 0, 0));
}

#[test]
fn the_clock_stops_at_a_payment_without_room() {
    let mut v = Venue::new();
    let (rich, [first, second]) = two_locked(&mut v, u64::MAX - 400);
    assert!(v.resolve(first, OracleOutcome::Yes).is_ok());
    assert!(v.resolve(second, OracleOutcome::Yes).is_ok());
    let late = v.at(200);
    assert!(!v.engine.advance(late));
    assert_eq!(v.snapshot(first).state, RequestState::Settled);
    assert_eq!(v.snapshot(second).state, RequestState::Reported);
    assert_eq!(v.balances(rich), bal(u64::MAX - 600, 0, 600));
    assert_eq!(v.engine.apply(late, 0, Command::Tick { now: late }), None);
    // A dispute still gets everyone out.
    assert!(v.dispute(rich, second).is_ok());
    assert!(v.resolve(second, OracleOutcome::Invalid).is_ok());
    assert!(v.engine.advance(late));
    assert_eq!(v.balances(rich), bal(u64::MAX, 0, 0));
}

/// A party's buckets may be more than an amount together, but not one by one.
#[test]
fn a_party_may_hold_more_than_an_amount_in_all() {
    let mut v = venue_without_dispute_window();
    let (maker, requester, other) = (PartyId::new(), PartyId::new(), PartyId::new());
    v.fund(maker, u64::MAX - 50);
    v.fund(requester, 500);
    let (deadline, later) = (v.at(30), v.at(600));
    let far = v.at(60);
    let waiting = v.open_request(other, vec![leg(LegSide::BuyYes, 1_000)], far).unwrap();
    let held = v.quote_ok(maker, waiting.id, waiting.legs[0].id, 5_000, 1_000, later);
    let won = v
        .open_request(requester, vec![leg(LegSide::BuyYes, 1_000)], deadline)
        .unwrap();
    v.quote_ok(maker, won.id, won.legs[0].id, 5_000, 1_000, later);
    v.advance_to(30);
    assert!(v.accept(requester, won.id).is_ok());
    assert!(v.resolve(won.id, OracleOutcome::No).is_ok());
    assert_eq!(v.balances(maker), bal(u64::MAX - 50, 500, 0));
    v.fund(maker, 50);
    assert_eq!(v.balances(maker), bal(u64::MAX, 500, 0));

    // There is no room for the collateral to come back.
    let now = v.at(40);
    assert!(!v.engine.can_cancel(maker, held));
    let cancel = Command::CancelQuote { maker, quote_id: held };
    assert_eq!(v.engine.apply(now, 0, cancel), None);
    assert!(v.engine.can_cancel(requester, held), "refused");
    assert_eq!(v.balances(maker), bal(u64::MAX, 500, 0));
    v.advance_to(60);
    assert_eq!(v.snapshot(waiting.id).state, RequestState::Presented);
    let reject = Command::Reject {
        requester: other,
        request_id: waiting.id,
    };
    assert!(!v.engine.can_reject(other, waiting.id));
    assert_eq!(v.engine.apply(now, 0, reject), None);
    assert!(!v.engine.can_accept(now, other, waiting.id), "nor can it fail");
    let late = v.at(200);
    assert!(!v.engine.advance(late));
    assert_eq!(v.snapshot(waiting.id).state, RequestState::Presented);
}

#[test]
fn deadlines_stay_on_the_calendar() {
    let mut v = Venue::new();
    let s = locked_three(&mut v);
    let end = Timestamp::new(MAX_SECS, 0).unwrap();
    assert!(!v.engine.can_resolve(end, s.request_id, OracleOutcome::Yes));
    assert!(!v.engine.can_resolve(end, s.request_id, OracleOutcome::Disputed));
    assert!(v.engine.can_resolve(end, s.request_id, OracleOutcome::Invalid));
    assert!(v.resolve(s.request_id, OracleOutcome::Yes).is_ok());
    assert!(!v.engine.can_dispute(end, s.requester, s.request_id));
    assert!(v.engine.can_dispute(end, PartyId::new(), s.request_id), "refused");
    let now = v.at(40);
    assert!(v.engine.can_dispute(now, s.requester, s.request_id));
}

#[test]
fn the_default_terms() {
    let config = EngineConfig::default();
    assert_eq!(config.accept_window, Span::seconds(60));
    assert_eq!(config.max_response_horizon, Span::seconds(31_536_000));
    assert_eq!(config.dispute_window, Some(Span::seconds(60)));
    assert_eq!(config.unwind_timeout, Some(Span::seconds(86_400)));
    let engine = Engine::new(MockLedger::new(), config);
    assert_eq!(engine.config(), config);
    assert_eq!(engine.ledger().balance(PartyId::new()), bal(0, 0, 0));
}
