//! The state machine of requests, as mathematics: what each command makes of the venue.
use vstd::prelude::*;
use crate::domain::ids::{LegId, PartyId, QuoteId, RequestId, SeqNo};
use crate::domain::money::{Amount, Price};
use crate::domain::request::{Escrow, Leg, Quote, RequestModel, Selection};
use crate::domain::state::{FailReason, OracleOutcome, QuoteState, RequestState, Tenor};
use crate::domain::{matching, request};
use crate::engine::error::EngineError;
use crate::ledger::{
    EscrowHandle, LedgerModel, LockBatchError, LockItem, Move, ReservationId,
};
use crate::seqs;
use crate::time::{Span, Timestamp};

verus! {

/// The venue's terms.
#[derive(Debug, Clone, Copy, PartialEq, Eq, Structural)]
pub struct EngineConfig {
    /// How long the requester has to accept once a package is presented.
    pub accept_window: Span,
    /// How far ahead a response deadline may be. Bounds how long collateral can sit reserved.
    pub max_response_horizon: Span,
    /// How long a reported Yes or No may be disputed before it pays out. Without one it pays out
    /// at once.
    pub dispute_window: Option<Span>,
    /// How long a dispute may last before every poster is refunded. Without one it lasts until an
    /// outcome comes.
    pub unwind_timeout: Option<Span>,
}

/// The ledger handles of one leg's escrow, by role.
#[derive(Debug, Clone, Copy, PartialEq, Eq, Structural)]
pub struct LegEscrow {
    pub yes_buyer: EscrowHandle,
    pub yes_seller: EscrowHandle,
}

/// Which of a request's quotes to let go.
#[derive(Debug, Clone, Copy, PartialEq, Eq, Structural)]
pub enum Scope {
    All,
    /// Live quotes that have expired by this instant.
    Expired(Timestamp),
    Named(QuoteId),
    /// Live quotes, which lose to the selected ones.
    Losing,
}

impl Scope {
    pub open spec fn covers(self, quote: Quote) -> bool {
        match self {
            Scope::All => true,
            Scope::Expired(now) => quote.state is Live && quote.expires_at@ <= now@,
            Scope::Named(id) => quote.id == id,
            Scope::Losing => quote.state is Live,
        }
    }
}

/// A request and what the ledger holds for it.
#[verifier::ext_equal]
pub struct EntryModel {
    pub request: RequestModel,
    /// The collateral of each quote, while there is any.
    pub reservations: Seq<Option<ReservationId>>,
    /// The two chunks of each leg, while they are in escrow.
    pub handles: Seq<LegEscrow>,
}

/// Which party wins a leg.
pub open spec fn winner(escrow: Escrow, outcome: OracleOutcome) -> PartyId {
    if outcome is Yes {
        escrow.yes_buyer
    } else {
        escrow.yes_seller
    }
}

/// The first `k` legs paid out, both chunks of each to its winner.
pub open spec fn pay_legs(
    ledger: LedgerModel,
    escrows: Seq<Escrow>,
    handles: Seq<LegEscrow>,
    outcome: OracleOutcome,
    k: int,
) -> LedgerModel
    decreases k,
{
    if k <= 0 {
        ledger
    } else {
        let to = winner(escrows[k - 1], outcome);
        pay_legs(ledger, escrows, handles, outcome, k - 1).payout(
            handles[k - 1].yes_buyer,
            to,
        ).payout(handles[k - 1].yes_seller, to)
    }
}

/// The moves of that.
pub open spec fn pay_moves(
    escrows: Seq<Escrow>,
    handles: Seq<LegEscrow>,
    outcome: OracleOutcome,
    k: int,
) -> Seq<Move>
    decreases k,
{
    if k <= 0 {
        Seq::empty()
    } else {
        let to = winner(escrows[k - 1], outcome);
        pay_moves(escrows, handles, outcome, k - 1).push(
            Move::Payout(handles[k - 1].yes_buyer, to),
        ).push(Move::Payout(handles[k - 1].yes_seller, to))
    }
}

/// The first `k` legs refunded, each chunk to its poster.
pub open spec fn refund_legs(ledger: LedgerModel, handles: Seq<LegEscrow>, k: int) -> LedgerModel
    decreases k,
{
    if k <= 0 {
        ledger
    } else {
        refund_legs(ledger, handles, k - 1).refund(handles[k - 1].yes_buyer).refund(
            handles[k - 1].yes_seller,
        )
    }
}

/// The moves of that.
pub open spec fn refund_moves(handles: Seq<LegEscrow>, k: int) -> Seq<Move>
    decreases k,
{
    if k <= 0 {
        Seq::empty()
    } else {
        refund_moves(handles, k - 1).push(Move::Refund(handles[k - 1].yes_buyer)).push(
            Move::Refund(handles[k - 1].yes_seller),
        )
    }
}

/// The moves of a batch.
pub open spec fn lock_moves(items: Seq<LockItem>) -> Seq<Move> {
    Seq::new(items.len(), |j: int| Move::Lock(items[j]))
}

impl EntryModel {
    pub open spec fn in_state(self, state: RequestState) -> EntryModel {
        EntryModel { request: RequestModel { state, ..self.request }, ..self }
    }

    /// Whether the `i`-th quote is let go.
    pub open spec fn lets_go(self, scope: Scope, i: int) -> bool {
        scope.covers(self.request.quotes[i]) && self.request.quotes[i].holds_collateral()
    }

    /// The entry once the quotes in `scope` are released.
    pub open spec fn release(self, scope: Scope) -> EntryModel {
        EntryModel {
            request: RequestModel {
                quotes: Seq::new(
                    self.request.quotes.len(),
                    |i: int|
                        if self.lets_go(scope, i) {
                            Quote { state: QuoteState::Released, ..self.request.quotes[i] }
                        } else {
                            self.request.quotes[i]
                        },
                ),
                ..self.request
            },
            reservations: Seq::new(
                self.reservations.len(),
                |i: int|
                    if self.lets_go(scope, i) {
                        None
                    } else {
                        self.reservations[i]
                    },
            ),
            ..self
        }
    }

    /// The ledger once the collateral of those of the first `k` quotes that are in `scope` is
    /// released.
    pub open spec fn release_holds(self, ledger: LedgerModel, scope: Scope, k: int) -> LedgerModel
        decreases k,
    {
        if k <= 0 {
            ledger
        } else {
            let rest = self.release_holds(ledger, scope, k - 1);
            match self.reservations[k - 1] {
                Some(id) => if self.lets_go(scope, k - 1) {
                    rest.release(id)
                } else {
                    rest
                },
                None => rest,
            }
        }
    }

    /// The moves of that.
    pub open spec fn release_moves(self, scope: Scope, k: int) -> Seq<Move>
        decreases k,
    {
        if k <= 0 {
            Seq::empty()
        } else {
            let rest = self.release_moves(scope, k - 1);
            match self.reservations[k - 1] {
                Some(id) => if self.lets_go(scope, k - 1) {
                    rest.push(Move::Release(id))
                } else {
                    rest
                },
                None => rest,
            }
        }
    }

    /// Whether the balances have room for the collateral of every quote in `scope`.
    pub open spec fn room_to_release(self, ledger: LedgerModel, scope: Scope) -> bool {
        ledger.has_room(self.release_moves(scope, self.request.quotes.len() as int))
    }

    /// The ledger once the collateral of every quote in `scope` is released.
    pub open spec fn release_all_holds(self, ledger: LedgerModel, scope: Scope) -> LedgerModel {
        self.release_holds(ledger, scope, self.request.quotes.len() as int)
    }

    /// The entry once the request has failed: nothing is held for it any more.
    pub open spec fn fail(self, reason: FailReason) -> EntryModel {
        let released = self.release(Scope::All);
        EntryModel {
            request: RequestModel {
                state: RequestState::Failed,
                fail_reason: Some(reason),
                ..released.request
            },
            ..released
        }
    }

    /// The best quote for the `i`-th leg.
    pub open spec fn best(self, i: int, now: Timestamp, accept_deadline: Timestamp) -> Option<int> {
        matching::best_index(self.request.legs[i], self.request.quotes, now, accept_deadline)
    }

    /// The first leg without an eligible quote.
    pub open spec fn unmatched(self, now: Timestamp, accept_deadline: Timestamp) -> Option<int> {
        seqs::first_where(
            self.request.legs,
            |leg: Leg|
                matching::best_index(leg, self.request.quotes, now, accept_deadline) is None,
        )
    }

    /// Whether the `j`-th quote is the best for some leg.
    pub open spec fn is_chosen(self, j: int, now: Timestamp, accept_deadline: Timestamp) -> bool {
        exists|i: int|
            0 <= i < self.request.legs.len() && #[trigger] self.best(i, now, accept_deadline)
                == Some(j)
    }

    /// The entry once the best quote of every leg is before the requester.
    pub open spec fn present(self, now: Timestamp, accept_deadline: Timestamp) -> EntryModel {
        EntryModel {
            request: RequestModel {
                quotes: Seq::new(
                    self.request.quotes.len(),
                    |j: int|
                        if self.is_chosen(j, now, accept_deadline) {
                            Quote { state: QuoteState::Selected, ..self.request.quotes[j] }
                        } else {
                            self.request.quotes[j]
                        },
                ),
                package: Some(
                    Seq::new(
                        self.request.legs.len(),
                        |i: int|
                            Selection {
                                leg_id: self.request.legs[i].id,
                                quote_id: self.request.quotes[self.best(
                                    i,
                                    now,
                                    accept_deadline,
                                )->Some_0].id,
                            },
                    ),
                ),
                accept_deadline: Some(accept_deadline),
                state: RequestState::Presented,
                ..self.request
            },
            ..self
        }
    }

    /// The entry at its response deadline: presented if every leg is matched, else failed.
    pub open spec fn present_or_fail(
        self,
        now: Timestamp,
        accept_deadline: Timestamp,
    ) -> EntryModel {
        match self.unmatched(now, accept_deadline) {
            Some(i) => self.fail(FailReason::LegUnmatched(self.request.legs[i].id)),
            None => self.present(now, accept_deadline),
        }
    }

    /// The ledger then.
    pub open spec fn present_or_fail_holds(
        self,
        ledger: LedgerModel,
        now: Timestamp,
        accept_deadline: Timestamp,
    ) -> LedgerModel {
        match self.unmatched(now, accept_deadline) {
            Some(i) => self.release_all_holds(ledger, Scope::All),
            None => ledger,
        }
    }

    /// The quote selected for the `i`-th leg of the package.
    pub open spec fn selected_quote(self, i: int) -> int {
        self.request.quote_index(self.request.package->Some_0[i].quote_id)->Some_0
    }

    /// The leg of the `i`-th selection.
    pub open spec fn selected_leg(self, i: int) -> int {
        self.request.leg_index(self.request.package->Some_0[i].leg_id)->Some_0
    }

    /// The escrow of each leg of the package.
    pub open spec fn planned_escrows(self) -> Seq<Escrow> {
        Seq::new(
            self.request.package->Some_0.len(),
            |i: int|
                {
                    let quote = self.request.quotes[self.selected_quote(i)];
                    Escrow::of(
                        self.request.legs[self.selected_leg(i)],
                        quote.price,
                        self.request.requester,
                        quote.maker,
                    )
                },
        )
    }

    /// What the requester puts up for the `i`-th leg of the package.
    pub open spec fn requester_lock(self, i: int) -> Amount {
        if self.request.legs[self.selected_leg(i)].side.long_yes() {
            self.planned_escrows()[i].yes_buyer_amount
        } else {
            self.planned_escrows()[i].yes_seller_amount
        }
    }

    /// What funds the escrows: for each leg the maker's reservation, then the requester's side.
    pub open spec fn planned_items(self) -> Seq<LockItem> {
        Seq::new(
            2 * self.request.package->Some_0.len(),
            |j: int|
                if j % 2 == 0 {
                    LockItem::FromReservation(
                        self.reservations[self.selected_quote(j / 2)]->Some_0,
                    )
                } else {
                    LockItem::FromFree {
                        party: self.request.requester,
                        amount: self.requester_lock(j / 2),
                    }
                },
        )
    }

    /// The handles of each leg, by role, out of the handles of the batch.
    pub open spec fn handles_by_role(self, handles: Seq<EscrowHandle>) -> Seq<LegEscrow> {
        Seq::new(
            self.request.package->Some_0.len(),
            |i: int|
                if self.request.legs[self.selected_leg(i)].side.long_yes() {
                    LegEscrow { yes_buyer: handles[2 * i + 1], yes_seller: handles[2 * i] }
                } else {
                    LegEscrow { yes_buyer: handles[2 * i], yes_seller: handles[2 * i + 1] }
                },
        )
    }

    /// The entry with its selected quotes locked and the others released.
    pub open spec fn lock_selected_release_losers(self) -> EntryModel {
        EntryModel {
            request: RequestModel {
                quotes: Seq::new(
                    self.request.quotes.len(),
                    |i: int|
                        match self.request.quotes[i].state {
                            QuoteState::Selected => Quote {
                                state: QuoteState::Locked,
                                ..self.request.quotes[i]
                            },
                            QuoteState::Live => Quote {
                                state: QuoteState::Released,
                                ..self.request.quotes[i]
                            },
                            _ => self.request.quotes[i],
                        },
                ),
                ..self.request
            },
            reservations: Seq::new(
                self.reservations.len(),
                |i: int|
                    if self.request.quotes[i].holds_collateral() {
                        None
                    } else {
                        self.reservations[i]
                    },
            ),
            ..self
        }
    }

    /// Whether the balances have room for everything to go into escrow, and then for the
    /// collateral of the other quotes.
    pub open spec fn room_to_lock(self, ledger: LedgerModel) -> bool {
        ledger.has_room(
            lock_moves(self.planned_items()) + self.release_moves(
                Scope::Losing,
                self.request.quotes.len() as int,
            ),
        )
    }

    /// The entry once everything is in escrow.
    pub open spec fn lock(self, handles: Seq<EscrowHandle>) -> EntryModel {
        let sorted = self.lock_selected_release_losers();
        EntryModel {
            request: RequestModel {
                escrows: self.planned_escrows(),
                state: RequestState::Locked,
                ..sorted.request
            },
            handles: self.handles_by_role(handles),
            ..sorted
        }
    }

    /// The ledger once every leg was paid to its winner.
    pub open spec fn settle_holds(
        self,
        ledger: LedgerModel,
        outcome: OracleOutcome,
    ) -> LedgerModel {
        pay_legs(
            ledger,
            self.request.escrows,
            self.handles,
            outcome,
            self.request.escrows.len() as int,
        )
    }

    /// Whether the balances and the records of payments have room for that.
    pub open spec fn room_to_settle(self, ledger: LedgerModel, outcome: OracleOutcome) -> bool {
        ledger.has_room(
            pay_moves(
                self.request.escrows,
                self.handles,
                outcome,
                self.request.escrows.len() as int,
            ),
        )
    }

    /// The entry then.
    pub open spec fn settle(self) -> EntryModel {
        EntryModel { handles: Seq::empty(), ..self.in_state(RequestState::Settled) }
    }

    /// The ledger once every chunk went back to its poster.
    pub open spec fn unwind_holds(self, ledger: LedgerModel) -> LedgerModel {
        refund_legs(ledger, self.handles, self.request.escrows.len() as int)
    }

    /// Whether the balances have room for that.
    pub open spec fn room_to_unwind(self, ledger: LedgerModel) -> bool {
        ledger.has_room(refund_moves(self.handles, self.request.escrows.len() as int))
    }

    /// The entry then.
    pub open spec fn unwind(self) -> EntryModel {
        EntryModel { handles: Seq::empty(), ..self.in_state(RequestState::Unwound) }
    }

    /// Whether both sides of every leg are in escrow.
    pub open spec fn in_escrow(self) -> bool {
        self.request.state is Locked || self.request.state is Reported
            || self.request.state is Disputed
    }

    /// The leg that is found under the identifier of the `i`-th one: itself, unless an earlier leg
    /// has the same.
    pub open spec fn named_leg(self, i: int) -> Leg {
        self.request.legs[self.request.leg_index(self.request.legs[i].id)->Some_0]
    }

    /// Whether every leg is found under its own identifier, so that what is in escrow for it can
    /// be found and let go.
    pub open spec fn traceable(self) -> bool {
        request::legs_distinct(self.request.legs)
    }

    /// What is in escrow for this request: the notionals of its legs.
    pub open spec fn escrow_due(self) -> int {
        if self.in_escrow() {
            seqs::sum_by(self.request.escrows, |escrow: Escrow| escrow.notional.0 as int)
        } else {
            0
        }
    }

    /// Whether `party` is the requester or the maker of a locked quote.
    pub open spec fn is_party(self, party: PartyId) -> bool {
        party == self.request.requester || exists|i: int|
            0 <= i < self.request.quotes.len() && (#[trigger] self.request.quotes[i]).maker
                == party && self.request.quotes[i].state is Locked
    }
}

/// The venue: its ledger, its terms, and its requests in the order in which they came.
#[verifier::ext_equal]
pub struct EngineModel {
    pub ledger: LedgerModel,
    pub config: EngineConfig,
    pub entries: Seq<EntryModel>,
    pub next_seq: SeqNo,
}

/// What a command does: the venue after it and the answer.
pub struct Outcome<T> {
    pub venue: EngineModel,
    pub answer: Result<T, EngineError>,
}

impl EngineModel {
    /// The index of the request with this identifier.
    pub open spec fn find(self, id: RequestId) -> Option<int> {
        seqs::first_where(self.entries, |e: EntryModel| e.request.id == id)
    }

    /// The index of the request that the quote with this identifier is on.
    pub open spec fn find_quote(self, id: QuoteId) -> Option<int> {
        seqs::first_where(self.entries, |e: EntryModel| e.request.quote_index(id) is Some)
    }

    /// The venue with this ledger and this `i`-th entry.
    pub open spec fn with_entry(
        self,
        ledger: LedgerModel,
        i: int,
        entry: EntryModel,
    ) -> EngineModel {
        EngineModel { ledger, entries: self.entries.update(i, entry), ..self }
    }

    /// A command that is refused and changes nothing.
    pub open spec fn refuse<T>(self, e: EngineError) -> Outcome<T> {
        Outcome { venue: self, answer: Err(e) }
    }

    /// A command that leaves this ledger and this `i`-th entry and answers with the request.
    pub open spec fn update(
        self,
        ledger: LedgerModel,
        i: int,
        entry: EntryModel,
    ) -> Outcome<RequestModel> {
        Outcome { venue: self.with_entry(ledger, i, entry), answer: Ok(entry.request) }
    }

    /// Why a new request is refused, if it is.
    pub open spec fn request_refusal(
        self,
        now: Timestamp,
        legs: Seq<Leg>,
        tenor: Tenor,
        response_deadline: Timestamp,
    ) -> Option<EngineError> {
        if response_deadline@ <= now@ {
            Some(EngineError::DeadlineInPast)
        } else if !(now.plus(self.config.max_response_horizon) matches Some(horizon)
            && response_deadline@ <= horizon@) || response_deadline.plus(
            self.config.accept_window,
        ) is None || response_deadline.plus(tenor.spec_duration()) is None {
            Some(EngineError::DeadlineBeyondHorizon)
        } else if legs.len() == 0 {
            Some(EngineError::EmptyLegs)
        } else {
            None
        }
    }

    /// A new request.
    pub open spec fn submit_request(
        self,
        now: Timestamp,
        id: RequestId,
        requester: PartyId,
        legs: Seq<Leg>,
        tenor: Tenor,
        response_deadline: Timestamp,
    ) -> Outcome<RequestModel> {
        match self.request_refusal(now, legs, tenor, response_deadline) {
            Some(e) => self.refuse(e),
            None => {
                let request = RequestModel::opened(
                    id,
                    requester,
                    legs,
                    tenor,
                    response_deadline,
                    response_deadline.plus(tenor.spec_duration())->Some_0,
                    now,
                );
                let entry = EntryModel {
                    request,
                    reservations: Seq::empty(),
                    handles: Seq::empty(),
                };
                Outcome {
                    venue: EngineModel { entries: self.entries.push(entry), ..self },
                    answer: Ok(request),
                }
            },
        }
    }

    /// Why a new quote is refused, if it is, whatever the maker's funds.
    pub open spec fn quote_refusal(
        self,
        now: Timestamp,
        maker: PartyId,
        request_id: RequestId,
        leg_id: LegId,
        size: Amount,
        expires_at: Timestamp,
    ) -> Option<EngineError> {
        match self.find(request_id) {
            None => Some(EngineError::NotFound),
            Some(i) => {
                let request = self.entries[i].request;
                if request.state !is Open {
                    Some(
                        EngineError::WrongState {
                            expected: RequestState::Open,
                            actual: request.state,
                        },
                    )
                } else if maker == request.requester {
                    Some(EngineError::SelfQuote)
                } else {
                    match request.leg_index(leg_id) {
                        None => Some(EngineError::NotFound),
                        Some(l) => if expires_at@ <= now@ {
                            Some(EngineError::QuoteExpired)
                        } else if size.0 < request.legs[l].notional.0 {
                            Some(EngineError::QuoteTooSmall)
                        } else if expires_at@ < request.response_deadline.plus(
                            self.config.accept_window,
                        )->Some_0@ {
                            Some(EngineError::QuoteExpiresBeforeAcceptWindow)
                        } else {
                            None
                        },
                    }
                }
            },
        }
    }

    /// A new quote, with the maker's collateral reserved.
    pub open spec fn submit_quote(
        self,
        now: Timestamp,
        id: QuoteId,
        maker: PartyId,
        request_id: RequestId,
        leg_id: LegId,
        price: Price,
        size: Amount,
        expires_at: Timestamp,
    ) -> Outcome<Quote> {
        match self.quote_refusal(now, maker, request_id, leg_id, size, expires_at) {
            Some(e) => self.refuse(e),
            None => {
                let i = self.find(request_id)->Some_0;
                let entry = self.entries[i];
                let quote = Quote {
                    id,
                    leg_id,
                    maker,
                    price,
                    size,
                    expires_at,
                    submitted_at: now,
                    seq: self.next_seq,
                    state: QuoteState::Live,
                };
                let lock = quote.collateral(
                    entry.request.legs[entry.request.leg_index(leg_id)->Some_0],
                );
                let available = self.ledger.account(maker).account().free;
                if self.ledger.account(maker).free < lock.0 {
                    self.refuse(
                        EngineError::InsufficientFunds { party: maker, needed: lock, available },
                    )
                } else {
                    let quoted = EntryModel {
                        request: RequestModel {
                            quotes: entry.request.quotes.push(quote),
                            ..entry.request
                        },
                        reservations: entry.reservations.push(
                            Some(ReservationId(self.ledger.slots.len() as u64)),
                        ),
                        ..entry
                    };
                    Outcome {
                        venue: EngineModel {
                            next_seq: SeqNo((self.next_seq.0 + 1) as u64),
                            ..self.with_entry(self.ledger.reserve(maker, lock), i, quoted)
                        },
                        answer: Ok(quote),
                    }
                }
            },
        }
    }

    /// A maker's own live quote taken back while the request is open.
    pub open spec fn cancel_quote(self, maker: PartyId, quote_id: QuoteId) -> Outcome<()> {
        match self.find_quote(quote_id) {
            None => self.refuse(EngineError::NotFound),
            Some(i) => {
                let entry = self.entries[i];
                let quote = entry.request.quotes[entry.request.quote_index(quote_id)->Some_0];
                if quote.maker != maker {
                    self.refuse(EngineError::NotOwner)
                } else if entry.request.state !is Open {
                    self.refuse(
                        EngineError::WrongState {
                            expected: RequestState::Open,
                            actual: entry.request.state,
                        },
                    )
                } else if quote.state !is Live {
                    self.refuse(EngineError::QuoteNotLive)
                } else {
                    Outcome {
                        venue: self.with_entry(
                            entry.release_all_holds(self.ledger, Scope::Named(quote_id)),
                            i,
                            entry.release(Scope::Named(quote_id)),
                        ),
                        answer: Ok(()),
                    }
                }
            },
        }
    }

    /// Why the requester's answer to a package is refused, if it is.
    pub open spec fn answer_refusal(
        self,
        requester: PartyId,
        request_id: RequestId,
    ) -> Option<EngineError> {
        match self.find(request_id) {
            None => Some(EngineError::NotFound),
            Some(i) => {
                let request = self.entries[i].request;
                if request.requester != requester {
                    Some(EngineError::NotOwner)
                } else if request.state !is Presented {
                    Some(
                        EngineError::WrongState {
                            expected: RequestState::Presented,
                            actual: request.state,
                        },
                    )
                } else {
                    None
                }
            },
        }
    }

    /// The `i`-th request failed, with whatever was reserved for it released.
    pub open spec fn fail_at(
        self,
        ledger: LedgerModel,
        i: int,
        reason: FailReason,
    ) -> EngineModel {
        self.with_entry(
            self.entries[i].release_all_holds(ledger, Scope::All),
            i,
            self.entries[i].fail(reason),
        )
    }

    /// Whether a quote can be taken: the maker's reserved balance has room for its collateral, and
    /// quotes can be counted on.
    pub open spec fn room_to_quote(
        self,
        now: Timestamp,
        id: QuoteId,
        maker: PartyId,
        request_id: RequestId,
        leg_id: LegId,
        price: Price,
        size: Amount,
        expires_at: Timestamp,
    ) -> bool {
        let done = self.submit_quote(
            now,
            id,
            maker,
            request_id,
            leg_id,
            price,
            size,
            expires_at,
        );
        done.answer is Ok ==> done.venue.ledger.fits() && self.next_seq.0 < u64::MAX
    }

    /// Whether a quote can be cancelled: its maker's free balance has room for its collateral.
    pub open spec fn room_to_cancel(self, maker: PartyId, quote_id: QuoteId) -> bool {
        self.cancel_quote(maker, quote_id).answer is Ok ==> self.entries[self.find_quote(
            quote_id,
        )->Some_0].room_to_release(self.ledger, Scope::Named(quote_id))
    }

    /// Whether a package can be turned down: the makers' free balances have room for what was
    /// reserved.
    pub open spec fn room_to_reject(self, requester: PartyId, request_id: RequestId) -> bool {
        self.reject(requester, request_id).answer is Ok ==> self.entries[self.find(
            request_id,
        )->Some_0].room_to_release(self.ledger, Scope::All)
    }

    /// The package accepted: everything goes into escrow in one batch. Too late, or with a
    /// requester who cannot fund its side, the request fails instead. `None` where a balance has
    /// no room for what moves, or one quote is the best for two legs with one identifier: its
    /// collateral cannot be used twice.
    pub open spec fn accept(
        self,
        now: Timestamp,
        requester: PartyId,
        request_id: RequestId,
    ) -> Option<Outcome<RequestModel>> {
        match self.answer_refusal(requester, request_id) {
            Some(e) => Some(self.refuse(e)),
            None => {
                let i = self.find(request_id)->Some_0;
                let entry = self.entries[i];
                if now@ > entry.request.accept_deadline->Some_0@ {
                    if !entry.room_to_release(self.ledger, Scope::All) {
                        None
                    } else {
                        Some(
                            Outcome {
                                venue: self.fail_at(
                                    self.ledger,
                                    i,
                                    FailReason::AcceptWindowExpired,
                                ),
                                answer: Err(
                                    EngineError::WrongState {
                                        expected: RequestState::Presented,
                                        actual: RequestState::Failed,
                                    },
                                ),
                            },
                        )
                    }
                } else {
                    let items = entry.planned_items();
                    match self.ledger.batch_error(items) {
                        Some(LockBatchError::InsufficientFunds(e)) => {
                            if !entry.room_to_release(self.ledger, Scope::All) {
                                None
                            } else {
                                Some(
                                    Outcome {
                                        venue: self.fail_at(
                                            self.ledger.lock_batch(items),
                                            i,
                                            FailReason::InsufficientRequesterFunds,
                                        ),
                                        answer: Err(
                                            EngineError::InsufficientFunds {
                                                party: e.party,
                                                needed: e.needed,
                                                available: e.available,
                                            },
                                        ),
                                    },
                                )
                            }
                        },
                        Some(LockBatchError::UnknownReservation(_)) => None,
                        None => {
                            if !entry.room_to_lock(self.ledger) {
                                None
                            } else {
                                Some(
                                    self.update(
                                        entry.release_all_holds(
                                            self.ledger.lock_batch(items),
                                            Scope::Losing,
                                        ),
                                        i,
                                        entry.lock(self.ledger.batch_handles(items)),
                                    ),
                                )
                            }
                        },
                    }
                }
            },
        }
    }

    /// The package turned down.
    pub open spec fn reject(
        self,
        requester: PartyId,
        request_id: RequestId,
    ) -> Outcome<RequestModel> {
        match self.answer_refusal(requester, request_id) {
            Some(e) => self.refuse(e),
            None => {
                let i = self.find(request_id)->Some_0;
                Outcome {
                    venue: self.fail_at(self.ledger, i, FailReason::Rejected),
                    answer: Ok(self.entries[i].fail(FailReason::Rejected).request),
                }
            },
        }
    }

    /// When a dispute that begins at `now` unwinds, where disputes have a limit. `None` where that
    /// instant is off the calendar.
    pub open spec fn unwind_at(self, now: Timestamp) -> Option<Option<Timestamp>> {
        match self.config.unwind_timeout {
            None => Some(None),
            Some(timeout) => match now.plus(timeout) {
                Some(deadline) => Some(Some(deadline)),
                None => None,
            },
        }
    }

    /// The `i`-th request under dispute.
    pub open spec fn dispute_at(self, now: Timestamp, i: int) -> Option<Outcome<RequestModel>> {
        let entry = self.entries[i];
        match self.unwind_at(now) {
            None => None,
            Some(unwind_deadline) => Some(
                self.update(
                    self.ledger,
                    i,
                    EntryModel {
                        request: RequestModel {
                            unwind_deadline,
                            state: RequestState::Disputed,
                            ..entry.request
                        },
                        ..entry
                    },
                ),
            ),
        }
    }

    /// The `i`-th request with a reported outcome that pays out once `window` is over.
    pub open spec fn report_at(
        self,
        now: Timestamp,
        window: Span,
        i: int,
        outcome: OracleOutcome,
    ) -> Option<Outcome<RequestModel>> {
        let entry = self.entries[i];
        match now.plus(window) {
            None => None,
            Some(deadline) => Some(
                self.update(
                    self.ledger,
                    i,
                    EntryModel {
                        request: RequestModel {
                            reported_outcome: Some(outcome),
                            dispute_deadline: Some(deadline),
                            state: RequestState::Reported,
                            ..entry.request
                        },
                        ..entry
                    },
                ),
            ),
        }
    }

    /// An outcome from the oracle. `None` where a payment has no room, a new deadline is off the
    /// calendar, or what is in escrow for the legs cannot be told apart.
    pub open spec fn resolve(
        self,
        now: Timestamp,
        request_id: RequestId,
        outcome: OracleOutcome,
    ) -> Option<Outcome<RequestModel>> {
        match self.find(request_id) {
            None => Some(self.refuse(EngineError::NotFound)),
            Some(i) => {
                let entry = self.entries[i];
                match (entry.request.state, outcome) {
                    (RequestState::Locked, OracleOutcome::Yes | OracleOutcome::No) => {
                        match self.config.dispute_window {
                            Some(window) => self.report_at(now, window, i, outcome),
                            None => self.settle_at(i, outcome),
                        }
                    },
                    (RequestState::Locked, OracleOutcome::Disputed) => self.dispute_at(now, i),
                    (RequestState::Locked | RequestState::Disputed, OracleOutcome::Invalid) => {
                        self.unwind_at_once(i)
                    },
                    (RequestState::Disputed, OracleOutcome::Yes | OracleOutcome::No) => {
                        self.settle_at(i, outcome)
                    },
                    (RequestState::Disputed, OracleOutcome::Disputed) => Some(
                        Outcome { venue: self, answer: Ok(entry.request) },
                    ),
                    _ => Some(
                        self.refuse(
                            EngineError::WrongState {
                                expected: RequestState::Locked,
                                actual: entry.request.state,
                            },
                        ),
                    ),
                }
            },
        }
    }

    /// The `i`-th request paid out. `None` where a payment has no room, or what is in escrow for
    /// the legs cannot be told apart.
    pub open spec fn settle_at(
        self,
        i: int,
        outcome: OracleOutcome,
    ) -> Option<Outcome<RequestModel>> {
        if !self.entries[i].traceable() || !self.entries[i].room_to_settle(self.ledger, outcome) {
            None
        } else {
            Some(
                self.update(
                    self.entries[i].settle_holds(self.ledger, outcome),
                    i,
                    self.entries[i].settle(),
                ),
            )
        }
    }

    /// The `i`-th request refunded. `None` where a balance has no room, or what is in escrow for
    /// the legs cannot be told apart.
    pub open spec fn unwind_at_once(self, i: int) -> Option<Outcome<RequestModel>> {
        if !self.entries[i].traceable() || !self.entries[i].room_to_unwind(self.ledger) {
            None
        } else {
            Some(
                self.update(
                    self.entries[i].unwind_holds(self.ledger),
                    i,
                    self.entries[i].unwind(),
                ),
            )
        }
    }

    /// A reported outcome disputed by one of the parties. `None` where the deadline of the
    /// dispute is off the calendar.
    pub open spec fn dispute(
        self,
        now: Timestamp,
        party: PartyId,
        request_id: RequestId,
    ) -> Option<Outcome<RequestModel>> {
        match self.find(request_id) {
            None => Some(self.refuse(EngineError::NotFound)),
            Some(i) => {
                let entry = self.entries[i];
                if !entry.is_party(party) {
                    Some(self.refuse(EngineError::NotOwner))
                } else if entry.request.state !is Reported {
                    Some(
                        self.refuse(
                            EngineError::WrongState {
                                expected: RequestState::Reported,
                                actual: entry.request.state,
                            },
                        ),
                    )
                } else {
                    self.dispute_at(now, i)
                }
            },
        }
    }

    /// The `i`-th request moved on by the clock. `None` where a balance has no room, a new
    /// deadline is off the calendar, or what is in escrow for the legs cannot be told apart.
    pub open spec fn tick_entry(self, now: Timestamp, i: int) -> Option<EngineModel> {
        let entry = self.entries[i];
        let request = entry.request;
        match request.state {
            RequestState::Open => {
                let ledger = entry.release_all_holds(self.ledger, Scope::Expired(now));
                let fresh = entry.release(Scope::Expired(now));
                if !entry.room_to_release(self.ledger, Scope::Expired(now)) {
                    None
                } else if now@ < request.response_deadline@ {
                    Some(self.with_entry(ledger, i, fresh))
                } else {
                    match now.plus(self.config.accept_window) {
                        None => None,
                        Some(close) => {
                            let accept_deadline = close.earlier(request.resolves_at);
                            if fresh.unmatched(now, accept_deadline) is Some
                                && !fresh.room_to_release(ledger, Scope::All) {
                                None
                            } else {
                                Some(
                                    self.with_entry(
                                        fresh.present_or_fail_holds(ledger, now, accept_deadline),
                                        i,
                                        fresh.present_or_fail(now, accept_deadline),
                                    ),
                                )
                            }
                        },
                    }
                }
            },
            RequestState::Presented => if now@ > request.accept_deadline->Some_0@ {
                if !entry.room_to_release(self.ledger, Scope::All) {
                    None
                } else {
                    Some(self.fail_at(self.ledger, i, FailReason::AcceptWindowExpired))
                }
            } else {
                Some(self)
            },
            RequestState::Reported => if now@ > request.dispute_deadline->Some_0@ {
                match self.settle_at(i, request.reported_outcome->Some_0) {
                    Some(done) => Some(done.venue),
                    None => None,
                }
            } else {
                Some(self)
            },
            RequestState::Disputed => match request.unwind_deadline {
                Some(deadline) => if now@ > deadline@ {
                    match self.unwind_at_once(i) {
                        Some(done) => Some(done.venue),
                        None => None,
                    }
                } else {
                    Some(self)
                },
                None => Some(self),
            },
            _ => Some(self),
        }
    }

    /// The first `k` requests moved on by the clock.
    pub open spec fn tick_first(self, now: Timestamp, k: int) -> Option<EngineModel>
        decreases k,
    {
        if k <= 0 {
            Some(self)
        } else {
            match self.tick_first(now, k - 1) {
                Some(venue) => venue.tick_entry(now, k - 1),
                None => None,
            }
        }
    }

    /// Every request moved on by the clock: expired quotes go, packages are presented, windows
    /// close. `None` where one of them cannot be moved on.
    pub open spec fn tick(self, now: Timestamp) -> Option<EngineModel> {
        self.tick_first(now, self.entries.len() as int)
    }

    /// Whether the clock has moved on the requests before one that cannot be, and no others.
    pub open spec fn stops_at(self, now: Timestamp, w: EngineModel) -> bool {
        exists|k: int|
            {
                &&& 0 <= k < self.entries.len()
                &&& #[trigger] self.tick_first(now, k) == Some(w)
                &&& w.tick_entry(now, k) is None
            }
    }

    /// What is in escrow for all requests together.
    pub open spec fn escrow_due(self) -> int {
        seqs::sum_by(self.entries, |e: EntryModel| e.escrow_due())
    }

    /// Whether everything in escrow is there for a request, and is its notionals.
    pub open spec fn escrow_matches(self) -> bool {
        self.ledger.escrowed_total() == self.escrow_due()
    }
}

} // verus!
