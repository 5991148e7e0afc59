//! The engine: one command at a time, each as the model has it.
use vstd::pervasive::unreached;
use vstd::prelude::*;
use crate::domain::ids::{LegId, PartyId, QuoteId, RequestId, SeqNo};
use crate::domain::money::{Amount, Price};
use crate::domain::request;
use crate::domain::request::{Leg, Quote, RequestModel, RfqRequest};
use crate::domain::state::{FailReason, OracleOutcome, QuoteState, RequestState, Tenor};
use crate::engine::entry;
use crate::engine::entry::Entry;
use crate::engine::error::EngineError;
use crate::engine::model;
use crate::engine::model::{EngineConfig, EngineModel, EntryModel, Scope};
use crate::engine::{keeps, room};
use crate::ledger::{Ledger, LedgerAccount, LockBatchError, Move};
use crate::ledger::laws;
use crate::seqs;
use crate::time::{Span, Timestamp};

verus! {

impl Default for EngineConfig {
    fn default() -> (config: EngineConfig)
        ensures
            config.accept_window == Span::of(60, 0),
            config.max_response_horizon == Span::of(31_536_000, 0),
            config.dispute_window == Some(Span::of(60, 0)),
            config.unwind_timeout == Some(Span::of(86_400, 0)),
            config.accept_window@ == 60_000_000_000,
            config.max_response_horizon@ == 31_536_000_000_000_000,
            config.dispute_window->Some_0@ == 60_000_000_000,
            config.unwind_timeout->Some_0@ == 86_400_000_000_000,
    {
        EngineConfig {
            accept_window: Span::seconds(60),
            max_response_horizon: Span::seconds(31_536_000),
            dispute_window: Some(Span::seconds(60)),
            unwind_timeout: Some(Span::seconds(86_400)),
        }
    }
}

/// Every request of the venue, and the ledger behind them.
pub struct Engine<L: Ledger> {
    ledger: L,
    config: EngineConfig,
    entries: Vec<Entry>,
    next_seq: SeqNo,
}

impl<L: Ledger> View for Engine<L> {
    type V = EngineModel;

    closed spec fn view(&self) -> EngineModel {
        EngineModel {
            ledger: self.ledger.model(),
            config: self.config,
            entries: Seq::new(self.entries@.len(), |i: int| self.entries@[i]@),
            next_seq: self.next_seq,
        }
    }
}

/// Whether an answer is the one of the model.
pub open spec fn answers(
    answer: Result<RfqRequest, EngineError>,
    model: Result<RequestModel, EngineError>,
) -> bool {
    match model {
        Ok(request) => answer is Ok && answer->Ok_0@ == request,
        Err(e) => answer is Err && answer->Err_0 == e,
    }
}

impl<L: Ledger> Engine<L> {
    /// A venue without requests.
    pub fn new(ledger: L, config: EngineConfig) -> (engine: Engine<L>)
        requires
            ledger.model().wf(),
        ensures
            engine@ == (EngineModel {
                ledger: ledger.model(),
                config,
                entries: Seq::empty(),
                next_seq: SeqNo(0),
            }),
            engine@.wf(),
            ledger.model().escrowed_total() == 0 ==> engine@.escrow_matches(),
    {
        let engine = Engine { ledger, config, entries: Vec::new(), next_seq: SeqNo(0) };
        proof {
            assert(engine@.entries =~= Seq::empty());
            keeps::lemma_new_venue(engine@);
        }
        engine
    }

    /// The ledger behind the venue.
    pub fn ledger(&self) -> (ledger: &L)
        ensures
            ledger.model() == self@.ledger,
    {
        &self.ledger
    }

    /// The venue's terms.
    pub fn config(&self) -> (config: EngineConfig)
        ensures
            config == self@.config,
    {
        self.config
    }

    /// The number of the next quote.
    pub fn next_seq(&self) -> (seq: SeqNo)
        ensures
            seq == self@.next_seq,
    {
        self.next_seq
    }

    /// The index of the request with this identifier.
    fn find(&self, id: RequestId) -> (index: Option<usize>)
        ensures
            index is Some <==> self@.find(id) is Some,
            index is Some ==> self@.find(id) == Some(index->Some_0 as int),
            index is Some ==> index->Some_0 < self.entries@.len(),
    {
        let ghost named = |e: EntryModel| e.request.id == id;
        let mut i: usize = 0;
        while i < self.entries.len()
            invariant
                0 <= i <= self.entries@.len(),
                named == (|e: EntryModel| e.request.id == id),
                forall|j: int| 0 <= j < i ==> !named(#[trigger] self@.entries[j]),
            decreases self.entries@.len() - i,
        {
            if self.entries[i].request.id == id {
                proof {
                    seqs::lemma_first_is(self@.entries, named, i as int);
                }
                return Some(i);
            }
            i = i + 1;
        }
        proof {
            seqs::lemma_first_none(self@.entries, named);
        }
        None
    }

    /// The index of the request that the quote with this identifier is on.
    fn find_by_quote(&self, id: QuoteId) -> (index: Option<usize>)
        ensures
            index is Some <==> self@.find_quote(id) is Some,
            index is Some ==> self@.find_quote(id) == Some(index->Some_0 as int),
            index is Some ==> index->Some_0 < self.entries@.len(),
    {
        let ghost named = |e: EntryModel| e.request.quote_index(id) is Some;
        let mut i: usize = 0;
        while i < self.entries.len()
            invariant
                0 <= i <= self.entries@.len(),
                named == (|e: EntryModel| e.request.quote_index(id) is Some),
                forall|j: int| 0 <= j < i ==> !named(#[trigger] self@.entries[j]),
            decreases self.entries@.len() - i,
        {
            if self.entries[i].request.find_quote(id).is_some() {
                proof {
                    seqs::lemma_first_is(self@.entries, named, i as int);
                }
                return Some(i);
            }
            i = i + 1;
        }
        proof {
            seqs::lemma_first_none(self@.entries, named);
        }
        None
    }

    /// Whether a request has this identifier.
    pub fn has_request(&self, id: RequestId) -> (b: bool)
        ensures
            b == !keeps::request_id_fresh(self@, id),
    {
        self.find(id).is_some()
    }

    /// Whether a quote has this identifier.
    pub fn has_quote(&self, id: QuoteId) -> (b: bool)
        ensures
            b == !keeps::quote_id_fresh(self@, id),
    {
        self.find_by_quote(id).is_some()
    }

    /// The request with this identifier.
    pub fn get_request(&self, request_id: RequestId) -> (answer: Result<RfqRequest, EngineError>)
        ensures
            answers(
                answer,
                match self@.find(request_id) {
                    Some(i) => Ok(self@.entries[i].request),
                    None => Err(EngineError::NotFound),
                },
            ),
    {
        match self.find(request_id) {
            Some(i) => Ok(self.entries[i].request.clone()),
            None => Err(EngineError::NotFound),
        }
    }

    pub fn balance(&self, party: PartyId) -> (account: LedgerAccount)
        ensures
            account@ == self@.ledger.account(party),
    {
        self.ledger.balance(party)
    }

    /// Adds `amount` to the free balance of `party`.
    pub fn credit(&mut self, party: PartyId, amount: Amount) -> (account: LedgerAccount)
        requires
            old(self)@.wf(),
            old(self)@.ledger.credit(party, amount).fits(),
        ensures
            final(self)@ == (EngineModel {
                ledger: old(self)@.ledger.credit(party, amount),
                ..old(self)@
            }),
            account@ == final(self)@.ledger.account(party),
            final(self)@.wf(),
            old(self)@.escrow_matches() ==> final(self)@.escrow_matches(),
    {
        let ghost v = self@;
        self.ledger.credit(party, amount);
        proof {
            assert(self@.entries =~= v.entries);
            keeps::lemma_credit_wf(v, party, amount);
        }
        self.ledger.balance(party)
    }

    /// Opens a request under this identifier.
    pub fn submit_request(
        &mut self,
        now: Timestamp,
        id: RequestId,
        requester: PartyId,
        legs: Vec<Leg>,
        tenor: Tenor,
        response_deadline: Timestamp,
    ) -> (answer: Result<RfqRequest, EngineError>)
        requires
            old(self)@.wf(),
            keeps::request_id_fresh(old(self)@, id),
        ensures
            ({
                let done = old(self)@.submit_request(
                    now,
                    id,
                    requester,
                    legs@,
                    tenor,
                    response_deadline,
                );
                final(self)@ == done.venue && answers(answer, done.answer)
            }),
            final(self)@.wf(),
            old(self)@.escrow_matches() ==> final(self)@.escrow_matches(),
    {
        let ghost v = self@;
        proof {
            keeps::lemma_submit_request_wf(
                v,
                now,
                id,
                requester,
                legs@,
                tenor,
                response_deadline,
            );
        }
        if !now.is_before(response_deadline) {
            return Err(EngineError::DeadlineInPast);
        }
        let within_horizon = match now.checked_add(self.config.max_response_horizon) {
            Some(horizon) => !horizon.is_before(response_deadline),
            None => false,
        };
        let summable = response_deadline.checked_add(self.config.accept_window).is_some();
        let resolves_at = match response_deadline.checked_add(tenor.duration()) {
            Some(resolves_at) => if within_horizon && summable {
                resolves_at
            } else {
                return Err(EngineError::DeadlineBeyondHorizon);
            },
            None => {
                return Err(EngineError::DeadlineBeyondHorizon);
            },
        };
        match RfqRequest::open(
            id,
            requester,
            legs,
            tenor,
            response_deadline,
            resolves_at,
            now,
        ) {
            Ok(request) => {
                let copy = request.clone();
                let entry = Entry {
                    request,
                    reservations: Vec::new(),
                    handles: Vec::new(),
                };
                proof {
                    assert(entry@.reservations =~= Seq::empty());
                    assert(entry@.handles =~= Seq::empty());
                }
                self.entries.push(entry);
                proof {
                    assert(self@.entries =~= v.entries.push(entry@));
                }
                Ok(copy)
            },
            Err(e) => Err(EngineError::from(e)),
        }
    }

    /// The request that a quote is for, the quote, and the collateral for it.
    fn quote(
        &self,
        now: Timestamp,
        id: QuoteId,
        maker: PartyId,
        request_id: RequestId,
        leg_id: LegId,
        price: Price,
        size: Amount,
        expires_at: Timestamp,
    ) -> (quoted: Result<(usize, Quote, Amount), EngineError>)
        requires
            self@.wf(),
        ensures
            match self@.quote_refusal(now, maker, request_id, leg_id, size, expires_at) {
                Some(e) => quoted is Err && quoted->Err_0 == e,
                None => {
                    &&& quoted is Ok
                    &&& self@.find(request_id) == Some(quoted->Ok_0.0 as int)
                    &&& quoted->Ok_0.0 < self@.entries.len()
                    &&& quoted->Ok_0.1 == (Quote {
                        id,
                        leg_id,
                        maker,
                        price,
                        size,
                        expires_at,
                        submitted_at: now,
                        seq: self@.next_seq,
                        state: QuoteState::Live,
                    })
                    &&& quoted->Ok_0.2 == ({
                        let request = self@.entries[quoted->Ok_0.0 as int].request;
                        quoted->Ok_0.1.collateral(
                            request.legs[request.leg_index(leg_id)->Some_0],
                        )
                    })
                },
            },
    {
        let ghost v = self@;
        proof {
            keeps::lemma_found(v, request_id);
        }
        let i: usize = match self.find(request_id) {
            Some(i) => i,
            None => {
                return Err(EngineError::NotFound);
            },
        };
        proof {
            keeps::lemma_entry_sound(v, i as int);
        }
        if let Err(e) = entry::expect_state(&self.entries[i].request, RequestState::Open) {
            return Err(e);
        }
        if maker == self.entries[i].request.requester {
            return Err(EngineError::SelfQuote);
        }
        let l: usize = match self.entries[i].request.find_leg(leg_id) {
            Some(l) => l,
            None => {
                return Err(EngineError::NotFound);
            },
        };
        if !now.is_before(expires_at) {
            return Err(EngineError::QuoteExpired);
        }
        if size.0 < self.entries[i].request.legs[l].notional.0 {
            return Err(EngineError::QuoteTooSmall);
        }
        let response_deadline = self.entries[i].request.response_deadline;
        if let Some(close) = response_deadline.checked_add(self.config.accept_window) {
            if expires_at.is_before(close) {
                return Err(EngineError::QuoteExpiresBeforeAcceptWindow);
            }
        }
        let quote = Quote {
            id,
            leg_id,
            maker,
            price,
            size,
            expires_at,
            submitted_at: now,
            seq: self.next_seq,
            state: QuoteState::Live,
        };
        let lock = quote.maker_lock(&self.entries[i].request.legs[l]);
        Ok((i, quote, lock))
    }

    /// Takes a quote under this identifier, with the maker's collateral reserved.
    pub fn submit_quote(
        &mut self,
        now: Timestamp,
        id: QuoteId,
        maker: PartyId,
        request_id: RequestId,
        leg_id: LegId,
        price: Price,
        size: Amount,
        expires_at: Timestamp,
    ) -> (answer: Result<Quote, EngineError>)
        requires
            old(self)@.wf(),
            keeps::quote_id_fresh(old(self)@, id),
            old(self)@.room_to_quote(
                now,
                id,
                maker,
                request_id,
                leg_id,
                price,
                size,
                expires_at,
            ),
        ensures
            ({
                let done = old(self)@.submit_quote(
                    now,
                    id,
                    maker,
                    request_id,
                    leg_id,
                    price,
                    size,
                    expires_at,
                );
                final(self)@ == done.venue && answer == done.answer
            }),
            final(self)@.wf(),
            old(self)@.escrow_matches() ==> final(self)@.escrow_matches(),
    {
        let ghost v = self@;
        let (i, quote, lock) = match self.quote(
            now,
            id,
            maker,
            request_id,
            leg_id,
            price,
            size,
            expires_at,
        ) {
            Ok(quoted) => quoted,
            Err(e) => {
                return Err(e);
            },
        };
        proof {
            keeps::lemma_found(v, request_id);
            keeps::lemma_entry_sound(v, i as int);
            self.ledger.amounts_fit();
            assert(v.ledger.row(PartyId(maker.0)).fits());
        }
        match self.ledger.reserve(maker, lock) {
            Ok(reservation) => {
                proof {
                    use_type_invariant(&price);
                    keeps::lemma_submit_quote_wf(
                        v,
                        now,
                        id,
                        maker,
                        request_id,
                        leg_id,
                        price,
                        size,
                        expires_at,
                    );
                }
                self.next_seq = self.next_seq.next();
                let entry = &mut self.entries[i];
                entry.request.quotes.push(quote);
                entry.reservations.push(Some(reservation));
                proof {
                    let done = v.submit_quote(
                        now,
                        id,
                        maker,
                        request_id,
                        leg_id,
                        price,
                        size,
                        expires_at,
                    );
                    assert(self@.entries =~= done.venue.entries);
                }
                Ok(quote)
            },
            Err(e) => {
                proof {
                    assert(self@.entries =~= v.entries);
                }
                Err(EngineError::from(e))
            },
        }
    }

    /// Takes back a maker's own live quote while the request is open.
    pub fn cancel_quote(&mut self, maker: PartyId, quote_id: QuoteId) -> (answer: Result<
        (),
        EngineError,
    >)
        requires
            old(self)@.wf(),
            old(self)@.room_to_cancel(maker, quote_id),
        ensures
            ({
                let done = old(self)@.cancel_quote(maker, quote_id);
                final(self)@ == done.venue && answer == done.answer
            }),
            final(self)@.wf(),
            old(self)@.escrow_matches() ==> final(self)@.escrow_matches(),
    {
        let ghost v = self@;
        proof {
            keeps::lemma_cancel_quote_wf(v, maker, quote_id);
            keeps::lemma_quote_found(v, quote_id);
        }
        let i: usize = match self.find_by_quote(quote_id) {
            Some(i) => i,
            None => {
                return Err(EngineError::NotFound);
            },
        };
        proof {
            keeps::lemma_entry_sound(v, i as int);
        }
        let quote = match self.entries[i].request.find_quote(quote_id) {
            Some(q) => self.entries[i].request.quotes[q],
            None => {
                return Err(EngineError::NotFound);
            },
        };
        if quote.maker != maker {
            return Err(EngineError::NotOwner);
        }
        if let Err(e) = entry::expect_state(&self.entries[i].request, RequestState::Open) {
            return Err(e);
        }
        if quote.state != QuoteState::Live {
            return Err(EngineError::QuoteNotLive);
        }
        entry::release_quotes(&mut self.ledger, &mut self.entries[i], Scope::Named(quote_id));
        proof {
            assert(self@.entries =~= v.cancel_quote(maker, quote_id).venue.entries);
        }
        Ok(())
    }

    /// The index of the presented request whose requester answers.
    fn answered_entry(&self, requester: PartyId, request_id: RequestId) -> (index: Result<
        usize,
        EngineError,
    >)
        ensures
            match self@.answer_refusal(requester, request_id) {
                Some(e) => index == Err::<usize, EngineError>(e),
                None => index is Ok && self@.find(request_id) == Some(index->Ok_0 as int)
                    && index->Ok_0 < self.entries@.len(),
            },
    {
        match self.find(request_id) {
            None => Err(EngineError::NotFound),
            Some(i) => {
                if self.entries[i].request.requester != requester {
                    return Err(EngineError::NotOwner);
                }
                match entry::expect_state(&self.entries[i].request, RequestState::Presented) {
                    Ok(()) => Ok(i),
                    Err(e) => Err(e),
                }
            },
        }
    }

    /// Accepts the package: everything goes into escrow in one batch.
    pub fn accept(&mut self, now: Timestamp, requester: PartyId, request_id: RequestId) -> (answer:
        Result<RfqRequest, EngineError>)
        requires
            old(self)@.wf(),
            old(self)@.accept(now, requester, request_id) is Some,
        ensures
            ({
                let done = old(self)@.accept(now, requester, request_id)->Some_0;
                final(self)@ == done.venue && answers(answer, done.answer)
            }),
            final(self)@.wf(),
            old(self)@.escrow_matches() ==> final(self)@.escrow_matches(),
    {
        let ghost v = self@;
        let i: usize = match self.answered_entry(requester, request_id) {
            Ok(i) => i,
            Err(e) => {
                return Err(e);
            },
        };
        let ghost e = v.entries[i as int];
        proof {
            keeps::lemma_entry_sound(v, i as int);
            keeps::lemma_plan_ready(v, i as int);
        }
        let late = match self.entries[i].request.accept_deadline {
            Some(deadline) => deadline.is_before(now),
            None => false,
        };
        if late {
            proof {
                keeps::lemma_accept_wf(v, now, requester, request_id);
            }
            entry::fail_request(
                &mut self.ledger,
                &mut self.entries[i],
                FailReason::AcceptWindowExpired,
            );
            proof {
                let done = v.accept(now, requester, request_id)->Some_0;
                assert(self@.entries =~= done.venue.entries);
            }
            return Err(
                EngineError::WrongState {
                    expected: RequestState::Presented,
                    actual: RequestState::Failed,
                },
            );
        }
        let (escrows, items) = entry::escrow_plan(&self.entries[i]);
        proof {
            self.ledger.amounts_fit();
            if v.ledger.batch_error(e.planned_items()) is None {
                room::lemma_room_to_lock(e, v.ledger);
            }
            laws::lemma_run_counted(
                v.ledger,
                e.release_moves(Scope::All, e.request.quotes.len() as int),
            );
        }
        match self.ledger.lock_batch(items) {
            Ok(handles) => {
                proof {
                    keeps::lemma_accept_wf(v, now, requester, request_id);
                }
                let sorted = entry::sort_handles(&self.entries[i], &handles);
                entry::lock_selected_release_losers(&mut self.ledger, &mut self.entries[i]);
                let entry = &mut self.entries[i];
                entry.request.escrows = escrows;
                entry.request.state = RequestState::Locked;
                entry.handles = sorted;
                proof {
                    let done = v.accept(now, requester, request_id)->Some_0;
                    assert(self@.entries =~= done.venue.entries);
                }
                Ok(self.entries[i].request.clone())
            },
            Err(LockBatchError::InsufficientFunds(short)) => {
                proof {
                    keeps::lemma_accept_wf(v, now, requester, request_id);
                }
                entry::fail_request(
                    &mut self.ledger,
                    &mut self.entries[i],
                    FailReason::InsufficientRequesterFunds,
                );
                proof {
                    let done = v.accept(now, requester, request_id)->Some_0;
                    assert(self@.entries =~= done.venue.entries);
                }
                Err(EngineError::from(short))
            },
            Err(LockBatchError::UnknownReservation(_)) => unreached(),
        }
    }

    /// Turns the package down.
    pub fn reject(&mut self, requester: PartyId, request_id: RequestId) -> (answer: Result<
        RfqRequest,
        EngineError,
    >)
        requires
            old(self)@.wf(),
            old(self)@.room_to_reject(requester, request_id),
        ensures
            ({
                let done = old(self)@.reject(requester, request_id);
                final(self)@ == done.venue && answers(answer, done.answer)
            }),
            final(self)@.wf(),
            old(self)@.escrow_matches() ==> final(self)@.escrow_matches(),
    {
        let ghost v = self@;
        proof {
            keeps::lemma_reject_wf(v, requester, request_id);
        }
        let i: usize = match self.answered_entry(requester, request_id) {
            Ok(i) => i,
            Err(e) => {
                return Err(e);
            },
        };
        proof {
            keeps::lemma_entry_sound(v, i as int);
        }
        entry::fail_request(&mut self.ledger, &mut self.entries[i], FailReason::Rejected);
        proof {
            assert(self@.entries =~= v.reject(requester, request_id).venue.entries);
        }
        Ok(self.entries[i].request.clone())
    }

    /// When a dispute that begins at `now` unwinds, where disputes have a limit.
    fn unwind_deadline(&self, now: Timestamp) -> (deadline: Option<Timestamp>)
        requires
            self@.unwind_at(now) is Some,
        ensures
            Some(deadline) == self@.unwind_at(now),
    {
        match self.config.unwind_timeout {
            Some(timeout) => now.checked_add(timeout),
            None => None,
        }
    }

    /// Takes an outcome from the oracle.
    pub fn resolve(&mut self, now: Timestamp, request_id: RequestId, outcome: OracleOutcome) -> (
    answer: Result<RfqRequest, EngineError>)
        requires
            old(self)@.wf(),
            old(self)@.resolve(now, request_id, outcome) is Some,
        ensures
            ({
                let done = old(self)@.resolve(now, request_id, outcome)->Some_0;
                final(self)@ == done.venue && answers(answer, done.answer)
            }),
            final(self)@.wf(),
            old(self)@.escrow_matches() ==> final(self)@.escrow_matches(),
    {
        let ghost v = self@;
        let ghost done = v.resolve(now, request_id, outcome)->Some_0;
        proof {
            keeps::lemma_resolve_wf(v, now, request_id, outcome);
        }
        let i: usize = match self.find(request_id) {
            Some(i) => i,
            None => {
                return Err(EngineError::NotFound);
            },
        };
        proof {
            keeps::lemma_entry_sound(v, i as int);
        }
        let state = self.entries[i].request.state;
        match (state, outcome) {
            (RequestState::Locked, OracleOutcome::Yes | OracleOutcome::No) => {
                match self.config.dispute_window {
                    Some(window) => {
                        let deadline = now.checked_add(window);
                        let entry = &mut self.entries[i];
                        entry.request.reported_outcome = Some(outcome);
                        entry.request.dispute_deadline = deadline;
                        entry.request.state = RequestState::Reported;
                    },
                    None => {
                        entry::settle(&mut self.ledger, &mut self.entries[i], outcome);
                    },
                }
            },
            (RequestState::Locked, OracleOutcome::Disputed) => {
                let deadline = self.unwind_deadline(now);
                let entry = &mut self.entries[i];
                entry.request.unwind_deadline = deadline;
                entry.request.state = RequestState::Disputed;
            },
            (RequestState::Locked | RequestState::Disputed, OracleOutcome::Invalid) => {
                entry::unwind(&mut self.ledger, &mut self.entries[i]);
            },
            (RequestState::Disputed, OracleOutcome::Yes | OracleOutcome::No) => {
                entry::settle(&mut self.ledger, &mut self.entries[i], outcome);
            },
            (RequestState::Disputed, OracleOutcome::Disputed) => {},
            _ => {
                return Err(
                    EngineError::WrongState { expected: RequestState::Locked, actual: state },
                );
            },
        }
        proof {
            assert(self@.entries =~= done.venue.entries);
        }
        Ok(self.entries[i].request.clone())
    }

    /// Takes a party's dispute of a reported outcome.
    pub fn dispute(&mut self, now: Timestamp, party: PartyId, request_id: RequestId) -> (answer:
        Result<RfqRequest, EngineError>)
        requires
            old(self)@.wf(),
            old(self)@.dispute(now, party, request_id) is Some,
        ensures
            ({
                let done = old(self)@.dispute(now, party, request_id)->Some_0;
                final(self)@ == done.venue && answers(answer, done.answer)
            }),
            final(self)@.wf(),
            old(self)@.escrow_matches() ==> final(self)@.escrow_matches(),
    {
        let ghost v = self@;
        let ghost done = v.dispute(now, party, request_id)->Some_0;
        proof {
            keeps::lemma_dispute_wf(v, now, party, request_id);
        }
        let i: usize = match self.find(request_id) {
            Some(i) => i,
            None => {
                return Err(EngineError::NotFound);
            },
        };
        if !entry::is_party(&self.entries[i], party) {
            return Err(EngineError::NotOwner);
        }
        if let Err(e) = entry::expect_state(&self.entries[i].request, RequestState::Reported) {
            return Err(e);
        }
        let deadline = self.unwind_deadline(now);
        let entry = &mut self.entries[i];
        entry.request.unwind_deadline = deadline;
        entry.request.state = RequestState::Disputed;
        proof {
            assert(self@.entries =~= done.venue.entries);
        }
        Ok(self.entries[i].request.clone())
    }

    /// Moves the `i`-th request on by the clock.
    fn tick_entry(&mut self, now: Timestamp, i: usize)
        requires
            old(self)@.wf(),
            i < old(self)@.entries.len(),
            old(self)@.tick_entry(now, i as int) is Some,
        ensures
            Some(final(self)@) == old(self)@.tick_entry(now, i as int),
    {
        let ghost v = self@;
        let ghost w = v.tick_entry(now, i as int)->Some_0;
        proof {
            keeps::lemma_entry_sound(v, i as int);
        }
        match self.entries[i].request.state {
            RequestState::Open => {
                let due = !now.is_before(self.entries[i].request.response_deadline);
                let resolves_at = self.entries[i].request.resolves_at;
                entry::release_quotes(
                    &mut self.ledger,
                    &mut self.entries[i],
                    Scope::Expired(now),
                );
                if due {
                    if let Some(close) = now.checked_add(self.config.accept_window) {
                        entry::present_or_fail(
                            &mut self.ledger,
                            &mut self.entries[i],
                            now,
                            close.min(resolves_at),
                        );
                    }
                }
            },
            RequestState::Presented => {
                let late = match self.entries[i].request.accept_deadline {
                    Some(deadline) => deadline.is_before(now),
                    None => false,
                };
                if late {
                    entry::fail_request(
                        &mut self.ledger,
                        &mut self.entries[i],
                        FailReason::AcceptWindowExpired,
                    );
                }
            },
            RequestState::Reported => {
                let late = match self.entries[i].request.dispute_deadline {
                    Some(deadline) => deadline.is_before(now),
                    None => false,
                };
                if late {
                    if let Some(outcome) = self.entries[i].request.reported_outcome {
                        entry::settle(&mut self.ledger, &mut self.entries[i], outcome);
                    }
                }
            },
            RequestState::Disputed => {
                let late = match self.entries[i].request.unwind_deadline {
                    Some(deadline) => deadline.is_before(now),
                    None => false,
                };
                if late {
                    entry::unwind(&mut self.ledger, &mut self.entries[i]);
                }
            },
            RequestState::Locked
            | RequestState::Settled
            | RequestState::Unwound
            | RequestState::Failed => {},
        }
        proof {
            assert(self@.entries =~= w.entries);
        }
    }

    /// Moves every request on by the clock: expired quotes go, packages are presented, windows
    /// close. Stops at the first request that cannot be moved on, because a balance has no room, a
    /// deadline is off the calendar, or what is in escrow for the legs cannot be told apart.
    pub fn advance(&mut self, now: Timestamp) -> (done: bool)
        requires
            old(self)@.wf(),
        ensures
            done == (old(self)@.tick(now) is Some),
            if done {
                Some(final(self)@) == old(self)@.tick(now)
            } else {
                old(self)@.stops_at(now, final(self)@)
            },
            final(self)@.wf(),
            old(self)@.escrow_matches() ==> final(self)@.escrow_matches(),
    {
        let ghost v = self@;
        let n: usize = self.entries.len();
        let mut i: usize = 0;
        while i < n
            invariant
                0 <= i <= n,
                n == v.entries.len(),
                v == old(self)@,
                v.wf(),
                v.tick_first(now, i as int) == Some(self@),
                self@.wf(),
                self@.entries.len() == n,
                v.escrow_matches() ==> self@.escrow_matches(),
            decreases n - i,
        {
            if !self.can_move(now, i) {
                proof {
                    if v.tick(now) is Some {
                        keeps::lemma_tick_prefix(v, now, i + 1, n as int);
                    }
                    assert(v.tick_first(now, i as int) == Some(self@));
                }
                return false;
            }
            self.tick_entry(now, i);
            i = i + 1;
            proof {
                keeps::lemma_tick_so_far(v, now, i as int);
            }
        }
        true
    }

    /// Moves every request on by the clock.
    pub fn tick(&mut self, now: Timestamp)
        requires
            old(self)@.wf(),
            old(self)@.tick(now) is Some,
        ensures
            Some(final(self)@) == old(self)@.tick(now),
            final(self)@.wf(),
            old(self)@.escrow_matches() ==> final(self)@.escrow_matches(),
    {
        let _done = self.advance(now);
    }
}

impl<L: Ledger> Engine<L> {
    /// Whether the package can be accepted.
    pub fn can_accept(&self, now: Timestamp, requester: PartyId, request_id: RequestId) -> (b: bool)
        requires
            self@.wf(),
        ensures
            b == (self@.accept(now, requester, request_id) is Some),
    {
        let i: usize = match self.answered_entry(requester, request_id) {
            Ok(i) => i,
            Err(_) => {
                return true;
            },
        };
        proof {
            keeps::lemma_found(self@, request_id);
            keeps::lemma_entry_sound(self@, i as int);
            keeps::lemma_plan_ready(self@, i as int);
        }
        let late = match self.entries[i].request.accept_deadline {
            Some(deadline) => deadline.is_before(now),
            None => false,
        };
        if late {
            return self.can_release(i, Scope::All);
        }
        let (_, items) = entry::escrow_plan(&self.entries[i]);
        match self.ledger.check_batch(&items) {
            Some(LockBatchError::UnknownReservation(_)) => false,
            Some(LockBatchError::InsufficientFunds(_)) => self.can_release(i, Scope::All),
            None => {
                let ghost m = self@.ledger;
                let mut moves = room::lock_moves(&items);
                let mut losing = room::release_moves(&self.entries[i], Scope::Losing);
                let ghost locks = moves@;
                let ghost others = losing@;
                moves.append(&mut losing);
                proof {
                    assert(moves@ =~= locks + others);
                    assert forall|k: int| 0 <= k < moves@.len() implies ((
                    #[trigger] moves@[k]) matches Move::Lock(item) ==> laws::lockable(
                        m.run(moves@.take(k)),
                        item,
                    )) by {
                        if k < locks.len() {
                            assert(moves@.take(k) =~= locks.take(k));
                            room::lemma_lock_moves(m, items@, k);
                            laws::lemma_lock_items(m, items@, k);
                        } else {
                            assert(moves@[k] == others[k - locks.len()]);
                            room::lemma_only_releases(
                                self@.entries[i as int],
                                Scope::Losing,
                                self@.entries[i as int].request.quotes.len() as int,
                            );
                        }
                    }
                }
                self.ledger.can_make(&moves)
            },
        }
    }

    /// Whether the balances have room for the collateral of the quotes in `scope` of the `i`-th
    /// request.
    fn can_release(&self, i: usize, scope: Scope) -> (b: bool)
        requires
            self@.wf(),
            i < self@.entries.len(),
        ensures
            b == self@.entries[i as int].room_to_release(self@.ledger, scope),
    {
        proof {
            keeps::lemma_entry_sound(self@, i as int);
            room::lemma_only_releases(
                self@.entries[i as int],
                scope,
                self@.entries[i as int].request.quotes.len() as int,
            );
        }
        let moves = room::release_moves(&self.entries[i], scope);
        self.ledger.can_make(&moves)
    }

    /// Whether a quote can be taken.
    pub fn can_quote(
        &self,
        now: Timestamp,
        id: QuoteId,
        maker: PartyId,
        request_id: RequestId,
        leg_id: LegId,
        price: Price,
        size: Amount,
        expires_at: Timestamp,
    ) -> (b: bool)
        requires
            self@.wf(),
        ensures
            b == self@.room_to_quote(
                now,
                id,
                maker,
                request_id,
                leg_id,
                price,
                size,
                expires_at,
            ),
    {
        match self.quote(now, id, maker, request_id, leg_id, price, size, expires_at) {
            Ok((_, _, lock)) => self.ledger.balance(maker).free.0 < lock.0 || (
            self.ledger.can_reserve(maker, lock) && self.next_seq.0 < u64::MAX),
            Err(_) => true,
        }
    }

    /// Whether a quote can be cancelled.
    pub fn can_cancel(&self, maker: PartyId, quote_id: QuoteId) -> (b: bool)
        requires
            self@.wf(),
        ensures
            b == self@.room_to_cancel(maker, quote_id),
    {
        proof {
            keeps::lemma_quote_found(self@, quote_id);
        }
        let i: usize = match self.find_by_quote(quote_id) {
            Some(i) => i,
            None => {
                return true;
            },
        };
        let request = &self.entries[i].request;
        let quote = match request.find_quote(quote_id) {
            Some(q) => request.quotes[q],
            None => {
                return true;
            },
        };
        quote.maker != maker || request.state != RequestState::Open || quote.state
            != QuoteState::Live || self.can_release(i, Scope::Named(quote_id))
    }

    /// Whether a package can be turned down.
    pub fn can_reject(&self, requester: PartyId, request_id: RequestId) -> (b: bool)
        requires
            self@.wf(),
        ensures
            b == self@.room_to_reject(requester, request_id),
    {
        match self.answered_entry(requester, request_id) {
            Ok(i) => self.can_release(i, Scope::All),
            Err(_) => true,
        }
    }

    /// Whether what is in escrow for the legs of the `i`-th request can be told apart.
    fn can_trace(&self, i: usize) -> (b: bool)
        requires
            i < self@.entries.len(),
        ensures
            b == self@.entries[i as int].traceable(),
    {
        request::are_legs_distinct(&self.entries[i].request.legs)
    }

    /// Whether the `i`-th request can be paid out.
    fn can_settle(&self, i: usize, outcome: OracleOutcome) -> (b: bool)
        requires
            self@.wf(),
            i < self@.entries.len(),
            self@.entries[i as int].in_escrow(),
        ensures
            b == (self@.settle_at(i as int, outcome) is Some),
    {
        proof {
            keeps::lemma_entry_sound(self@, i as int);
            room::lemma_only_payouts(
                self@.entries[i as int].request.escrows,
                self@.entries[i as int].handles,
                outcome,
                self@.entries[i as int].request.escrows.len() as int,
            );
        }
        let moves = room::pay_moves(&self.entries[i], outcome);
        self.can_trace(i) && self.ledger.can_make(&moves)
    }

    /// Whether the `i`-th request can be refunded.
    fn can_unwind(&self, i: usize) -> (b: bool)
        requires
            self@.wf(),
            i < self@.entries.len(),
            self@.entries[i as int].in_escrow(),
        ensures
            b == (self@.unwind_at_once(i as int) is Some),
    {
        proof {
            keeps::lemma_entry_sound(self@, i as int);
            room::lemma_only_refunds(
                self@.entries[i as int].handles,
                self@.entries[i as int].request.escrows.len() as int,
            );
        }
        let moves = room::refund_moves(&self.entries[i]);
        self.can_trace(i) && self.ledger.can_make(&moves)
    }

    /// Whether the `i`-th request, which is open, can be moved on by the clock.
    fn can_move_open(&self, now: Timestamp, i: usize) -> (b: bool)
        requires
            self@.wf(),
            i < self@.entries.len(),
            self@.entries[i as int].request.state is Open,
        ensures
            b == (self@.tick_entry(now, i as int) is Some),
    {
        let ghost e = self@.entries[i as int];
        let ghost m = self@.ledger;
        let ghost n = e.request.quotes.len() as int;
        let scope = Scope::Expired(now);
        proof {
            keeps::lemma_entry_sound(self@, i as int);
        }
        if now.is_before(self.entries[i].request.response_deadline) {
            return self.can_release(i, scope);
        }
        let close = match now.checked_add(self.config.accept_window) {
            Some(close) => close,
            None => {
                return false;
            },
        };
        let accept_deadline = close.min(self.entries[i].request.resolves_at);
        let fresh = room::released(&self.entries[i], scope);
        if !room::is_unmatched(&fresh, now, accept_deadline) {
            return self.can_release(i, scope);
        }
        let mut moves = room::release_moves(&self.entries[i], scope);
        let mut rest = room::release_moves(&fresh, Scope::All);
        let ghost first = moves@;
        let ghost then = rest@;
        moves.append(&mut rest);
        proof {
            assert(moves@ =~= first + then);
            room::lemma_only_releases(e, scope, n);
            room::lemma_only_releases(e.release(scope), Scope::All, n);
            assert forall|k: int| 0 <= k < moves@.len() implies (#[trigger] moves@[k])
                is Release by {
                if k >= first.len() {
                    assert(moves@[k] == then[k - first.len()]);
                } else {
                    assert(moves@[k] == first[k]);
                }
            }
            room::lemma_run_concat(m, first, then);
            room::lemma_release_moves(e, m, scope, n, n);
        }
        self.ledger.can_make(&moves)
    }

    /// Whether the `i`-th request can be moved on by the clock.
    fn can_move(&self, now: Timestamp, i: usize) -> (b: bool)
        requires
            self@.wf(),
            i < self@.entries.len(),
        ensures
            b == (self@.tick_entry(now, i as int) is Some),
    {
        proof {
            keeps::lemma_entry_sound(self@, i as int);
        }
        let entry = &self.entries[i];
        match entry.request.state {
            RequestState::Open => self.can_move_open(now, i),
            RequestState::Presented => {
                let late = match entry.request.accept_deadline {
                    Some(deadline) => deadline.is_before(now),
                    None => false,
                };
                !late || self.can_release(i, Scope::All)
            },
            RequestState::Reported => {
                let late = match entry.request.dispute_deadline {
                    Some(deadline) => deadline.is_before(now),
                    None => false,
                };
                match entry.request.reported_outcome {
                    Some(outcome) => !late || self.can_settle(i, outcome),
                    None => true,
                }
            },
            RequestState::Disputed => {
                let late = match entry.request.unwind_deadline {
                    Some(deadline) => deadline.is_before(now),
                    None => false,
                };
                !late || self.can_unwind(i)
            },
            _ => true,
        }
    }

    /// Whether the deadline of a dispute that begins at `now` is on the calendar.
    fn dispute_fits(&self, now: Timestamp) -> (b: bool)
        ensures
            b == (self@.unwind_at(now) is Some),
    {
        match self.config.unwind_timeout {
            Some(timeout) => now.checked_add(timeout).is_some(),
            None => true,
        }
    }

    /// Whether a party's dispute can be taken.
    pub fn can_dispute(&self, now: Timestamp, party: PartyId, request_id: RequestId) -> (b: bool)
        ensures
            b == (self@.dispute(now, party, request_id) is Some),
    {
        match self.find(request_id) {
            None => true,
            Some(i) => !entry::is_party(&self.entries[i], party) || self.entries[i].request.state
                != RequestState::Reported || self.dispute_fits(now),
        }
    }

    /// Whether an outcome for a request can be taken.
    pub fn can_resolve(
        &self,
        now: Timestamp,
        request_id: RequestId,
        outcome: OracleOutcome,
    ) -> (b: bool)
        requires
            self@.wf(),
        ensures
            b == (self@.resolve(now, request_id, outcome) is Some),
    {
        let i: usize = match self.find(request_id) {
            Some(i) => i,
            None => {
                return true;
            },
        };
        match (self.entries[i].request.state, outcome) {
            (RequestState::Locked, OracleOutcome::Yes | OracleOutcome::No) => {
                match self.config.dispute_window {
                    Some(window) => now.checked_add(window).is_some(),
                    None => self.can_settle(i, outcome),
                }
            },
            (RequestState::Locked, OracleOutcome::Disputed) => self.dispute_fits(now),
            (RequestState::Disputed, OracleOutcome::Yes | OracleOutcome::No) => {
                self.can_settle(i, outcome)
            },
            (RequestState::Locked | RequestState::Disputed, OracleOutcome::Invalid) => {
                self.can_unwind(i)
            },
            _ => true,
        }
    }
}

/// An answer is the one of the model if both give the same request or both the same error.
pub proof fn law_answers_agree(
    answer: Result<RfqRequest, EngineError>,
    model: Result<RequestModel, EngineError>,
)
    ensures
        answers(answer, model) <==> {
            ||| answer matches Ok(request) && model == Ok::<RequestModel, EngineError>(request@)
            ||| answer matches Err(e) && model == Err::<RequestModel, EngineError>(e)
        },
{
}

} // verus!
