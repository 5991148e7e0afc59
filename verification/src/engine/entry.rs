//! The steps of one request, on the request and on the ledger.
use vstd::pervasive::unreached;
use vstd::prelude::*;
use crate::domain::ids::PartyId;
use crate::domain::matching;
use crate::domain::request::{Escrow, Leg, Package, Quote, RequestModel, RfqRequest, Selection};
use crate::domain::state::{FailReason, OracleOutcome, QuoteState, RequestState};
use crate::engine::error::EngineError;
use crate::engine::{model, room};
use crate::engine::model::{EntryModel, LegEscrow, Scope};
use crate::ledger::{EscrowHandle, Ledger, LockItem, ReservationId};
use crate::seqs;
use crate::time::Timestamp;

verus! {

/// A request and what the ledger holds for it.
#[derive(Debug)]
pub struct Entry {
    pub request: RfqRequest,
    /// The collateral of each quote, while there is any.
    pub reservations: Vec<Option<ReservationId>>,
    /// The two chunks of each leg, while they are in escrow.
    pub handles: Vec<LegEscrow>,
}

impl View for Entry {
    type V = EntryModel;

    open spec fn view(&self) -> EntryModel {
        EntryModel {
            request: self.request@,
            reservations: self.reservations@,
            handles: self.handles@,
        }
    }
}

/// Refuses a request that is in another state than `expected`.
pub fn expect_state(request: &RfqRequest, expected: RequestState) -> (r: Result<(), EngineError>)
    ensures
        r == if request.state == expected {
            Ok(())
        } else {
            Err(EngineError::WrongState { expected, actual: request.state })
        },
{
    if request.state == expected {
        Ok(())
    } else {
        Err(EngineError::WrongState { expected, actual: request.state })
    }
}

impl Scope {
    fn takes(self, quote: &Quote) -> (b: bool)
        ensures
            b == self.covers(*quote),
    {
        match self {
            Scope::All => true,
            Scope::Expired(now) => quote.state == QuoteState::Live && !now.is_before(
                quote.expires_at,
            ),
            Scope::Named(id) => quote.id == id,
            Scope::Losing => quote.state == QuoteState::Live,
        }
    }
}

/// Whether a quote is in `scope` and holds collateral.
pub fn lets_go(quote: &Quote, scope: Scope) -> (b: bool)
    ensures
        b == (scope.covers(*quote) && quote.holds_collateral()),
{
    scope.takes(quote) && (quote.state == QuoteState::Live || quote.state == QuoteState::Selected)
}

/// Releases every quote in `scope` that still holds collateral.
pub fn release_quotes<L: Ledger>(ledger: &mut L, entry: &mut Entry, scope: Scope)
    requires
        old(ledger).model().wf(),
        old(entry)@.reservations.len() == old(entry)@.request.quotes.len(),
        old(entry)@.room_to_release(old(ledger).model(), scope),
    ensures
        final(ledger).model() == old(entry)@.release_all_holds(old(ledger).model(), scope),
        final(ledger).model().wf(),
        final(entry)@ == old(entry)@.release(scope),
{
    let ghost e = entry@;
    let ghost m = ledger.model();
    let mut i: usize = 0;
    while i < entry.request.quotes.len()
        invariant
            0 <= i <= e.request.quotes.len(),
            e == old(entry)@,
            m == old(ledger).model(),
            e.reservations.len() == e.request.quotes.len(),
            e.room_to_release(m, scope),
            ledger.model().wf(),
            ledger.model() == e.release_holds(m, scope, i as int),
            entry@.request == (RequestModel { quotes: entry.request.quotes@, ..e.request }),
            entry@.handles == e.handles,
            entry.request.quotes@.len() == e.request.quotes.len(),
            entry.reservations@.len() == e.reservations.len(),
            forall|j: int|
                0 <= j < i ==> #[trigger] entry.request.quotes@[j] == e.release(scope).request.quotes[j],
            forall|j: int|
                0 <= j < i ==> #[trigger] entry.reservations@[j] == e.release(scope).reservations[j],
            forall|j: int|
                i <= j < e.request.quotes.len() ==> #[trigger] entry.request.quotes@[j]
                    == e.request.quotes[j],
            forall|j: int|
                i <= j < e.request.quotes.len() ==> #[trigger] entry.reservations@[j]
                    == e.reservations[j],
        decreases e.request.quotes.len() - i,
    {
        let mut quote = entry.request.quotes[i];
        if lets_go(&quote, scope) {
            assert(e.lets_go(scope, i as int));
            proof {
                room::lemma_release_moves(e, m, scope, i + 1, e.request.quotes.len() as int);
            }
            quote.state = QuoteState::Released;
            entry.request.quotes.set(i, quote);
            if let Some(id) = entry.reservations[i] {
                ledger.release(id);
            }
            entry.reservations.set(i, None);
        }
        i = i + 1;
    }
    assert(entry@.request.quotes =~= e.release(scope).request.quotes);
    assert(entry@.reservations =~= e.release(scope).reservations);
}

/// Ends a request before anything is in escrow, and returns every hold to its poster.
pub fn fail_request<L: Ledger>(ledger: &mut L, entry: &mut Entry, reason: FailReason)
    requires
        old(ledger).model().wf(),
        old(entry)@.reservations.len() == old(entry)@.request.quotes.len(),
        old(entry)@.room_to_release(old(ledger).model(), Scope::All),
    ensures
        final(ledger).model() == old(entry)@.release_all_holds(old(ledger).model(), Scope::All),
        final(ledger).model().wf(),
        final(entry)@ == old(entry)@.fail(reason),
{
    release_quotes(ledger, entry, Scope::All);
    entry.request.state = RequestState::Failed;
    entry.request.fail_reason = Some(reason);
}

/// Puts the best quote of every leg before the requester, or fails the request if a leg has none.
pub fn present_or_fail<L: Ledger>(
    ledger: &mut L,
    entry: &mut Entry,
    now: Timestamp,
    accept_deadline: Timestamp,
)
    requires
        old(ledger).model().wf(),
        old(entry)@.reservations.len() == old(entry)@.request.quotes.len(),
        old(entry)@.unmatched(now, accept_deadline) is Some ==> old(entry)@.room_to_release(
            old(ledger).model(),
            Scope::All,
        ),
    ensures
        final(ledger).model() == old(entry)@.present_or_fail_holds(
            old(ledger).model(),
            now,
            accept_deadline,
        ),
        final(ledger).model().wf(),
        final(entry)@ == old(entry)@.present_or_fail(now, accept_deadline),
{
    let ghost e = entry@;
    let ghost alone = |leg: Leg|
        matching::best_index(leg, e.request.quotes, now, accept_deadline) is None;
    let mut selections: Vec<Selection> = Vec::new();
    let mut chosen: Vec<usize> = Vec::new();
    let mut i: usize = 0;
    while i < entry.request.legs.len()
        invariant
            0 <= i <= e.request.legs.len(),
            entry@ == e,
            e == old(entry)@,
            ledger.model() == old(ledger).model(),
            ledger.model().wf(),
            e.reservations.len() == e.request.quotes.len(),
            e.unmatched(now, accept_deadline) is Some ==> e.room_to_release(
                ledger.model(),
                Scope::All,
            ),
            alone == (|leg: Leg|
                matching::best_index(leg, e.request.quotes, now, accept_deadline) is None),
            selections@.len() == i,
            chosen@.len() == i,
            forall|l: int| 0 <= l < i ==> !alone(#[trigger] e.request.legs[l]),
            forall|l: int|
                0 <= l < i ==> {
                    &&& e.best(l, now, accept_deadline) == Some((#[trigger] chosen@[l]) as int)
                    &&& chosen@[l] < e.request.quotes.len()
                },
            forall|l: int|
                0 <= l < i ==> #[trigger] selections@[l] == (Selection {
                    leg_id: e.request.legs[l].id,
                    quote_id: e.request.quotes[e.best(l, now, accept_deadline)->Some_0].id,
                }),
        decreases e.request.legs.len() - i,
    {
        match matching::best_quote(
            &entry.request.legs[i],
            entry.request.quotes.as_slice(),
            now,
            accept_deadline,
        ) {
            Some(j) => {
                selections.push(
                    Selection {
                        leg_id: entry.request.legs[i].id,
                        quote_id: entry.request.quotes[j].id,
                    },
                );
                chosen.push(j);
            },
            None => {
                proof {
                    seqs::lemma_first_is(e.request.legs, alone, i as int);
                }
                let leg_id = entry.request.legs[i].id;
                fail_request(ledger, entry, FailReason::LegUnmatched(leg_id));
                return;
            },
        }
        i = i + 1;
    }
    proof {
        seqs::lemma_first_none(e.request.legs, alone);
    }
    let mut k: usize = 0;
    while k < chosen.len()
        invariant
            0 <= k <= chosen@.len(),
            chosen@.len() == e.request.legs.len(),
            e.reservations.len() == e.request.quotes.len(),
            entry@.request == (RequestModel { quotes: entry.request.quotes@, ..e.request }),
            entry@.handles == e.handles,
            entry@.reservations == e.reservations,
            entry.request.quotes@.len() == e.request.quotes.len(),
            forall|l: int|
                0 <= l < chosen@.len() ==> {
                    &&& e.best(l, now, accept_deadline) == Some((#[trigger] chosen@[l]) as int)
                    &&& chosen@[l] < e.request.quotes.len()
                },
            forall|j: int|
                0 <= j < e.request.quotes.len() ==> #[trigger] entry.request.quotes@[j]
                    == if exists|l: int| 0 <= l < k && #[trigger] chosen@[l] == j {
                    Quote { state: QuoteState::Selected, ..e.request.quotes[j] }
                } else {
                    e.request.quotes[j]
                },
        decreases chosen@.len() - k,
    {
        let j: usize = chosen[k];
        let mut quote = entry.request.quotes[j];
        quote.state = QuoteState::Selected;
        let ghost before = entry.request.quotes@;
        entry.request.quotes.set(j, quote);
        proof {
            assert forall|x: int| 0 <= x < e.request.quotes.len() implies
                #[trigger] entry.request.quotes@[x] == if exists|l: int|
                0 <= l < k + 1 && #[trigger] chosen@[l] == x {
                Quote { state: QuoteState::Selected, ..e.request.quotes[x] }
            } else {
                e.request.quotes[x]
            } by {
                if x == j {
                    assert(chosen@[k as int] == x);
                    assert(before[x] == if exists|l: int| 0 <= l < k && #[trigger] chosen@[l] == x {
                        Quote { state: QuoteState::Selected, ..e.request.quotes[x] }
                    } else {
                        e.request.quotes[x]
                    });
                } else {
                    assert(before[x] == entry.request.quotes@[x]);
                    if exists|l: int| 0 <= l < k + 1 && #[trigger] chosen@[l] == x {
                        let l = choose|l: int| 0 <= l < k + 1 && #[trigger] chosen@[l] == x;
                        assert(l < k);
                    }
                }
            }
        }
        k = k + 1;
    }
    entry.request.package = Some(Package { selections });
    entry.request.accept_deadline = Some(accept_deadline);
    entry.request.state = RequestState::Presented;
    proof {
        let f = e.present(now, accept_deadline);
        assert(entry@.request.quotes =~= f.request.quotes) by {
            assert forall|j: int| 0 <= j < e.request.quotes.len() implies
                #[trigger] entry.request.quotes@[j] == f.request.quotes[j] by {
                if e.is_chosen(j, now, accept_deadline) {
                    let l = choose|l: int|
                        0 <= l < e.request.legs.len() && #[trigger] e.best(l, now, accept_deadline)
                            == Some(j);
                    assert(chosen@[l] == j);
                } else if exists|l: int| 0 <= l < chosen@.len() && #[trigger] chosen@[l] == j {
                    let l = choose|l: int| 0 <= l < chosen@.len() && #[trigger] chosen@[l] == j;
                    assert(e.best(l, now, accept_deadline) == Some(j));
                }
            }
        }
        assert(entry@.request.package->Some_0 =~= f.request.package->Some_0);
    }
}

/// The escrow each selected leg will hold, and the items that fund it: two per leg, the maker's
/// reservation first and the requester's side second.
pub fn escrow_plan(entry: &Entry) -> (plan: (Vec<Escrow>, Vec<LockItem>))
    requires
        entry@.reservations.len() == entry@.request.quotes.len(),
        entry@.request.package is Some,
        forall|i: int|
            0 <= i < entry@.request.package->Some_0.len() ==> {
                let selection = #[trigger] entry@.request.package->Some_0[i];
                &&& entry@.request.leg_index(selection.leg_id) is Some
                &&& entry@.request.quote_index(selection.quote_id) is Some
                &&& entry@.reservations[entry@.selected_quote(i)] is Some
            },
    ensures
        plan.0@ == entry@.planned_escrows(),
        plan.1@ == entry@.planned_items(),
{
    let ghost e = entry@;
    let mut escrows: Vec<Escrow> = Vec::new();
    let mut items: Vec<LockItem> = Vec::new();
    if let Some(package) = &entry.request.package {
        let mut i: usize = 0;
        while i < package.selections.len()
            invariant
                0 <= i <= package.selections@.len(),
                e == entry@,
                e.reservations.len() == e.request.quotes.len(),
                e.request.package == Some(package.selections@),
                forall|l: int|
                    0 <= l < e.request.package->Some_0.len() ==> {
                        let selection = #[trigger] e.request.package->Some_0[l];
                        &&& e.request.leg_index(selection.leg_id) is Some
                        &&& e.request.quote_index(selection.quote_id) is Some
                        &&& e.reservations[e.selected_quote(l)] is Some
                    },
                escrows@.len() == i,
                items@.len() == 2 * i,
                forall|l: int| 0 <= l < i ==> #[trigger] escrows@[l] == e.planned_escrows()[l],
                forall|j: int| 0 <= j < 2 * i ==> #[trigger] items@[j] == e.planned_items()[j],
            decreases package.selections@.len() - i,
        {
            let selection = package.selections[i];
            assert(selection == e.request.package->Some_0[i as int]);
            let l: usize = match entry.request.find_leg(selection.leg_id) {
                Some(l) => l,
                None => unreached(),
            };
            let q: usize = match entry.request.find_quote(selection.quote_id) {
                Some(q) => q,
                None => unreached(),
            };
            let reservation = match entry.reservations[q] {
                Some(id) => id,
                None => unreached(),
            };
            let quote = entry.request.quotes[q];
            let escrow = Escrow::new(
                &entry.request.legs[l],
                quote.price,
                entry.request.requester,
                quote.maker,
            );
            let amount = if entry.request.legs[l].side.requester_buys_yes() {
                escrow.yes_buyer_amount
            } else {
                escrow.yes_seller_amount
            };
            assert((2 * i) / 2 == i && (2 * i) % 2 == 0);
            assert((2 * i + 1) / 2 == i && (2 * i + 1) % 2 == 1);
            items.push(LockItem::FromReservation(reservation));
            items.push(LockItem::FromFree { party: entry.request.requester, amount });
            escrows.push(escrow);
            i = i + 1;
        }
    }
    assert(escrows@ =~= e.planned_escrows());
    assert(items@ =~= e.planned_items());
    (escrows, items)
}

/// The handles of each leg, by role: of the two that its items were given, the first is the
/// maker's.
pub fn sort_handles(entry: &Entry, handles: &Vec<EscrowHandle>) -> (sorted: Vec<LegEscrow>)
    requires
        entry@.request.package is Some,
        handles@.len() == 2 * entry@.request.package->Some_0.len(),
        forall|i: int|
            0 <= i < entry@.request.package->Some_0.len() ==> {
                let selection = #[trigger] entry@.request.package->Some_0[i];
                entry@.request.leg_index(selection.leg_id) is Some
            },
    ensures
        sorted@ == entry@.handles_by_role(handles@),
{
    let ghost e = entry@;
    let mut sorted: Vec<LegEscrow> = Vec::new();
    if let Some(package) = &entry.request.package {
        let mut i: usize = 0;
        while i < package.selections.len()
            invariant
                0 <= i <= package.selections@.len(),
                e == entry@,
                e.request.package == Some(package.selections@),
                handles@.len() == 2 * package.selections@.len(),
                forall|l: int|
                    0 <= l < e.request.package->Some_0.len() ==> {
                        let selection = #[trigger] e.request.package->Some_0[l];
                        e.request.leg_index(selection.leg_id) is Some
                    },
                sorted@.len() == i,
                forall|l: int|
                    0 <= l < i ==> #[trigger] sorted@[l] == e.handles_by_role(handles@)[l],
            decreases package.selections@.len() - i,
        {
            let selection = package.selections[i];
            assert(selection == e.request.package->Some_0[i as int]);
            let l: usize = match entry.request.find_leg(selection.leg_id) {
                Some(l) => l,
                None => unreached(),
            };
            assert(2 * i + 1 < handles.len());
            let maker = handles[2 * i];
            let requester = handles[2 * i + 1];
            if entry.request.legs[l].side.requester_buys_yes() {
                sorted.push(LegEscrow { yes_buyer: requester, yes_seller: maker });
            } else {
                sorted.push(LegEscrow { yes_buyer: maker, yes_seller: requester });
            }
            i = i + 1;
        }
    }
    assert(sorted@ =~= e.handles_by_role(handles@));
    sorted
}

/// After the batch: selected quotes are locked, their reservations used up by the batch, and
/// every other live quote is released.
pub fn lock_selected_release_losers<L: Ledger>(ledger: &mut L, entry: &mut Entry)
    requires
        old(ledger).model().wf(),
        old(entry)@.reservations.len() == old(entry)@.request.quotes.len(),
        old(entry)@.room_to_release(old(ledger).model(), Scope::Losing),
    ensures
        final(ledger).model() == old(entry)@.release_all_holds(
            old(ledger).model(),
            Scope::Losing,
        ),
        final(ledger).model().wf(),
        final(entry)@ == old(entry)@.lock_selected_release_losers(),
{
    let ghost e = entry@;
    let ghost m = ledger.model();
    let ghost f = e.lock_selected_release_losers();
    let mut i: usize = 0;
    while i < entry.request.quotes.len()
        invariant
            0 <= i <= e.request.quotes.len(),
            e == old(entry)@,
            m == old(ledger).model(),
            f == e.lock_selected_release_losers(),
            e.reservations.len() == e.request.quotes.len(),
            e.room_to_release(m, Scope::Losing),
            ledger.model().wf(),
            ledger.model() == e.release_holds(m, Scope::Losing, i as int),
            entry@.request == (RequestModel { quotes: entry.request.quotes@, ..e.request }),
            entry@.handles == e.handles,
            entry.request.quotes@.len() == e.request.quotes.len(),
            entry.reservations@.len() == e.reservations.len(),
            forall|j: int|
                0 <= j < i ==> #[trigger] entry.request.quotes@[j] == f.request.quotes[j],
            forall|j: int|
                0 <= j < i ==> #[trigger] entry.reservations@[j] == f.reservations[j],
            forall|j: int|
                i <= j < e.request.quotes.len() ==> #[trigger] entry.request.quotes@[j]
                    == e.request.quotes[j],
            forall|j: int|
                i <= j < e.request.quotes.len() ==> #[trigger] entry.reservations@[j]
                    == e.reservations[j],
        decreases e.request.quotes.len() - i,
    {
        let mut quote = entry.request.quotes[i];
        assert(e.lets_go(Scope::Losing, i as int) <==> quote.state is Live);
        proof {
            room::lemma_release_moves(e, m, Scope::Losing, i + 1, e.request.quotes.len() as int);
        }
        match quote.state {
            QuoteState::Selected => {
                quote.state = QuoteState::Locked;
                entry.request.quotes.set(i, quote);
                entry.reservations.set(i, None);
            },
            QuoteState::Live => {
                quote.state = QuoteState::Released;
                entry.request.quotes.set(i, quote);
                if let Some(id) = entry.reservations[i] {
                    ledger.release(id);
                }
                entry.reservations.set(i, None);
            },
            QuoteState::Locked | QuoteState::Released => {},
        }
        i = i + 1;
    }
    assert(entry@.request.quotes =~= f.request.quotes);
    assert(entry@.reservations =~= f.reservations);
}

/// Which party wins a leg.
pub fn winner(escrow: &Escrow, outcome: OracleOutcome) -> (party: PartyId)
    ensures
        party == model::winner(*escrow, outcome),
{
    if outcome == OracleOutcome::Yes {
        escrow.yes_buyer
    } else {
        escrow.yes_seller
    }
}

/// Pays both chunks of every leg to the leg's winner and ends the request. The handles are used
/// up, so this happens once.
pub fn settle<L: Ledger>(ledger: &mut L, entry: &mut Entry, outcome: OracleOutcome)
    requires
        old(ledger).model().wf(),
        old(entry)@.handles.len() == old(entry)@.request.escrows.len(),
        old(entry)@.room_to_settle(old(ledger).model(), outcome),
    ensures
        final(ledger).model() == old(entry)@.settle_holds(old(ledger).model(), outcome),
        final(ledger).model().wf(),
        final(entry)@ == old(entry)@.settle(),
{
    let ghost e = entry@;
    let ghost m = ledger.model();
    let mut i: usize = 0;
    while i < entry.request.escrows.len()
        invariant
            0 <= i <= e.request.escrows.len(),
            entry@ == e,
            e == old(entry)@,
            e.handles.len() == e.request.escrows.len(),
            m == old(ledger).model(),
            e.room_to_settle(m, outcome),
            ledger.model().wf(),
            ledger.model() == model::pay_legs(
                m,
                e.request.escrows,
                e.handles,
                outcome,
                i as int,
            ),
        decreases e.request.escrows.len() - i,
    {
        proof {
            room::lemma_pay_moves(
                m,
                e.request.escrows,
                e.handles,
                outcome,
                i + 1,
                e.request.escrows.len() as int,
            );
        }
        let escrow = entry.request.escrows[i];
        let handles = entry.handles[i];
        let to = winner(&escrow, outcome);
        ledger.payout(handles.yes_buyer, to);
        ledger.payout(handles.yes_seller, to);
        i = i + 1;
    }
    entry.handles = Vec::new();
    entry.request.state = RequestState::Settled;
    assert(entry@ =~= e.settle());
}

/// Refunds both chunks of every leg to their posters and ends the request.
pub fn unwind<L: Ledger>(ledger: &mut L, entry: &mut Entry)
    requires
        old(ledger).model().wf(),
        old(entry)@.handles.len() == old(entry)@.request.escrows.len(),
        old(entry)@.room_to_unwind(old(ledger).model()),
    ensures
        final(ledger).model() == old(entry)@.unwind_holds(old(ledger).model()),
        final(ledger).model().wf(),
        final(entry)@ == old(entry)@.unwind(),
{
    let ghost e = entry@;
    let ghost m = ledger.model();
    let mut i: usize = 0;
    while i < entry.request.escrows.len()
        invariant
            0 <= i <= e.request.escrows.len(),
            entry@ == e,
            e == old(entry)@,
            e.handles.len() == e.request.escrows.len(),
            m == old(ledger).model(),
            e.room_to_unwind(m),
            ledger.model().wf(),
            ledger.model() == model::refund_legs(m, e.handles, i as int),
        decreases e.request.escrows.len() - i,
    {
        proof {
            room::lemma_refund_moves(m, e.handles, i + 1, e.request.escrows.len() as int);
        }
        let handles = entry.handles[i];
        ledger.refund(handles.yes_buyer);
        ledger.refund(handles.yes_seller);
        i = i + 1;
    }
    entry.handles = Vec::new();
    entry.request.state = RequestState::Unwound;
    assert(entry@ =~= e.unwind());
}

/// Whether `party` is the requester or the maker of a locked quote.
pub fn is_party(entry: &Entry, party: PartyId) -> (b: bool)
    ensures
        b == entry@.is_party(party),
{
    if party == entry.request.requester {
        return true;
    }
    let mut i: usize = 0;
    while i < entry.request.quotes.len()
        invariant
            0 <= i <= entry.request.quotes@.len(),
            forall|j: int|
                0 <= j < i ==> !((#[trigger] entry.request.quotes@[j]).maker == party
                    && entry.request.quotes@[j].state is Locked),
        decreases entry.request.quotes@.len() - i,
    {
        let quote = entry.request.quotes[i];
        if quote.maker == party && quote.state == QuoteState::Locked {
            assert(entry@.request.quotes[i as int].maker == party);
            return true;
        }
        i = i + 1;
    }
    assert forall|j: int| 0 <= j < entry@.request.quotes.len() implies !((
    #[trigger] entry@.request.quotes[j]).maker == party && entry@.request.quotes[j].state
        is Locked) by {
        assert(!(entry.request.quotes@[j].maker == party && entry.request.quotes@[j].state
            is Locked));
    }
    false
}

} // verus!
