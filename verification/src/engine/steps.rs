//! The single steps of a request, whatever state it is in.
use vstd::prelude::*;
use crate::domain::ids::PartyId;
use crate::domain::{matching, request};
use crate::domain::request::{Escrow, Leg, Quote, RequestModel};
use crate::domain::state::{FailReason, LegSide, OracleOutcome, QuoteState, RequestState};
use crate::engine::model;
use crate::engine::model::{EntryModel, LegEscrow, Scope};
use crate::ledger::{EscrowHandle, LedgerModel, LockItem};
use crate::seqs;
use crate::time::Timestamp;

verus! {

/// Which quotes are let go: all of them, the live ones that have expired, the one with an
/// identifier, or the live ones; but only those that have collateral behind them.
pub proof fn law_which_quotes_are_let_go(e: EntryModel, scope: Scope, i: int)
    ensures
        ({
            let quote = e.request.quotes[i];
            let holds = quote.state == QuoteState::Live || quote.state == QuoteState::Selected;
            e.lets_go(scope, i) <==> match scope {
                Scope::All => holds,
                Scope::Expired(now) => quote.state == QuoteState::Live && quote.expires_at@ <= now@,
                Scope::Named(id) => holds && quote.id == id,
                Scope::Losing => quote.state == QuoteState::Live,
            }
        }),
{
}

/// A quote that is let go is released and has no reservation any more; any other stays as it is,
/// and so does the rest of the request.
pub proof fn law_let_go_quotes_are_released(e: EntryModel, scope: Scope, i: int)
    requires
        e.reservations.len() == e.request.quotes.len(),
    ensures
        ({
            let f = e.release(scope);
            &&& f.request == (RequestModel { quotes: f.request.quotes, ..e.request })
            &&& f.handles == e.handles
            &&& f.request.quotes.len() == e.request.quotes.len()
            &&& f.reservations.len() == e.reservations.len()
            &&& 0 <= i < e.request.quotes.len() ==> if e.lets_go(scope, i) {
                &&& f.request.quotes[i] == (Quote {
                    state: QuoteState::Released,
                    ..e.request.quotes[i]
                })
                &&& f.reservations[i] is None
            } else {
                &&& f.request.quotes[i] == e.request.quotes[i]
                &&& f.reservations[i] == e.reservations[i]
            }
        }),
{
}

/// The collateral of the quotes that are let go is released, one after the other, and no other.
pub proof fn law_collateral_is_released_in_order(
    e: EntryModel,
    m: LedgerModel,
    scope: Scope,
    k: int,
)
    requires
        0 <= k < e.request.quotes.len(),
    ensures
        e.release_holds(m, scope, 0) == m,
        e.release_holds(m, scope, k + 1) == match e.reservations[k] {
            Some(id) if e.lets_go(scope, k) => e.release_holds(m, scope, k).release(id),
            _ => e.release_holds(m, scope, k),
        },
        e.release_all_holds(m, scope) == e.release_holds(
            m,
            scope,
            e.request.quotes.len() as int,
        ),
{
}

/// A request that fails keeps its reason and loses all quotes that have collateral behind them; one
/// that is settled or unwound only has no handles any more.
pub proof fn law_how_requests_end(e: EntryModel, reason: FailReason)
    ensures
        ({
            let f = e.fail(reason);
            let released = e.release(Scope::All);
            &&& f.request == (RequestModel {
                state: RequestState::Failed,
                fail_reason: Some(reason),
                ..released.request
            })
            &&& f.reservations == released.reservations
            &&& f.handles == e.handles
        }),
        e.settle().request == (RequestModel { state: RequestState::Settled, ..e.request }),
        e.settle().reservations == e.reservations,
        e.settle().handles.len() == 0,
        e.unwind().request == (RequestModel { state: RequestState::Unwound, ..e.request }),
        e.unwind().reservations == e.reservations,
        e.unwind().handles.len() == 0,
{
}

/// The Yes-buyer of a leg wins it on Yes, and the Yes-seller on anything else.
pub proof fn law_who_wins(escrow: Escrow)
    ensures
        model::winner(escrow, OracleOutcome::Yes) == escrow.yes_buyer,
        model::winner(escrow, OracleOutcome::No) == escrow.yes_seller,
        model::winner(escrow, OracleOutcome::Invalid) == escrow.yes_seller,
        model::winner(escrow, OracleOutcome::Disputed) == escrow.yes_seller,
{
}

/// Legs are paid one after the other, both chunks of each to the party that wins it, and refunded
/// one after the other, each chunk to its poster.
pub proof fn law_legs_are_paid_and_refunded_in_order(
    m: LedgerModel,
    escrows: Seq<Escrow>,
    handles: Seq<LegEscrow>,
    outcome: OracleOutcome,
    k: int,
)
    requires
        0 <= k,
    ensures
        model::pay_legs(m, escrows, handles, outcome, 0) == m,
        model::refund_legs(m, handles, 0) == m,
        ({
            let to = if outcome == OracleOutcome::Yes {
                escrows[k].yes_buyer
            } else {
                escrows[k].yes_seller
            };
            model::pay_legs(m, escrows, handles, outcome, k + 1) == model::pay_legs(
                m,
                escrows,
                handles,
                outcome,
                k,
            ).payout(handles[k].yes_buyer, to).payout(handles[k].yes_seller, to)
        }),
        model::refund_legs(m, handles, k + 1) == model::refund_legs(m, handles, k).refund(
            handles[k].yes_buyer,
        ).refund(handles[k].yes_seller),
{
}

/// Settling pays all legs and unwinding refunds all.
pub proof fn law_all_legs_are_paid_or_refunded(
    e: EntryModel,
    m: LedgerModel,
    outcome: OracleOutcome,
)
    ensures
        e.settle_holds(m, outcome) == model::pay_legs(
            m,
            e.request.escrows,
            e.handles,
            outcome,
            e.request.escrows.len() as int,
        ),
        e.unwind_holds(m) == model::refund_legs(
            m,
            e.handles,
            e.request.escrows.len() as int,
        ),
{
}

/// The plan for a package has for each leg the escrow between the requester and the maker of the
/// quote that was selected, at its price, and two items to fund it: the maker's reservation, and the
/// requester's side from its free balance.
pub proof fn law_plans_follow_the_package(e: EntryModel, i: int)
    requires
        e.request.package is Some,
        0 <= i < e.request.package->Some_0.len(),
        e.request.quote_index(e.request.package->Some_0[i].quote_id) is Some,
        e.request.leg_index(e.request.package->Some_0[i].leg_id) is Some,
        e.request.quotes[e.request.quote_index(
            e.request.package->Some_0[i].quote_id,
        )->Some_0].price.in_range(),
    ensures
        ({
            let package = e.request.package->Some_0;
            let j = e.request.quote_index(package[i].quote_id)->Some_0;
            let quote = e.request.quotes[j];
            let leg = e.request.legs[e.request.leg_index(package[i].leg_id)->Some_0];
            let escrow = e.planned_escrows()[i];
            let share = leg.notional.0 as int * quote.price.spec_bps() / 10_000;
            let long = leg.side == LegSide::BuyYes || leg.side == LegSide::SellNo;
            &&& e.planned_escrows().len() == package.len()
            &&& e.planned_items().len() == 2 * package.len()
            &&& escrow.leg_id == leg.id
            &&& escrow.notional == leg.notional
            &&& escrow.yes_buyer_amount.0 == share
            &&& escrow.yes_seller_amount.0 == leg.notional.0 - share
            &&& escrow.yes_buyer == if long {
                e.request.requester
            } else {
                quote.maker
            }
            &&& escrow.yes_seller == if long {
                quote.maker
            } else {
                e.request.requester
            }
            &&& e.reservations[j] matches Some(id) ==> e.planned_items()[2 * i]
                == LockItem::FromReservation(id)
            &&& e.planned_items()[2 * i + 1] matches LockItem::FromFree { party, amount }
            &&& party == e.request.requester
            &&& amount.0 == if long {
                share
            } else {
                leg.notional.0 - share
            }
        }),
{
    let package = e.request.package->Some_0;
    let quote = e.request.quotes[e.request.quote_index(package[i].quote_id)->Some_0];
    let leg = e.request.legs[e.request.leg_index(package[i].leg_id)->Some_0];
    request::law_roles_and_sides_of_an_escrow(leg, quote, e.request.requester, quote.maker);
    assert((2 * i) / 2 == i && (2 * i) % 2 == 0);
    assert((2 * i + 1) / 2 == i && (2 * i + 1) % 2 == 1);
}

/// Of the two handles of a leg the first is the maker's and the second the requester's: the
/// requester's is the Yes-buyer's if it ends up long Yes, and the Yes-seller's if not.
pub proof fn law_handles_go_by_role(e: EntryModel, handles: Seq<EscrowHandle>, i: int)
    requires
        e.request.package is Some,
        0 <= i < e.request.package->Some_0.len(),
    ensures
        ({
            let package = e.request.package->Some_0;
            let leg = e.request.legs[e.request.leg_index(package[i].leg_id)->Some_0];
            let sorted = e.handles_by_role(handles);
            let long = leg.side == LegSide::BuyYes || leg.side == LegSide::SellNo;
            &&& sorted.len() == package.len()
            &&& long ==> sorted[i].yes_buyer == handles[2 * i + 1] && sorted[i].yes_seller
                == handles[2 * i]
            &&& !long ==> sorted[i].yes_buyer == handles[2 * i] && sorted[i].yes_seller
                == handles[2 * i + 1]
        }),
{
}

/// Locking locks the selected quotes and releases the live ones; none of them has a reservation any
/// more. Others stay as they are.
pub proof fn law_selected_quotes_are_locked(e: EntryModel, i: int)
    requires
        e.reservations.len() == e.request.quotes.len(),
        0 <= i < e.request.quotes.len(),
    ensures
        ({
            let f = e.lock_selected_release_losers();
            let quote = e.request.quotes[i];
            &&& f.request == (RequestModel { quotes: f.request.quotes, ..e.request })
            &&& f.handles == e.handles
            &&& f.request.quotes.len() == e.request.quotes.len()
            &&& f.reservations.len() == e.reservations.len()
            &&& quote.state == QuoteState::Selected ==> f.request.quotes[i] == (Quote {
                state: QuoteState::Locked,
                ..quote
            }) && f.reservations[i] is None
            &&& quote.state == QuoteState::Live ==> f.request.quotes[i] == (Quote {
                state: QuoteState::Released,
                ..quote
            }) && f.reservations[i] is None
            &&& quote.state == QuoteState::Locked || quote.state == QuoteState::Released
                ==> f.request.quotes[i] == quote && f.reservations[i] == e.reservations[i]
        }),
{
}

/// The parties to a request are its requester and the makers of its locked quotes.
pub proof fn law_who_is_a_party(e: EntryModel, party: PartyId, i: int)
    ensures
        party == e.request.requester ==> e.is_party(party),
        0 <= i < e.request.quotes.len() && e.request.quotes[i].maker == party
            && e.request.quotes[i].state == QuoteState::Locked ==> e.is_party(party),
        e.is_party(party) && party != e.request.requester ==> exists|j: int|
            0 <= j < e.request.quotes.len() && (#[trigger] e.request.quotes[j]).maker == party
                && e.request.quotes[j].state == QuoteState::Locked,
{
}

/// A request is put before its requester if every leg has a chosen quote, each leg with its own, and
/// the chosen quotes are selected; else it fails over the first leg that has none.
pub proof fn law_packages_are_made_of_chosen_quotes(
    e: EntryModel,
    now: Timestamp,
    until: Timestamp,
    l: int,
)
    requires
        0 <= l < e.request.legs.len(),
    ensures
        ({
            let f = e.present_or_fail(now, until);
            let chosen = |k: int|
                matching::best_index(e.request.legs[k], e.request.quotes, now, until);
            &&& (forall|k: int|
                0 <= k < e.request.legs.len() ==> matching::best_index(
                    #[trigger] e.request.legs[k],
                    e.request.quotes,
                    now,
                    until,
                ) is Some) ==> {
                &&& f.request == (RequestModel {
                    state: RequestState::Presented,
                    accept_deadline: Some(until),
                    package: f.request.package,
                    quotes: f.request.quotes,
                    ..e.request
                })
                &&& f.reservations == e.reservations
                &&& f.handles == e.handles
                &&& f.request.package is Some
                &&& f.request.package->Some_0.len() == e.request.legs.len()
                &&& f.request.package->Some_0[l].leg_id == e.request.legs[l].id
                &&& f.request.package->Some_0[l].quote_id == e.request.quotes[chosen(l)->Some_0].id
                &&& f.request.quotes.len() == e.request.quotes.len()
                &&& 0 <= chosen(l)->Some_0 < e.request.quotes.len() ==> f.request.quotes[chosen(
                    l,
                )->Some_0] == (Quote {
                    state: QuoteState::Selected,
                    ..e.request.quotes[chosen(l)->Some_0]
                })
            }
            &&& chosen(l) is None && (forall|k: int|
                0 <= k < l ==> matching::best_index(
                    #[trigger] e.request.legs[k],
                    e.request.quotes,
                    now,
                    until,
                ) is Some) ==> f == e.fail(FailReason::LegUnmatched(e.request.legs[l].id))
        }),
{
    let alone = |leg: Leg| matching::best_index(leg, e.request.quotes, now, until) is None;
    if forall|k: int|
        0 <= k < e.request.legs.len() ==> matching::best_index(
            #[trigger] e.request.legs[k],
            e.request.quotes,
            now,
            until,
        ) is Some {
        assert forall|k: int| 0 <= k < e.request.legs.len() implies !alone(
            #[trigger] e.request.legs[k],
        ) by {}
        seqs::lemma_first_none(e.request.legs, alone);
        let j = e.best(l, now, until)->Some_0;
        assert(e.best(l, now, until) == Some(j));
        assert(e.is_chosen(j, now, until));
    }
    if alone(e.request.legs[l]) && (forall|k: int|
        0 <= k < l ==> matching::best_index(
            #[trigger] e.request.legs[k],
            e.request.quotes,
            now,
            until,
        ) is Some) {
        assert forall|k: int| 0 <= k < l implies !alone(#[trigger] e.request.legs[k]) by {}
        seqs::lemma_first_is(e.request.legs, alone, l);
    }
}

} // verus!
