//! What the venue promises, whatever the commands.
use vstd::prelude::*;
use crate::domain::ids::{LegId, PartyId, QuoteId, RequestId, SeqNo};
use crate::domain::{matching, request};
use crate::domain::money::{Amount, Price};
use crate::domain::request::{Escrow, Leg, Quote, RequestModel, Selection};
use crate::domain::state::{FailReason, OracleOutcome, QuoteState, RequestState, Tenor};
use crate::engine::error::EngineError;
use crate::engine::model;
use crate::engine::model::{EngineConfig, EngineModel, EntryModel, LegEscrow, Scope};
use crate::engine::soundness::Owner;
use crate::engine::{keeps, room, soundness, transitions};
use crate::ledger;
use crate::ledger::laws;
use crate::ledger::{Hold, LedgerModel, LockItem, ReservationId, Slot};
use crate::seqs;
use crate::time::Timestamp;

verus! {

/// Whether a request has come to its end.
pub open spec fn finished(request: RequestModel) -> bool {
    request.state is Settled || request.state is Unwound || request.state is Failed
}

/// A finished request is never accepted, rejected, resolved or disputed again: each attempt is
/// refused and changes nothing. The clock passes it by.
pub proof fn law_finished_requests_stay_finished(
    v: EngineModel,
    now: Timestamp,
    party: PartyId,
    request_id: RequestId,
    outcome: OracleOutcome,
)
    requires
        v.find(request_id) is Some,
        finished(v.entries[v.find(request_id)->Some_0].request),
    ensures
        v.accept(now, party, request_id) is Some,
        v.accept(now, party, request_id)->Some_0.venue == v,
        v.accept(now, party, request_id)->Some_0.answer is Err,
        v.reject(party, request_id).venue == v,
        v.reject(party, request_id).answer is Err,
        v.resolve(now, request_id, outcome) == Some(
            v.refuse::<RequestModel>(
                EngineError::WrongState {
                    expected: RequestState::Locked,
                    actual: v.entries[v.find(request_id)->Some_0].request.state,
                },
            ),
        ),
        v.dispute(now, party, request_id) is Some,
        v.dispute(now, party, request_id)->Some_0.venue == v,
        v.dispute(now, party, request_id)->Some_0.answer is Err,
        v.tick_entry(now, v.find(request_id)->Some_0) == Some(v),
{
}

/// A request resolves once: when an outcome has settled or unwound it, every later outcome is
/// refused and changes nothing.
pub proof fn law_resolves_once(
    v: EngineModel,
    now: Timestamp,
    later: Timestamp,
    request_id: RequestId,
    outcome: OracleOutcome,
    again: OracleOutcome,
)
    requires
        v.resolve(now, request_id, outcome) is Some,
        v.resolve(now, request_id, outcome)->Some_0.answer is Ok,
        finished(v.resolve(now, request_id, outcome)->Some_0.answer->Ok_0),
    ensures
        ({
            let w = v.resolve(now, request_id, outcome)->Some_0.venue;
            w.resolve(later, request_id, again) matches Some(second) && second.venue == w
                && second.answer is Err
        }),
{
    keeps::lemma_found(v, request_id);
    let i = v.find(request_id)->Some_0;
    let w = v.resolve(now, request_id, outcome)->Some_0.venue;
    let named = |e: EntryModel| e.request.id == request_id;
    seqs::lemma_first_some(v.entries, named);
    assert forall|j: int| 0 <= j < i implies !named(#[trigger] w.entries[j]) by {
        assert(!named(v.entries[j]));
    }
    seqs::lemma_first_is(w.entries, named, i);
}

/// A dispute moves no funds, whoever files it.
pub proof fn law_disputes_move_nothing(
    v: EngineModel,
    now: Timestamp,
    party: PartyId,
    request_id: RequestId,
)
    ensures
        v.resolve(now, request_id, OracleOutcome::Disputed) matches Some(done) ==> done.venue.ledger
            == v.ledger,
        v.dispute(now, party, request_id) matches Some(done) ==> done.venue.ledger == v.ledger,
{
}

/// A report that may still be disputed moves no funds either.
pub proof fn law_reports_move_nothing(
    v: EngineModel,
    now: Timestamp,
    request_id: RequestId,
    outcome: OracleOutcome,
)
    ensures
        v.resolve(now, request_id, outcome) matches Some(done) ==> (done.answer matches Ok(request)
            && request.state is Reported ==> done.venue.ledger == v.ledger),
{
}

/// Only the requester accepts or rejects, only a maker cancels its quote, and only a party to a
/// request disputes it.
pub proof fn law_only_owners_act(
    v: EngineModel,
    now: Timestamp,
    party: PartyId,
    request_id: RequestId,
    quote_id: QuoteId,
)
    ensures
        v.find(request_id) matches Some(i) ==> (v.entries[i].request.requester != party ==> {
            &&& v.accept(now, party, request_id) == Some(
                v.refuse::<RequestModel>(EngineError::NotOwner),
            )
            &&& v.reject(party, request_id) == v.refuse::<RequestModel>(EngineError::NotOwner)
        }),
        v.find(request_id) matches Some(i) ==> (!v.entries[i].is_party(party) ==> v.dispute(
            now,
            party,
            request_id,
        ) == Some(v.refuse::<RequestModel>(EngineError::NotOwner))),
        v.find_quote(quote_id) matches Some(i) ==> {
            let request = v.entries[i].request;
            request.quotes[request.quote_index(quote_id)->Some_0].maker != party
                ==> v.cancel_quote(party, quote_id) == v.refuse::<()>(EngineError::NotOwner)
        },
{
}

/// What is not there is not found, and looking for it changes nothing.
pub proof fn law_unknown_ids_are_not_found(
    v: EngineModel,
    now: Timestamp,
    party: PartyId,
    request_id: RequestId,
    leg_id: LegId,
    quote_id: QuoteId,
    fresh: QuoteId,
    price: Price,
    size: Amount,
    expires_at: Timestamp,
    outcome: OracleOutcome,
)
    ensures
        v.find(request_id) is None ==> {
            &&& v.accept(now, party, request_id) == Some(
                v.refuse::<RequestModel>(EngineError::NotFound),
            )
            &&& v.reject(party, request_id) == v.refuse::<RequestModel>(EngineError::NotFound)
            &&& v.resolve(now, request_id, outcome) == Some(
                v.refuse::<RequestModel>(EngineError::NotFound),
            )
            &&& v.dispute(now, party, request_id) == Some(
                v.refuse::<RequestModel>(EngineError::NotFound),
            )
            &&& v.submit_quote(now, fresh, party, request_id, leg_id, price, size, expires_at)
                == v.refuse::<Quote>(EngineError::NotFound)
        },
        v.find_quote(quote_id) is None ==> v.cancel_quote(party, quote_id) == v.refuse::<()>(
            EngineError::NotFound,
        ),
{
}

/// A refusal changes nothing, but for an accept that comes too late or cannot be funded: that
/// fails the request.
pub proof fn law_refusals_change_nothing(
    v: EngineModel,
    now: Timestamp,
    party: PartyId,
    request_id: RequestId,
    fresh_request: RequestId,
    legs: Seq<Leg>,
    tenor: Tenor,
    response_deadline: Timestamp,
    leg_id: LegId,
    fresh_quote: QuoteId,
    price: Price,
    size: Amount,
    expires_at: Timestamp,
    outcome: OracleOutcome,
)
    ensures
        ({
            let done = v.submit_request(
                now,
                fresh_request,
                party,
                legs,
                tenor,
                response_deadline,
            );
            done.answer is Err ==> done.venue == v
        }),
        ({
            let done = v.submit_quote(
                now,
                fresh_quote,
                party,
                request_id,
                leg_id,
                price,
                size,
                expires_at,
            );
            done.answer is Err ==> done.venue == v
        }),
        v.cancel_quote(party, fresh_quote).answer is Err ==> v.cancel_quote(
            party,
            fresh_quote,
        ).venue == v,
        v.reject(party, request_id).answer is Err ==> v.reject(party, request_id).venue == v,
        v.resolve(now, request_id, outcome) matches Some(done) ==> (done.answer is Err
            ==> done.venue == v),
        v.dispute(now, party, request_id) matches Some(done) ==> (done.answer is Err
            ==> done.venue == v),
        v.accept(now, party, request_id) matches Some(done) ==> (done.answer is Err && done.venue
            != v ==> {
            &&& v.find(request_id) matches Some(i)
            &&& v.entries[i].request.state is Presented
            &&& done.venue.entries[i].request.state is Failed
        }),
{
    keeps::lemma_found(v, request_id);
}

/// Once a package is presented the quotes are firm: none is taken back, none is added.
pub proof fn law_presented_quotes_are_firm(
    v: EngineModel,
    now: Timestamp,
    maker: PartyId,
    request_id: RequestId,
    leg_id: LegId,
    quote_id: QuoteId,
    fresh: QuoteId,
    price: Price,
    size: Amount,
    expires_at: Timestamp,
)
    ensures
        v.find_quote(quote_id) matches Some(i) ==> (v.entries[i].request.state !is Open ==> {
            &&& v.cancel_quote(maker, quote_id).answer is Err
            &&& v.cancel_quote(maker, quote_id).venue == v
        }),
        v.find(request_id) matches Some(i) ==> (v.entries[i].request.state !is Open
            ==> v.submit_quote(now, fresh, maker, request_id, leg_id, price, size, expires_at)
            == v.refuse::<Quote>(
            EngineError::WrongState {
                expected: RequestState::Open,
                actual: v.entries[i].request.state,
            },
        )),
{
}

/// Every live or selected quote has the maker's whole side of the escrow reserved behind it, and
/// no other quote has anything reserved.
pub proof fn law_live_quotes_are_collateralised(v: EngineModel, i: int, j: int)
    requires
        v.wf(),
        0 <= i < v.entries.len(),
        0 <= j < v.entries[i].request.quotes.len(),
    ensures
        ({
            let entry = v.entries[i];
            let quote = entry.request.quotes[j];
            if quote.holds_collateral() {
                &&& entry.reservations[j] matches Some(id)
                &&& v.ledger.reservation(id) == Some(
                    Hold { party: quote.maker, amount: quote.collateral(entry.quote_leg(j)) },
                )
            } else {
                entry.reservations[j] is None
            }
        }),
{
    let owners = choose|owners: Seq<Owner>| v.owned(owners);
    let entry = v.entries[i];
    assert(entry.inv(v.ledger.slots, owners, i, v.config, v.next_seq));
    assert(entry.reservations[j] is Some <==> entry.request.quotes[j].holds_collateral());
}

/// While a request is locked, reported or disputed, both sides of every leg are in escrow, posted
/// by two different parties, and they make the notional of the leg with that identifier.
pub proof fn law_locked_legs_are_escrowed(v: EngineModel, i: int, l: int)
    requires
        v.wf(),
        0 <= i < v.entries.len(),
        v.entries[i].in_escrow(),
        0 <= l < v.entries[i].request.legs.len(),
    ensures
        ({
            let entry = v.entries[i];
            let escrow = entry.request.escrows[l];
            &&& entry.handles.len() == entry.request.legs.len()
            &&& entry.request.escrows.len() == entry.request.legs.len()
            &&& escrow.leg_id == entry.request.legs[l].id
            &&& escrow.notional == entry.named_leg(l).notional
            &&& entry.traceable() ==> entry.named_leg(l) == entry.request.legs[l]
            &&& escrow.yes_buyer != escrow.yes_seller
            &&& escrow.yes_buyer_amount.0 + escrow.yes_seller_amount.0 == escrow.notional.0
            &&& v.ledger.escrow(entry.handles[l].yes_buyer) == Some(
                Hold { party: escrow.yes_buyer, amount: escrow.yes_buyer_amount },
            )
            &&& v.ledger.escrow(entry.handles[l].yes_seller) == Some(
                Hold { party: escrow.yes_seller, amount: escrow.yes_seller_amount },
            )
        }),
{
    let owners = choose|owners: Seq<Owner>| v.owned(owners);
    let entry = v.entries[i];
    assert(entry.inv(v.ledger.slots, owners, i, v.config, v.next_seq));
    transitions::lemma_leg_index(entry.request, l);
    let handles = entry.handles[l];
    assert(entry.chunks_held(v.ledger.slots, owners, i, l));
}

/// A finished request holds nothing: no collateral, no escrow.
pub proof fn law_finished_requests_hold_nothing(v: EngineModel, i: int)
    requires
        v.wf(),
        0 <= i < v.entries.len(),
        finished(v.entries[i].request),
    ensures
        v.entries[i].handles.len() == 0,
        forall|j: int|
            0 <= j < v.entries[i].reservations.len() ==> (#[trigger] v.entries[i].reservations[j])
                is None,
        exists|owners: Seq<Owner>|
            v.owned(owners) && forall|r: int|
                0 <= r < v.ledger.slots.len() && (#[trigger] owners[r]).entry() == i
                    ==> v.ledger.slots[r] is Spent,
{
    let owners = choose|owners: Seq<Owner>| v.owned(owners);
    let entry = v.entries[i];
    assert(entry.inv(v.ledger.slots, owners, i, v.config, v.next_seq));
    assert forall|j: int| 0 <= j < entry.reservations.len() implies (
    #[trigger] entry.reservations[j]) is None by {
        assert(soundness::states_agree(entry.request.state, entry.request.quotes[j].state));
        assert(entry.reservations[j] is Some <==> entry.request.quotes[j].holds_collateral());
    }
    assert forall|r: int|
        0 <= r < v.ledger.slots.len() && (#[trigger] owners[r]).entry() == i implies v.ledger.slots[r]
        is Spent by {
        match owners[r] {
            Owner::Quote(_, j) => {
                if v.ledger.slots[r] !is Spent {
                    assert(entry.reservations[j] is None);
                }
            },
            _ => {},
        }
    }
    assert(v.owned(owners));
}

/// The accept window never runs past the instant at which the contracts resolve.
pub proof fn law_accept_window_ends_by_resolution(v: EngineModel, i: int)
    requires
        v.wf(),
        0 <= i < v.entries.len(),
        v.entries[i].request.state is Presented,
    ensures
        v.entries[i].request.accept_deadline matches Some(deadline) && deadline@
            <= v.entries[i].request.resolves_at@,
{
    keeps::lemma_entry_sound(v, i);
}

/// Whether some quote may be chosen for the `i`-th leg.
pub open spec fn has_eligible(
    e: EntryModel,
    now: Timestamp,
    accept_deadline: Timestamp,
    i: int,
) -> bool {
    exists|j: int|
        0 <= j < e.request.quotes.len() && matching::eligible(
            e.request.legs[i],
            #[trigger] e.request.quotes[j],
            now,
            accept_deadline,
        )
}

/// Presenting takes every leg or none: a request is presented exactly when every leg has an
/// eligible quote, and else fails over the first leg without one.
proof fn lemma_all_legs_or_none(e: EntryModel, now: Timestamp, accept_deadline: Timestamp)
    ensures
        ({
            let after = e.present_or_fail(now, accept_deadline).request;
            let matched = forall|i: int|
                0 <= i < e.request.legs.len() ==> #[trigger] has_eligible(
                    e,
                    now,
                    accept_deadline,
                    i,
                );
            &&& after.state is Presented <==> matched
            &&& !matched ==> after.state is Failed && exists|i: int|
                {
                    &&& 0 <= i < e.request.legs.len()
                    &&& !#[trigger] has_eligible(e, now, accept_deadline, i)
                    &&& forall|j: int|
                        0 <= j < i ==> #[trigger] has_eligible(e, now, accept_deadline, j)
                    &&& after.fail_reason == Some(FailReason::LegUnmatched(e.request.legs[i].id))
                }
        }),
{
    let alone = |leg: Leg|
        matching::best_index(leg, e.request.quotes, now, accept_deadline) is None;
    assert forall|i: int| 0 <= i < e.request.legs.len() implies #[trigger] has_eligible(
        e,
        now,
        accept_deadline,
        i,
    ) == !alone(e.request.legs[i]) by {
        matching::law_best_is_eligible_and_unbeaten(
            e.request.legs[i],
            e.request.quotes,
            now,
            accept_deadline,
        );
    }
    match e.unmatched(now, accept_deadline) {
        None => {
            assert forall|i: int| 0 <= i < e.request.legs.len() implies #[trigger] has_eligible(
                e,
                now,
                accept_deadline,
                i,
            ) by {
                if alone(e.request.legs[i]) {
                    seqs::lemma_first_exists(e.request.legs, alone, i);
                }
            }
        },
        Some(i) => {
            seqs::lemma_first_some(e.request.legs, alone);
            assert(!has_eligible(e, now, accept_deadline, i));
            assert forall|j: int| 0 <= j < i implies #[trigger] has_eligible(
                e,
                now,
                accept_deadline,
                j,
            ) by {
                assert(!alone(e.request.legs[j]));
            }
        },
    }
}

/// Whether the request is shown, for the `i`-th leg, a quote that is eligible for it and that no
/// eligible quote beats.
pub open spec fn shows_the_best(
    e: EntryModel,
    package: Seq<Selection>,
    now: Timestamp,
    accept_deadline: Timestamp,
    i: int,
) -> bool {
    &&& package[i].leg_id == e.request.legs[i].id
    &&& exists|j: int|
        {
            &&& 0 <= j < e.request.quotes.len()
            &&& package[i].quote_id == (#[trigger] e.request.quotes[j]).id
            &&& matching::unbeaten(
                e.request.legs[i],
                e.request.quotes,
                now,
                accept_deadline,
                e.request.quotes[j],
            )
        }
}

/// At its response deadline a request is presented exactly when every leg has an eligible quote:
/// the package then has the best quote of each leg, and the accept window ends with the accept
/// window's length or the resolution, whichever is earlier. Else the request fails over the first
/// leg without one: there is no package, and no quote holds collateral any more. There is room for
/// that wherever all that was ever credited is an amount.
pub proof fn law_presents_the_best_of_every_leg_or_fails(v: EngineModel, now: Timestamp, i: int)
    requires
        v.wf(),
        0 <= i < v.entries.len(),
        v.entries[i].request.state is Open,
        now@ >= v.entries[i].request.response_deadline@,
        now.plus(v.config.accept_window) is Some,
    ensures
        ({
            let e = v.entries[i];
            let until = now.plus(v.config.accept_window)->Some_0.earlier(e.request.resolves_at);
            let legs = e.request.legs.len() as int;
            let matched = forall|l: int|
                0 <= l < legs ==> #[trigger] has_eligible(e, now, until, l);
            &&& v.ledger.fits() && v.ledger.credited_total() <= u64::MAX ==> v.tick_entry(
                now,
                i,
            ) is Some
            &&& v.tick_entry(now, i) matches Some(w) ==> {
                let after = w.entries[i].request;
                &&& matched ==> {
                    &&& after.state is Presented
                    &&& after.accept_deadline == Some(until)
                    &&& after.package matches Some(package) && package.len() == legs && forall|
                        l: int,
                    |
                        0 <= l < legs ==> #[trigger] shows_the_best(e, package, now, until, l)
                }
                &&& !matched ==> {
                    &&& after.state is Failed
                    &&& after.package is None
                    &&& forall|j: int|
                        0 <= j < after.quotes.len() ==> !(
                        #[trigger] after.quotes[j]).holds_collateral()
                    &&& exists|l: int|
                        {
                            &&& 0 <= l < legs
                            &&& !#[trigger] has_eligible(e, now, until, l)
                            &&& forall|j: int|
                                0 <= j < l ==> #[trigger] has_eligible(e, now, until, j)
                            &&& after.fail_reason == Some(
                                FailReason::LegUnmatched(e.request.legs[l].id),
                            )
                        }
                }
            }
        }),
{
    let e = v.entries[i];
    keeps::lemma_entry_sound(v, i);
    let until = now.plus(v.config.accept_window)->Some_0.earlier(e.request.resolves_at);
    let fresh = e.release(Scope::Expired(now));
    let after = fresh.present_or_fail(now, until).request;
    if v.ledger.fits() && v.ledger.credited_total() <= u64::MAX {
        room::lemma_room_within_credits(e, v.ledger, Scope::Expired(now));
        room::lemma_room_within_credits(
            fresh,
            e.release_all_holds(v.ledger, Scope::Expired(now)),
            Scope::All,
        );
    }
    let legs = e.request.legs.len() as int;
    assert forall|leg: Leg, j: int|
        0 <= j < e.request.quotes.len() implies #[trigger] matching::eligible(
        leg,
        fresh.request.quotes[j],
        now,
        until,
    ) == matching::eligible(leg, e.request.quotes[j], now, until) by {
        assert(e.lets_go(Scope::Expired(now), j) ==> e.request.quotes[j].expires_at@ <= now@);
    }
    assert forall|l: int| 0 <= l < legs implies #[trigger] has_eligible(fresh, now, until, l)
        == has_eligible(e, now, until, l) by {
        let leg = e.request.legs[l];
        if has_eligible(fresh, now, until, l) {
            let j = choose|j: int|
                0 <= j < fresh.request.quotes.len() && matching::eligible(
                    leg,
                    #[trigger] fresh.request.quotes[j],
                    now,
                    until,
                );
            assert(matching::eligible(leg, e.request.quotes[j], now, until));
        }
        if has_eligible(e, now, until, l) {
            let j = choose|j: int|
                0 <= j < e.request.quotes.len() && matching::eligible(
                    leg,
                    #[trigger] e.request.quotes[j],
                    now,
                    until,
                );
            assert(matching::eligible(leg, fresh.request.quotes[j], now, until));
        }
    }
    lemma_all_legs_or_none(fresh, now, until);
    if after.state is Presented {
        assert forall|l: int| 0 <= l < legs implies has_eligible(e, now, until, l) by {
            assert(has_eligible(fresh, now, until, l));
        }
        transitions::lemma_all_matched(fresh, now, until);
        let package = after.package->Some_0;
        assert forall|l: int| 0 <= l < legs implies #[trigger] shows_the_best(
            e,
            package,
            now,
            until,
            l,
        ) by {
            let leg = e.request.legs[l];
            let j = fresh.best(l, now, until)->Some_0;
            assert(matching::eligible(leg, fresh.request.quotes[j], now, until));
            assert(e.request.quotes[j] == fresh.request.quotes[j]);
            assert forall|o: int|
                0 <= o < e.request.quotes.len() && matching::eligible(
                    leg,
                    #[trigger] e.request.quotes[o],
                    now,
                    until,
                ) implies !matching::beats(leg, e.request.quotes[o], e.request.quotes[j]) by {
                assert(matching::eligible(leg, fresh.request.quotes[o], now, until));
                assert(e.request.quotes[o] == fresh.request.quotes[o]);
            }
        }
    } else {
        let l = choose|l: int|
            {
                &&& 0 <= l < legs
                &&& !#[trigger] has_eligible(fresh, now, until, l)
                &&& forall|j: int| 0 <= j < l ==> #[trigger] has_eligible(fresh, now, until, j)
                &&& after.fail_reason == Some(FailReason::LegUnmatched(e.request.legs[l].id))
            };
        assert(!has_eligible(e, now, until, l));
        assert forall|j: int| 0 <= j < l implies #[trigger] has_eligible(e, now, until, j) by {
            assert(has_eligible(fresh, now, until, j));
        }
    }
}

/// At one price the quote that was submitted first wins: quotes stand in the order of
/// submission, and their numbers grow.
pub proof fn law_quotes_are_numbered_in_order(v: EngineModel, i: int, a: int, b: int)
    requires
        v.wf(),
        0 <= i < v.entries.len(),
        0 <= a < b < v.entries[i].request.quotes.len(),
    ensures
        v.entries[i].request.quotes[a].seq.0 < v.entries[i].request.quotes[b].seq.0,
        v.entries[i].request.quotes[b].seq.0 < v.next_seq.0,
        forall|leg: Leg|
            v.entries[i].request.quotes[a].price == v.entries[i].request.quotes[b].price
                ==> #[trigger] matching::beats(
                leg,
                v.entries[i].request.quotes[a],
                v.entries[i].request.quotes[b],
            ),
{
    keeps::lemma_entry_sound(v, i);
}

/// Every unit that was credited is still in some account.
pub proof fn law_funds_are_conserved(v: EngineModel)
    requires
        v.wf(),
    ensures
        v.ledger.held_total() == v.ledger.credited_total(),
{
    laws::law_conservation(v.ledger);
}

/// What the legs that a party wins are worth together.
pub open spec fn winnings(escrows: Seq<Escrow>, outcome: OracleOutcome, party: PartyId) -> int {
    seqs::sum_by(
        escrows,
        |escrow: Escrow|
            if model::winner(escrow, outcome) == party {
                escrow.notional.0 as int
            } else {
                0
            },
    )
}

/// What a party put up for a leg: its side of it, if it has one.
pub open spec fn put_up(escrow: Escrow, party: PartyId) -> int {
    (if escrow.yes_buyer == party {
        escrow.yes_buyer_amount.0 as int
    } else {
        0
    }) + (if escrow.yes_seller == party {
        escrow.yes_seller_amount.0 as int
    } else {
        0
    })
}

/// What a party put up for the legs together.
pub open spec fn stakes(escrows: Seq<Escrow>, party: PartyId) -> int {
    seqs::sum_by(escrows, |escrow: Escrow| put_up(escrow, party))
}

/// Whether a party has got what it won, and what it put up is out of escrow.
pub open spec fn paid_out(
    m: LedgerModel,
    n: LedgerModel,
    escrows: Seq<Escrow>,
    outcome: OracleOutcome,
    party: PartyId,
) -> bool {
    let before = m.account(party);
    let after = n.account(party);
    &&& after.free == before.free + winnings(escrows, outcome, party)
    &&& after.reserved == before.reserved
    &&& after.escrowed == before.escrowed - stakes(escrows, party)
}

/// Whether a party has got back what it put up.
pub open spec fn refunded(
    m: LedgerModel,
    n: LedgerModel,
    escrows: Seq<Escrow>,
    party: PartyId,
) -> bool {
    let before = m.account(party);
    let after = n.account(party);
    &&& after.free == before.free + stakes(escrows, party)
    &&& after.reserved == before.reserved
    &&& after.escrowed == before.escrowed - stakes(escrows, party)
}

/// What a chunk leaving escrow makes of a party's balances, and of the handles.
proof fn lemma_chunk_moves(
    m: LedgerModel,
    handle: ledger::EscrowHandle,
    to: PartyId,
    party: PartyId,
)
    requires
        m.wf(),
        m.escrow(handle) is Some,
    ensures
        ({
            let hold = m.escrow(handle)->Some_0;
            let before = m.account(party);
            let out = if party == hold.party {
                hold.amount.0 as int
            } else {
                0
            };
            let gain = if party == to {
                hold.amount.0 as int
            } else {
                0
            };
            let back = m.refund(handle).account(party);
            let paid = m.payout(handle, to).account(party);
            &&& back.free == before.free + out
            &&& back.reserved == before.reserved
            &&& back.escrowed == before.escrowed - out
            &&& paid.free == before.free + gain
            &&& paid.reserved == before.reserved
            &&& paid.escrowed == before.escrowed - out
        }),
{
    let hold = m.escrow(handle)->Some_0;
    laws::lemma_holds_are_covered(m, handle.0 as int);
    assert(m.row_ok(PartyId(hold.party.0)));
    assert(m.row_ok(PartyId(to.0)));
}

/// Paying out the first `n` legs gives each party the notionals that it wins.
pub proof fn lemma_pay_legs_balances(
    e: EntryModel,
    m: LedgerModel,
    owners: Seq<Owner>,
    k: int,
    outcome: OracleOutcome,
    n: int,
    party: PartyId,
)
    requires
        m.wf(),
        transitions::escrow_backed(e, m.slots, owners, k),
        0 <= n <= e.handles.len(),
    ensures
        paid_out(
            m,
            model::pay_legs(m, e.request.escrows, e.handles, outcome, n),
            e.request.escrows.take(n),
            outcome,
            party,
        ),
    decreases n,
{
    let escrows = e.request.escrows;
    if n == 0 {
        assert(escrows.take(0).len() == 0);
    } else {
        let rest = model::pay_legs(m, escrows, e.handles, outcome, n - 1);
        lemma_pay_legs_balances(e, m, owners, k, outcome, n - 1, party);
        transitions::lemma_pay_legs(e, m, owners, k, outcome, n - 1);
        let escrow = escrows[n - 1];
        let handles = e.handles[n - 1];
        let to = model::winner(escrow, outcome);
        assert(e.chunks_held(m.slots, owners, k, n - 1));
        assert(rest.slots[handles.yes_buyer.0 as int] == m.slots[handles.yes_buyer.0 as int]);
        assert(rest.slots[handles.yes_seller.0 as int] == m.slots[handles.yes_seller.0 as int]);
        let half = rest.payout(handles.yes_buyer, to);
        lemma_chunk_moves(rest, handles.yes_buyer, to, party);
        laws::lemma_payout_wf(rest, handles.yes_buyer, to);
        assert(half.slots =~= rest.slots.update(handles.yes_buyer.0 as int, Slot::Spent));
        lemma_chunk_moves(half, handles.yes_seller, to, party);
        seqs::lemma_sum_take(
            escrows,
            |escrow: Escrow|
                if model::winner(escrow, outcome) == party {
                    escrow.notional.0 as int
                } else {
                    0
                },
            n - 1,
        );
        seqs::lemma_sum_take(escrows, |escrow: Escrow| put_up(escrow, party), n - 1);
    }
}

/// Refunding the first `n` legs gives each party what it put up.
pub proof fn lemma_refund_legs_balances(
    e: EntryModel,
    m: LedgerModel,
    owners: Seq<Owner>,
    k: int,
    n: int,
    party: PartyId,
)
    requires
        m.wf(),
        transitions::escrow_backed(e, m.slots, owners, k),
        0 <= n <= e.handles.len(),
    ensures
        refunded(
            m,
            model::refund_legs(m, e.handles, n),
            e.request.escrows.take(n),
            party,
        ),
    decreases n,
{
    let escrows = e.request.escrows;
    if n == 0 {
        assert(escrows.take(0).len() == 0);
    } else {
        let rest = model::refund_legs(m, e.handles, n - 1);
        lemma_refund_legs_balances(e, m, owners, k, n - 1, party);
        transitions::lemma_refund_legs(e, m, owners, k, n - 1);
        let handles = e.handles[n - 1];
        assert(e.chunks_held(m.slots, owners, k, n - 1));
        assert(rest.slots[handles.yes_buyer.0 as int] == m.slots[handles.yes_buyer.0 as int]);
        assert(rest.slots[handles.yes_seller.0 as int] == m.slots[handles.yes_seller.0 as int]);
        let half = rest.refund(handles.yes_buyer);
        lemma_chunk_moves(rest, handles.yes_buyer, party, party);
        laws::lemma_refund_wf(rest, handles.yes_buyer);
        assert(half.slots =~= rest.slots.update(handles.yes_buyer.0 as int, Slot::Spent));
        lemma_chunk_moves(half, handles.yes_seller, party, party);
        seqs::lemma_sum_take(escrows, |escrow: Escrow| put_up(escrow, party), n - 1);
    }
}

/// A settled request pays the winner of each leg exactly the leg's notional and nobody anything
/// else, whether an outcome settles it or the end of the dispute window does.
pub proof fn law_winners_get_the_notionals(
    v: EngineModel,
    now: Timestamp,
    request_id: RequestId,
    outcome: OracleOutcome,
    party: PartyId,
)
    requires
        v.wf(),
        v.find(request_id) is Some,
    ensures
        ({
            let i = v.find(request_id)->Some_0;
            let request = v.entries[i].request;
            &&& v.resolve(now, request_id, outcome) matches Some(done) ==> (done.answer matches Ok(
                after,
            ) && after.state is Settled ==> paid_out(
                v.ledger,
                done.venue.ledger,
                request.escrows,
                outcome,
                party,
            ))
            &&& request.state is Reported ==> (v.tick_entry(now, i) matches Some(after) ==> (
            after.entries[i].request.state is Settled ==> paid_out(
                v.ledger,
                after.ledger,
                request.escrows,
                request.reported_outcome->Some_0,
                party,
            )))
        }),
{
    keeps::lemma_found(v, request_id);
    let i = v.find(request_id)->Some_0;
    let e = v.entries[i];
    let owners = choose|owners: Seq<Owner>| v.owned(owners);
    assert(e.inv(v.ledger.slots, owners, i, v.config, v.next_seq));
    if e.in_escrow() {
        let n = e.request.escrows.len() as int;
        assert(e.request.escrows.take(n) =~= e.request.escrows);
        lemma_pay_legs_balances(e, v.ledger, owners, i, outcome, n, party);
        if e.request.state is Reported {
            let reported = e.request.reported_outcome->Some_0;
            lemma_pay_legs_balances(e, v.ledger, owners, i, reported, n, party);
        }
    }
}

/// An unwound request gives every poster its own back and nobody anything else, whether an
/// outcome unwinds it or the end of a dispute does.
pub proof fn law_unwinding_refunds_each_poster(
    v: EngineModel,
    now: Timestamp,
    request_id: RequestId,
    outcome: OracleOutcome,
    party: PartyId,
)
    requires
        v.wf(),
        v.find(request_id) is Some,
    ensures
        ({
            let i = v.find(request_id)->Some_0;
            let request = v.entries[i].request;
            &&& v.resolve(now, request_id, outcome) matches Some(done) ==> (done.answer matches Ok(
                after,
            ) && after.state is Unwound ==> refunded(
                v.ledger,
                done.venue.ledger,
                request.escrows,
                party,
            ))
            &&& request.state is Disputed ==> (v.tick_entry(now, i) matches Some(after) ==> (
            after.entries[i].request.state is Unwound ==> refunded(
                v.ledger,
                after.ledger,
                request.escrows,
                party,
            )))
        }),
{
    keeps::lemma_found(v, request_id);
    let i = v.find(request_id)->Some_0;
    let e = v.entries[i];
    let owners = choose|owners: Seq<Owner>| v.owned(owners);
    assert(e.inv(v.ledger.slots, owners, i, v.config, v.next_seq));
    if e.in_escrow() {
        let n = e.request.escrows.len() as int;
        assert(e.request.escrows.take(n) =~= e.request.escrows);
        lemma_refund_legs_balances(e, v.ledger, owners, i, n, party);
    }
}

pub proof fn lemma_release_holds_gains(e: EntryModel, m: LedgerModel, scope: Scope, k: int)
    requires
        m.wf(),
    ensures
        e.release_holds(m, scope, k).wf(),
        laws::nobody_gains(m, e.release_holds(m, scope, k)),
        e.release_holds(m, scope, k).lock_batch_calls == m.lock_batch_calls,
    decreases k,
{
    if k > 0 {
        lemma_release_holds_gains(e, m, scope, k - 1);
        let rest = e.release_holds(m, scope, k - 1);
        if let Some(id) = e.reservations[k - 1] {
            laws::lemma_release_wf(rest, id);
            laws::lemma_release_gains(rest, id);
            laws::lemma_nobody_gains_twice(m, rest, rest.release(id));
        }
    }
}

pub proof fn lemma_refund_legs_gains(m: LedgerModel, handles: Seq<LegEscrow>, k: int)
    requires
        m.wf(),
    ensures
        model::refund_legs(m, handles, k).wf(),
        laws::nobody_gains(m, model::refund_legs(m, handles, k)),
        model::refund_legs(m, handles, k).lock_batch_calls == m.lock_batch_calls,
    decreases k,
{
    if k > 0 {
        lemma_refund_legs_gains(m, handles, k - 1);
        let rest = model::refund_legs(m, handles, k - 1);
        let half = rest.refund(handles[k - 1].yes_buyer);
        laws::lemma_refund_wf(rest, handles[k - 1].yes_buyer);
        laws::lemma_refund_gains(rest, handles[k - 1].yes_buyer);
        laws::lemma_refund_wf(half, handles[k - 1].yes_seller);
        laws::lemma_refund_gains(half, handles[k - 1].yes_seller);
        laws::lemma_nobody_gains_twice(m, rest, half);
        laws::lemma_nobody_gains_twice(m, half, half.refund(handles[k - 1].yes_seller));
    }
}

/// Quoting, cancelling, accepting, rejecting, disputing and an invalid outcome never move money
/// from one party to another: each party's total stays the same.
pub proof fn law_only_outcomes_move_money_between_parties(
    v: EngineModel,
    now: Timestamp,
    party: PartyId,
    request_id: RequestId,
    leg_id: LegId,
    quote_id: QuoteId,
    fresh: QuoteId,
    price: Price,
    size: Amount,
    expires_at: Timestamp,
)
    requires
        v.wf(),
    ensures
        laws::nobody_gains(
            v.ledger,
            v.submit_quote(
                now,
                fresh,
                party,
                request_id,
                leg_id,
                price,
                size,
                expires_at,
            ).venue.ledger,
        ),
        laws::nobody_gains(v.ledger, v.cancel_quote(party, quote_id).venue.ledger),
        v.accept(now, party, request_id) matches Some(done) ==> laws::nobody_gains(
            v.ledger,
            done.venue.ledger,
        ),
        laws::nobody_gains(v.ledger, v.reject(party, request_id).venue.ledger),
        v.dispute(now, party, request_id) matches Some(done) ==> done.venue.ledger == v.ledger,
        v.resolve(now, request_id, OracleOutcome::Invalid) matches Some(done) ==> laws::nobody_gains(
            v.ledger,
            done.venue.ledger,
        ),
{
    keeps::lemma_found(v, request_id);
    keeps::lemma_quote_found(v, quote_id);
    assert(v.ledger.row_ok(PartyId(party.0)));
    if let Some(i) = v.find_quote(quote_id) {
        let e = v.entries[i];
        lemma_release_holds_gains(
            e,
            v.ledger,
            Scope::Named(quote_id),
            e.request.quotes.len() as int,
        );
    }
    if let Some(i) = v.find(request_id) {
        let e = v.entries[i];
        let n = e.request.quotes.len() as int;
        lemma_release_holds_gains(e, v.ledger, Scope::All, n);
        lemma_refund_legs_gains(v.ledger, e.handles, e.request.escrows.len() as int);
        if v.answer_refusal(party, request_id) is None {
            let items = e.planned_items();
            let batch = v.ledger.lock_batch(items);
            keeps::lemma_plan_refused_for_funds(v, i);
            laws::lemma_counted(v.ledger, items);
            laws::lemma_lock_batch_wf(v.ledger, items);
            assert(laws::nobody_gains(v.ledger, v.ledger.counted()));
            if v.ledger.batch_error(items) is None {
                laws::lemma_lock_items_gains(v.ledger.counted(), items, items.len() as int);
                laws::lemma_nobody_gains_twice(v.ledger, v.ledger.counted(), batch);
            }
            lemma_release_holds_gains(e, batch, Scope::All, n);
            lemma_release_holds_gains(e, batch, Scope::Losing, n);
            laws::lemma_nobody_gains_twice(
                v.ledger,
                batch,
                e.release_all_holds(batch, Scope::All),
            );
            laws::lemma_nobody_gains_twice(
                v.ledger,
                batch,
                e.release_all_holds(batch, Scope::Losing),
            );
        }
    }
}

/// Whether nobody has more or less in escrow.
pub open spec fn same_escrow(m: LedgerModel, n: LedgerModel) -> bool {
    forall|p: u128|
        (#[trigger] n.account(PartyId(p))).escrowed == m.account(PartyId(p)).escrowed
}

/// Releasing reservations takes nothing out of escrow.
pub proof fn lemma_release_holds_escrow(e: EntryModel, m: LedgerModel, scope: Scope, k: int)
    requires
        m.wf(),
    ensures
        same_escrow(m, e.release_holds(m, scope, k)),
    decreases k,
{
    if k > 0 {
        lemma_release_holds_escrow(e, m, scope, k - 1);
        let rest = e.release_holds(m, scope, k - 1);
        let after = e.release_holds(m, scope, k);
        assert forall|p: u128|
            (#[trigger] after.account(PartyId(p))).escrowed == m.account(PartyId(p)).escrowed by {
            assert(rest.account(PartyId(p)).escrowed == m.account(PartyId(p)).escrowed);
        }
    }
}

/// The two items of a leg of a package hold what each party is to put up for it.
proof fn lemma_leg_parts(
    e: EntryModel,
    m: LedgerModel,
    owners: Seq<Owner>,
    k: int,
    config: EngineConfig,
    next: SeqNo,
    i: int,
    party: PartyId,
)
    requires
        e.inv(m.slots, owners, k, config, next),
        e.request.state is Presented,
        0 <= i < e.request.legs.len(),
    ensures
        e.planned_items().len() == 2 * e.request.legs.len(),
        e.planned_escrows().len() == e.request.legs.len(),
        laws::item_part(m, e.planned_items()[2 * i], party) + laws::item_part(
            m,
            e.planned_items()[2 * i + 1],
            party,
        ) == put_up(e.planned_escrows()[i], party),
{
    transitions::lemma_selection(e, m.slots, owners, k, config, next, i);
    let items = e.planned_items();
    let j = e.selected_quote(i);
    assert((2 * i) / 2 == i && (2 * i) % 2 == 0);
    assert((2 * i + 1) / 2 == i && (2 * i + 1) % 2 == 1);
    assert(items[2 * i] == LockItem::FromReservation(e.reservations[j]->Some_0));
    assert(items[2 * i + 1] == (LockItem::FromFree {
        party: e.request.requester,
        amount: e.requester_lock(i),
    }));
    request::law_collateral_is_the_makers_side(
        e.request.quotes[j],
        e.named_leg(i),
        e.request.requester,
    );
}

/// The items of the first `n` legs of a package hold what each party is to put up for them.
pub proof fn lemma_plan_parts(
    e: EntryModel,
    m: LedgerModel,
    owners: Seq<Owner>,
    k: int,
    config: EngineConfig,
    next: SeqNo,
    n: int,
    party: PartyId,
)
    requires
        e.inv(m.slots, owners, k, config, next),
        e.request.state is Presented,
        0 <= n <= e.request.legs.len(),
    ensures
        seqs::sum_by(
            e.planned_items().take(2 * n),
            |item: LockItem| laws::item_part(m, item, party),
        ) == stakes(e.planned_escrows().take(n), party),
    decreases n,
{
    let items = e.planned_items();
    let escrows = e.planned_escrows();
    if n == 0 {
        assert(items.take(0).len() == 0);
        assert(escrows.take(0).len() == 0);
    } else {
        let i = n - 1;
        lemma_plan_parts(e, m, owners, k, config, next, i, party);
        lemma_leg_parts(e, m, owners, k, config, next, i, party);
        seqs::lemma_sum_take(items, |item: LockItem| laws::item_part(m, item, party), 2 * i);
        seqs::lemma_sum_take(items, |item: LockItem| laws::item_part(m, item, party), 2 * i + 1);
        seqs::lemma_sum_take(escrows, |escrow: Escrow| put_up(escrow, party), i);
    }
}

/// Accepting locks everything or nothing. Where it succeeds there is an escrow for every leg,
/// every party has exactly its sides of them put into escrow, the selected quotes are locked and
/// the live ones released. Where it fails the request fails: nothing goes into escrow and no
/// quote holds collateral any more.
pub proof fn law_accept_locks_all_or_nothing(
    v: EngineModel,
    now: Timestamp,
    request_id: RequestId,
    party: PartyId,
)
    requires
        v.wf(),
        v.find(request_id) is Some,
        v.entries[v.find(request_id)->Some_0].request.state is Presented,
        v.accept(
            now,
            v.entries[v.find(request_id)->Some_0].request.requester,
            request_id,
        ) is Some,
    ensures
        ({
            let i = v.find(request_id)->Some_0;
            let before = v.entries[i].request;
            let done = v.accept(now, before.requester, request_id)->Some_0;
            let after = done.venue.entries[i].request;
            let balance = done.venue.ledger.account(party);
            &&& after.quotes.len() == before.quotes.len()
            &&& match done.answer {
                Ok(answer) => {
                    &&& answer == after
                    &&& after.state is Locked
                    &&& after.escrows.len() == before.legs.len()
                    &&& balance.escrowed == v.ledger.account(party).escrowed + stakes(
                        after.escrows,
                        party,
                    )
                    &&& forall|j: int|
                        0 <= j < before.quotes.len() ==> (#[trigger] after.quotes[j]).state
                            == match before.quotes[j].state {
                            QuoteState::Selected => QuoteState::Locked,
                            QuoteState::Live => QuoteState::Released,
                            other => other,
                        }
                },
                Err(_) => {
                    &&& after.state is Failed
                    &&& after.escrows.len() == 0
                    &&& balance.escrowed == v.ledger.account(party).escrowed
                    &&& forall|j: int|
                        0 <= j < before.quotes.len() ==> !(
                        #[trigger] after.quotes[j]).holds_collateral()
                },
            }
        }),
{
    keeps::lemma_found(v, request_id);
    let i = v.find(request_id)->Some_0;
    let e = v.entries[i];
    let owners = choose|owners: Seq<Owner>| v.owned(owners);
    assert(e.inv(v.ledger.slots, owners, i, v.config, v.next_seq));
    let n = e.request.quotes.len() as int;
    let items = e.planned_items();
    let batch = v.ledger.lock_batch(items);
    transitions::lemma_plan_refusal(e, v.ledger, owners, i, v.config, v.next_seq);
    laws::lemma_counted(v.ledger, items);
    laws::lemma_lock_batch_wf(v.ledger, items);
    lemma_release_holds_escrow(e, v.ledger, Scope::All, n);
    lemma_release_holds_escrow(e, batch, Scope::All, n);
    lemma_release_holds_escrow(e, batch, Scope::Losing, n);
    assert(e.release_holds(v.ledger, Scope::All, n).account(PartyId(party.0)).escrowed
        == v.ledger.account(party).escrowed);
    assert(e.release_holds(batch, Scope::All, n).account(PartyId(party.0)).escrowed
        == batch.account(party).escrowed);
    assert(e.release_holds(batch, Scope::Losing, n).account(PartyId(party.0)).escrowed
        == batch.account(party).escrowed);
    transitions::lemma_selection(e, v.ledger.slots, owners, i, v.config, v.next_seq, 0);
    if v.ledger.batch_error(items) is None {
        let counted = v.ledger.counted();
        let legs = e.request.legs.len() as int;
        laws::lemma_lock_items_for(counted, items, items.len() as int, party);
        lemma_plan_parts(e, counted, owners, i, v.config, v.next_seq, legs, party);
        assert(items.take(2 * legs) =~= items);
        assert(e.planned_escrows().take(legs) =~= e.planned_escrows());
    }
}

/// Escrow comes with accepting and goes with outcomes: quoting, cancelling, rejecting and an accept
/// that fails leave how much there is as it is, accepting does not lessen it, and an outcome does
/// not add to it.
#[verifier::spinoff_prover]
#[verifier::rlimit(50)]
pub proof fn law_escrow_comes_with_accept_and_goes_with_outcomes(
    v: EngineModel,
    now: Timestamp,
    party: PartyId,
    request_id: RequestId,
    leg_id: LegId,
    quote_id: QuoteId,
    fresh: QuoteId,
    price: Price,
    size: Amount,
    expires_at: Timestamp,
    outcome: OracleOutcome,
)
    requires
        v.wf(),
    ensures
        v.submit_quote(
            now,
            fresh,
            party,
            request_id,
            leg_id,
            price,
            size,
            expires_at,
        ).venue.ledger.escrowed_total() == v.ledger.escrowed_total(),
        v.cancel_quote(party, quote_id).venue.ledger.escrowed_total() == v.ledger.escrowed_total(),
        v.reject(party, request_id).venue.ledger.escrowed_total() == v.ledger.escrowed_total(),
        v.accept(now, party, request_id) matches Some(done) ==> {
            &&& done.answer is Err ==> done.venue.ledger.escrowed_total()
                == v.ledger.escrowed_total()
            &&& done.venue.ledger.escrowed_total() >= v.ledger.escrowed_total()
        },
        v.resolve(now, request_id, outcome) matches Some(done)
            ==> done.venue.ledger.escrowed_total() <= v.ledger.escrowed_total(),
{
    let owners = choose|owners: Seq<Owner>| v.owned(owners);
    keeps::lemma_found(v, request_id);
    keeps::lemma_quote_found(v, quote_id);
    if let Some(i) = v.find_quote(quote_id) {
        let e = v.entries[i];
        assert(e.inv(v.ledger.slots, owners, i, v.config, v.next_seq));
        let scope = Scope::Named(quote_id);
        if e.request.state is Open {
            transitions::lemma_release_entry(
                e,
                v.ledger,
                owners,
                i,
                v.config,
                v.next_seq,
                scope,
            );
        }
    }
    if let Some(i) = v.find(request_id) {
        let e = v.entries[i];
        assert(e.inv(v.ledger.slots, owners, i, v.config, v.next_seq));
        let done = v.submit_quote(
            now,
            fresh,
            party,
            request_id,
            leg_id,
            price,
            size,
            expires_at,
        );
        if done.answer is Ok {
            let leg = e.request.legs[e.request.leg_index(leg_id)->Some_0];
            laws::lemma_reserve_wf(v.ledger, party, done.answer->Ok_0.collateral(leg));
        }
        if e.request.state is Presented {
            let items = e.planned_items();
            let batch = v.ledger.lock_batch(items);
            laws::lemma_counted(v.ledger, items);
            laws::lemma_lock_batch_wf(v.ledger, items);
            transitions::lemma_plan_refusal(e, v.ledger, owners, i, v.config, v.next_seq);
            transitions::lemma_fail_entry(
                e,
                v.ledger,
                owners,
                i,
                v.config,
                v.next_seq,
                FailReason::Rejected,
            );
            if v.ledger.batch_error(items) is Some {
                transitions::lemma_fail_entry(
                    e,
                    batch,
                    owners,
                    i,
                    v.config,
                    v.next_seq,
                    FailReason::Rejected,
                );
            } else {
                transitions::lemma_lock_escrow(e, v.ledger, owners, i, v.config, v.next_seq);
            }
        }
        if e.in_escrow() {
            let due = |escrow: Escrow| escrow.notional.0 as int;
            seqs::lemma_sum_bounds(e.request.escrows, due);
            transitions::lemma_settle_entry(
                e,
                v.ledger,
                owners,
                i,
                v.config,
                v.next_seq,
                outcome,
            );
            transitions::lemma_unwind_entry(e, v.ledger, owners, i, v.config, v.next_seq);
        }
    }
}

/// Cancelling undoes quoting: every party's balances are as they were.
pub proof fn law_cancel_undoes_quote(
    v: EngineModel,
    now: Timestamp,
    id: QuoteId,
    maker: PartyId,
    request_id: RequestId,
    leg_id: LegId,
    price: Price,
    size: Amount,
    expires_at: Timestamp,
    other: PartyId,
)
    requires
        v.wf(),
        keeps::quote_id_fresh(v, id),
        v.submit_quote(now, id, maker, request_id, leg_id, price, size, expires_at).answer is Ok,
        v.ledger.slots.len() < u64::MAX,
    ensures
        ({
            let w = v.submit_quote(
                now,
                id,
                maker,
                request_id,
                leg_id,
                price,
                size,
                expires_at,
            ).venue;
            let undone = w.cancel_quote(maker, id);
            &&& undone.answer is Ok
            &&& undone.venue.ledger.account(other) == v.ledger.account(other)
        }),
{
    keeps::lemma_found(v, request_id);
    let done = v.submit_quote(now, id, maker, request_id, leg_id, price, size, expires_at);
    let w = done.venue;
    let i = v.find(request_id)->Some_0;
    let e = v.entries[i];
    let f = w.entries[i];
    let n = e.request.quotes.len() as int;
    keeps::lemma_entry_sound(v, i);
    let leg = e.request.legs[e.request.leg_index(leg_id)->Some_0];
    let lock = done.answer->Ok_0.collateral(leg);
    let named = |q: Quote| q.id == id;
    let on = |x: EntryModel| x.request.quote_index(id) is Some;
    assert forall|j: int| 0 <= j < n implies !named(#[trigger] f.request.quotes[j]) by {
        keeps::lemma_quote_id_fresh(v, id, i, j);
    }
    seqs::lemma_first_is(f.request.quotes, named, n);
    assert forall|k: int| 0 <= k < i implies !on(#[trigger] w.entries[k]) by {
        if on(v.entries[k]) {
            seqs::lemma_first_exists(v.entries, on, k);
        }
    }
    seqs::lemma_first_is(w.entries, on, i);
    let scope = Scope::Named(id);
    assert forall|j: int| 0 <= j < n implies !(#[trigger] f.lets_go(scope, j)) by {
        assert(!named(f.request.quotes[j]));
    }
    lemma_nothing_let_go(f, w.ledger, scope, n);
    assert(f.lets_go(scope, n));
    assert(f.release_all_holds(w.ledger, scope) == w.ledger.release(
        ReservationId(v.ledger.slots.len() as u64),
    ));
    laws::law_release_undoes_reserve(v.ledger, maker, lock, other);
}

/// Where none of the first quotes is let go, releasing them changes nothing.
proof fn lemma_nothing_let_go(e: EntryModel, m: LedgerModel, scope: Scope, k: int)
    requires
        forall|j: int| 0 <= j < k ==> !(#[trigger] e.lets_go(scope, j)),
    ensures
        e.release_holds(m, scope, k) == m,
    decreases k,
{
    if k > 0 {
        lemma_nothing_let_go(e, m, scope, k - 1);
    }
}

/// Nobody quotes its own request: such a quote is refused and leaves no trace, and there is none
/// on any request.
pub proof fn law_nobody_quotes_its_own_request(
    v: EngineModel,
    now: Timestamp,
    id: QuoteId,
    i: int,
    leg_id: LegId,
    price: Price,
    size: Amount,
    expires_at: Timestamp,
)
    requires
        v.wf(),
        0 <= i < v.entries.len(),
        v.find(v.entries[i].request.id) == Some(i),
    ensures
        ({
            let request = v.entries[i].request;
            let done = v.submit_quote(
                now,
                id,
                request.requester,
                request.id,
                leg_id,
                price,
                size,
                expires_at,
            );
            &&& done.venue == v
            &&& request.state is Open ==> done.answer == Err::<Quote, EngineError>(
                EngineError::SelfQuote,
            )
            &&& request.state !is Open ==> done.answer == Err::<Quote, EngineError>(
                EngineError::WrongState { expected: RequestState::Open, actual: request.state },
            )
            &&& forall|j: int|
                0 <= j < request.quotes.len() ==> (#[trigger] request.quotes[j]).maker
                    != request.requester
        }),
{
    keeps::lemma_entry_sound(v, i);
}

/// Quotes that are not a party's do not touch its account when they are let go.
proof fn lemma_release_holds_spares(
    e: EntryModel,
    m: LedgerModel,
    scope: Scope,
    k: int,
    party: PartyId,
)
    requires
        0 <= k <= e.reservations.len(),
        forall|j: int|
            0 <= j < k ==> ((#[trigger] e.reservations[j]) matches Some(id) ==> (m.reservation(
                id,
            ) matches Some(hold) ==> hold.party != party)),
    ensures
        e.release_holds(m, scope, k).account(party) == m.account(party),
        forall|id: ReservationId|
            (#[trigger] e.release_holds(m, scope, k).reservation(id)) is Some ==> e.release_holds(
                m,
                scope,
                k,
            ).reservation(id) == m.reservation(id),
    decreases k,
{
    if k > 0 {
        lemma_release_holds_spares(e, m, scope, k - 1, party);
        let rest = e.release_holds(m, scope, k - 1);
        if let Some(id) = e.reservations[k - 1] {
            assert(rest.reservation(id) is Some ==> rest.reservation(id) == m.reservation(id));
        }
        let after = e.release_holds(m, scope, k);
        assert forall|id: ReservationId|
            (#[trigger] after.reservation(id)) is Some implies after.reservation(id)
            == m.reservation(id) by {
            assert(rest.reservation(id) == after.reservation(id));
        }
    }
}

/// A request that comes to nothing costs its requester nothing: rejecting, an accept that comes
/// too late or is not funded, a quote that expires, a deadline without a full package and an
/// accept window that runs out all leave every one of the requester's balances as it is.
pub proof fn law_failing_costs_the_requester_nothing(
    v: EngineModel,
    now: Timestamp,
    request_id: RequestId,
)
    requires
        v.wf(),
        v.find(request_id) is Some,
    ensures
        ({
            let i = v.find(request_id)->Some_0;
            let request = v.entries[i].request;
            let requester = request.requester;
            let before = v.ledger.account(requester);
            &&& v.reject(requester, request_id).venue.ledger.account(requester) == before
            &&& v.accept(now, requester, request_id) matches Some(accepted) ==> (
            accepted.answer is Err ==> accepted.venue.ledger.account(requester) == before)
            &&& request.state is Open || request.state is Presented ==> (v.tick_entry(
                now,
                i,
            ) matches Some(w) ==> w.ledger.account(requester) == before)
        }),
{
    keeps::lemma_found(v, request_id);
    let i = v.find(request_id)->Some_0;
    let e = v.entries[i];
    let n = e.request.quotes.len() as int;
    let requester = e.request.requester;
    keeps::lemma_entry_sound(v, i);
    assert forall|j: int| 0 <= j < n implies ((#[trigger] e.reservations[j]) matches Some(id) ==> (
    v.ledger.reservation(id) matches Some(hold) ==> hold.party != requester)) by {
        law_live_quotes_are_collateralised(v, i, j);
        assert(e.request.quotes[j].maker != requester);
    }
    let counted = v.ledger.counted();
    assert forall|j: int| 0 <= j < n implies ((#[trigger] e.reservations[j]) matches Some(id) ==> (
    counted.reservation(id) matches Some(hold) ==> hold.party != requester)) by {
        assert(e.reservations[j] matches Some(id) ==> counted.reservation(id)
            == v.ledger.reservation(id));
    }
    lemma_release_holds_spares(e, v.ledger, Scope::All, n, requester);
    lemma_release_holds_spares(e, counted, Scope::All, n, requester);
    if e.request.state is Presented {
        keeps::lemma_plan_refused_for_funds(v, i);
    }
    let scope = Scope::Expired(now);
    let fresh = e.release(scope);
    let ledger = e.release_all_holds(v.ledger, scope);
    lemma_release_holds_spares(e, v.ledger, scope, n, requester);
    assert forall|j: int| 0 <= j < n implies ((#[trigger] fresh.reservations[j]) matches Some(id)
        ==> (ledger.reservation(id) matches Some(hold) ==> hold.party != requester)) by {
        assert(e.reservations[j] == fresh.reservations[j] || fresh.reservations[j] is None);
        assert(e.reservations[j] matches Some(id) ==> (ledger.reservation(id) is Some
            ==> ledger.reservation(id) == v.ledger.reservation(id)));
    }
    lemma_release_holds_spares(fresh, ledger, Scope::All, n, requester);
}

/// Wherever all that was ever credited is an amount, a quote can be taken while quotes can be
/// counted on, a quote can be cancelled and a package rejected; and where the legs have different identifiers, a package can be answered and a
/// request unwound.
pub proof fn law_credited_amounts_have_room(
    v: EngineModel,
    now: Timestamp,
    party: PartyId,
    request_id: RequestId,
    quote_id: QuoteId,
    leg_id: LegId,
    fresh: QuoteId,
    price: Price,
    size: Amount,
    expires_at: Timestamp,
)
    requires
        v.wf(),
        v.ledger.fits(),
        v.ledger.credited_total() <= u64::MAX,
    ensures
        v.next_seq.0 < u64::MAX ==> v.room_to_quote(
            now,
            fresh,
            party,
            request_id,
            leg_id,
            price,
            size,
            expires_at,
        ),
        v.room_to_cancel(party, quote_id),
        v.room_to_reject(party, request_id),
        v.find(request_id) matches Some(i) ==> {
            let entry = v.entries[i];
            &&& entry.traceable() && entry.in_escrow() ==> v.unwind_at_once(i) is Some
            &&& entry.traceable() ==> v.accept(now, party, request_id) is Some
            &&& now@ > entry.request.accept_deadline->Some_0@ ==> v.accept(
                now,
                party,
                request_id,
            ) is Some
        },
{
    let quoted = v.submit_quote(now, fresh, party, request_id, leg_id, price, size, expires_at);
    if quoted.answer is Ok {
        let e = v.entries[v.find(request_id)->Some_0];
        let leg = e.request.legs[e.request.leg_index(leg_id)->Some_0];
        laws::law_reserving_has_room(v.ledger, party, quoted.answer->Ok_0.collateral(leg));
    }
    if let Some(i) = v.find_quote(quote_id) {
        room::lemma_room_within_credits(v.entries[i], v.ledger, Scope::Named(quote_id));
    }
    if let Some(i) = v.find(request_id) {
        let e = v.entries[i];
        let n = e.request.escrows.len() as int;
        keeps::lemma_found(v, request_id);
        room::lemma_room_within_credits(e, v.ledger, Scope::All);
        if e.request.state is Presented {
            keeps::lemma_plan_refused_for_funds(v, i);
            if v.ledger.batch_error(e.planned_items()) is None {
                room::lemma_room_to_lock_within_credits(e, v.ledger);
            }
        }
        room::lemma_only_refunds(e.handles, n);
        laws::law_letting_go_has_room(v.ledger, model::refund_moves(e.handles, n));
    }
}

/// The clock never tries a batch: nothing goes into escrow but by accepting.
pub proof fn law_clock_locks_nothing(v: EngineModel, now: Timestamp)
    requires
        v.wf(),
        v.tick(now) is Some,
    ensures
        v.tick(now)->Some_0.ledger.lock_batch_calls == v.ledger.lock_batch_calls,
        v.tick(now)->Some_0.ledger.escrowed_total() <= v.ledger.escrowed_total(),
{
    lemma_clock_locks_nothing(v, now, v.entries.len() as int);
}

proof fn lemma_clock_locks_nothing(v: EngineModel, now: Timestamp, k: int)
    requires
        v.wf(),
        0 <= k <= v.entries.len(),
        v.tick_first(now, k) is Some,
    ensures
        v.tick_first(now, k)->Some_0.ledger.lock_batch_calls == v.ledger.lock_batch_calls,
        v.tick_first(now, k)->Some_0.ledger.escrowed_total() <= v.ledger.escrowed_total(),
    decreases k,
{
    if k > 0 {
        lemma_clock_locks_nothing(v, now, k - 1);
        keeps::lemma_tick_so_far(v, now, k - 1);
        lemma_clock_locks_nothing_for(v.tick_first(now, k - 1)->Some_0, now, k - 1);
    }
}

proof fn lemma_clock_locks_nothing_for(v: EngineModel, now: Timestamp, i: int)
    requires
        v.wf(),
        0 <= i < v.entries.len(),
        v.tick_entry(now, i) is Some,
    ensures
        v.tick_entry(now, i)->Some_0.ledger.lock_batch_calls == v.ledger.lock_batch_calls,
        v.tick_entry(now, i)->Some_0.ledger.escrowed_total() <= v.ledger.escrowed_total(),
{
    let owners = choose|owners: Seq<Owner>| v.owned(owners);
    let e = v.entries[i];
    assert(e.inv(v.ledger.slots, owners, i, v.config, v.next_seq));
    let n = e.request.quotes.len() as int;
    match e.request.state {
        RequestState::Open => {
            let scope = Scope::Expired(now);
            transitions::lemma_release_entry(e, v.ledger, owners, i, v.config, v.next_seq, scope);
            lemma_release_holds_gains(e, v.ledger, scope, n);
            let ledger = e.release_all_holds(v.ledger, scope);
            let fresh = e.release(scope);
            lemma_release_holds_gains(fresh, ledger, Scope::All, n);
            transitions::lemma_fail_entry(
                fresh,
                ledger,
                owners,
                i,
                v.config,
                v.next_seq,
                FailReason::Rejected,
            );
        },
        RequestState::Presented => {
            lemma_release_holds_gains(e, v.ledger, Scope::All, n);
            transitions::lemma_fail_entry(
                e,
                v.ledger,
                owners,
                i,
                v.config,
                v.next_seq,
                FailReason::Rejected,
            );
        },
        RequestState::Reported => {
            let outcome = e.request.reported_outcome->Some_0;
            let due = |escrow: Escrow| escrow.notional.0 as int;
            seqs::lemma_sum_bounds(e.request.escrows, due);
            transitions::lemma_settle_entry(
                e,
                v.ledger,
                owners,
                i,
                v.config,
                v.next_seq,
                outcome,
            );
            lemma_pay_legs_batches(
                v.ledger,
                e.request.escrows,
                e.handles,
                outcome,
                e.request.escrows.len() as int,
            );
        },
        RequestState::Disputed => {
            let due = |escrow: Escrow| escrow.notional.0 as int;
            seqs::lemma_sum_bounds(e.request.escrows, due);
            transitions::lemma_unwind_entry(e, v.ledger, owners, i, v.config, v.next_seq);
            lemma_refund_legs_gains(v.ledger, e.handles, e.request.escrows.len() as int);
        },
        _ => {},
    }
}

pub proof fn lemma_pay_legs_batches(
    m: LedgerModel,
    escrows: Seq<Escrow>,
    handles: Seq<LegEscrow>,
    outcome: OracleOutcome,
    k: int,
)
    ensures
        model::pay_legs(m, escrows, handles, outcome, k).lock_batch_calls == m.lock_batch_calls,
    decreases k,
{
    if k > 0 {
        lemma_pay_legs_batches(m, escrows, handles, outcome, k - 1);
    }
}

} // verus!
