//! What makers and requesters do with a request, and what it makes of their balances.
use vstd::prelude::*;
use crate::domain::ids::{LegId, PartyId, QuoteId, RequestId, SeqNo};
use crate::domain::money::{Amount, Price};
use crate::domain::request;
use crate::domain::request::{Escrow, Leg, Quote, RequestModel, Selection};
use crate::domain::state::{FailReason, LegSide, QuoteState, RequestState};
use crate::engine::course;
use crate::engine::error::EngineError;
use crate::engine::model::{EngineConfig, EngineModel, EntryModel, Scope};
use crate::engine::soundness::Owner;
use crate::engine::{keeps, laws, room, soundness, ticks, transitions};
use crate::ledger::{LedgerModel, LockBatchError, LockItem};
use crate::{ledger, seqs};
use crate::time::Timestamp;

verus! {

/// A quote is refused: for a request that is not there, one that is not open, by its own
/// requester, for a leg that the request does not have, when it has expired, when it is smaller
/// than the leg, when it expires before an accept window that begins at the response deadline is
/// over, and when the maker's free balance does not cover its side of the leg, in that order. Else
/// it is taken.
pub proof fn law_which_quotes_are_taken(
    v: EngineModel,
    now: Timestamp,
    id: QuoteId,
    maker: PartyId,
    leg_id: LegId,
    price: Price,
    size: Amount,
    expires_at: Timestamp,
    i: int,
    l: int,
)
    requires
        v.wf(),
        price.in_range(),
        0 <= i < v.entries.len(),
    ensures
        ({
            let before = v.entries[i].request;
            let done = v.submit_quote(
                now,
                id,
                maker,
                before.id,
                leg_id,
                price,
                size,
                expires_at,
            );
            let leg = before.legs[l];
            let found = 0 <= l < before.legs.len() && leg.id == leg_id && forall|k: int|
                0 <= k < l ==> (#[trigger] before.legs[k]).id != leg_id;
            let share = leg.notional.0 as int * price.spec_bps() / 10_000;
            let lock = if leg.side == LegSide::BuyYes || leg.side == LegSide::SellNo {
                leg.notional.0 - share
            } else {
                share
            };
            let close = before.response_deadline.plus(v.config.accept_window);
            let free = v.ledger.account(maker).free;
            let open = before.state == RequestState::Open;
            let other = maker != before.requester;
            let ahead = now@ < expires_at@;
            let large = size.0 >= leg.notional.0;
            let firm = expires_at@ >= close->Some_0@;
            &&& open ==> close is Some
            &&& !open ==> done.answer == Err::<Quote, EngineError>(
                EngineError::WrongState { expected: RequestState::Open, actual: before.state },
            )
            &&& open && !other ==> done.answer == Err::<Quote, EngineError>(
                EngineError::SelfQuote,
            )
            &&& open && other && (forall|k: int|
                0 <= k < before.legs.len() ==> (#[trigger] before.legs[k]).id != leg_id)
                ==> done.answer == Err::<Quote, EngineError>(EngineError::NotFound)
            &&& open && other && found && !ahead ==> done.answer == Err::<Quote, EngineError>(
                EngineError::QuoteExpired,
            )
            &&& open && other && found && ahead && !large ==> done.answer == Err::<
                Quote,
                EngineError,
            >(EngineError::QuoteTooSmall)
            &&& open && other && found && ahead && large && !firm ==> done.answer == Err::<
                Quote,
                EngineError,
            >(EngineError::QuoteExpiresBeforeAcceptWindow)
            &&& open && other && found && ahead && large && firm && free < lock ==> done.answer
                == Err::<Quote, EngineError>(
                EngineError::InsufficientFunds {
                    party: maker,
                    needed: Amount(lock as u64),
                    available: Amount(free as u64),
                },
            )
            &&& open && other && found && ahead && large && firm && free >= lock
                ==> done.answer is Ok
            &&& done.answer is Err ==> done.venue == v
        }),
{
    let before = v.entries[i].request;
    course::law_requests_are_found(v, before.id, i);
    keeps::lemma_entry_sound(v, i);
    lemma_leg_found(before, leg_id, l);
    let quote = Quote {
        id,
        leg_id,
        maker,
        price,
        size,
        expires_at,
        submitted_at: now,
        seq: v.next_seq,
        state: QuoteState::Live,
    };
    request::law_roles_and_sides_of_an_escrow(before.legs[l], quote, before.requester, maker);
}

/// The first leg with an identifier is found under it.
proof fn lemma_leg_found(request: RequestModel, id: LegId, l: int)
    ensures
        0 <= l < request.legs.len() && request.legs[l].id == id && (forall|k: int|
            0 <= k < l ==> (#[trigger] request.legs[k]).id != id) ==> request.leg_index(id)
            == Some(l),
        (forall|k: int| 0 <= k < request.legs.len() ==> (#[trigger] request.legs[k]).id != id)
            ==> request.leg_index(id) is None,
{
    let named = |leg: Leg| leg.id == id;
    seqs::lemma_first_some(request.legs, named);
    if 0 <= l < request.legs.len() && request.legs[l].id == id && (forall|k: int|
        0 <= k < l ==> (#[trigger] request.legs[k]).id != id) {
        seqs::lemma_first_is(request.legs, named, l);
    }
}

/// A quote for a request that is not there is refused.
pub proof fn law_quotes_are_for_requests_that_are_there(
    v: EngineModel,
    now: Timestamp,
    id: QuoteId,
    maker: PartyId,
    request_id: RequestId,
    leg_id: LegId,
    price: Price,
    size: Amount,
    expires_at: Timestamp,
)
    requires
        v.wf(),
        forall|j: int|
            0 <= j < v.entries.len() ==> (#[trigger] v.entries[j]).request.id != request_id,
    ensures
        ({
            let done = v.submit_quote(
                now,
                id,
                maker,
                request_id,
                leg_id,
                price,
                size,
                expires_at,
            );
            done.venue == v && done.answer == Err::<Quote, EngineError>(EngineError::NotFound)
        }),
{
    course::law_requests_are_found(v, request_id, 0);
}

/// A quote that is taken is live, is as it was submitted and has the next number. It is the last
/// on its request. The maker's side of the leg, which is the leg's notional less the Yes-buyer's
/// share if the requester ends up long Yes and that share if not, moves from its free to its
/// reserved balance. Nothing else changes.
pub proof fn law_quotes_reserve_the_makers_side(
    v: EngineModel,
    now: Timestamp,
    id: QuoteId,
    maker: PartyId,
    leg_id: LegId,
    price: Price,
    size: Amount,
    expires_at: Timestamp,
    i: int,
    l: int,
    party: PartyId,
)
    requires
        v.wf(),
        price.in_range(),
        0 <= i < v.entries.len(),
        0 <= l < v.entries[i].request.legs.len(),
        v.entries[i].request.legs[l].id == leg_id,
        forall|k: int| 0 <= k < l ==> (#[trigger] v.entries[i].request.legs[k]).id != leg_id,
    ensures
        ({
            let before = v.entries[i];
            let done = v.submit_quote(
                now,
                id,
                maker,
                before.request.id,
                leg_id,
                price,
                size,
                expires_at,
            );
            let leg = before.request.legs[l];
            let share = leg.notional.0 as int * price.spec_bps() / 10_000;
            let lock = if leg.side == LegSide::BuyYes || leg.side == LegSide::SellNo {
                leg.notional.0 - share
            } else {
                share
            };
            let moved = if party == maker {
                lock
            } else {
                0
            };
            done.answer matches Ok(quote) ==> {
                let w = done.venue;
                let after = w.entries[i];
                &&& quote.id == id
                &&& quote.leg_id == leg_id
                &&& quote.maker == maker
                &&& quote.price == price
                &&& quote.size == size
                &&& quote.expires_at == expires_at
                &&& quote.submitted_at == now
                &&& quote.seq == v.next_seq
                &&& quote.state == QuoteState::Live
                &&& after.request == (RequestModel {
                    quotes: before.request.quotes.push(quote),
                    ..before.request
                })
                &&& after.handles == before.handles
                &&& v.next_seq.0 < u64::MAX ==> w.next_seq.0 == v.next_seq.0 + 1
                &&& w.config == v.config
                &&& w.entries == v.entries.update(i, after)
                &&& w.ledger.account(party).free == v.ledger.account(party).free - moved
                &&& w.ledger.account(party).reserved == v.ledger.account(party).reserved + moved
                &&& w.ledger.account(party).escrowed == v.ledger.account(party).escrowed
            }
        }),
{
    let before = v.entries[i].request;
    course::law_requests_are_found(v, before.id, i);
    lemma_leg_found(before, leg_id, l);
    let quote = Quote {
        id,
        leg_id,
        maker,
        price,
        size,
        expires_at,
        submitted_at: now,
        seq: v.next_seq,
        state: QuoteState::Live,
    };
    request::law_roles_and_sides_of_an_escrow(before.legs[l], quote, before.requester, maker);
}

/// There is room for a quote that is not refused exactly if quotes can be counted on and the
/// maker's reserved balance can hold its side of the leg; one that is refused needs none.
pub proof fn law_room_for_quotes(
    v: EngineModel,
    now: Timestamp,
    id: QuoteId,
    maker: PartyId,
    request_id: RequestId,
    leg_id: LegId,
    price: Price,
    size: Amount,
    expires_at: Timestamp,
)
    requires
        v.wf(),
        forall|p: u128| (#[trigger] v.ledger.row(PartyId(p))).fits(),
    ensures
        ({
            let done = v.submit_quote(
                now,
                id,
                maker,
                request_id,
                leg_id,
                price,
                size,
                expires_at,
            );
            v.room_to_quote(now, id, maker, request_id, leg_id, price, size, expires_at) <==> (
            done.answer is Ok ==> v.next_seq.0 < u64::MAX && done.venue.ledger.account(
                maker,
            ).reserved <= u64::MAX)
        }),
{
    let done = v.submit_quote(now, id, maker, request_id, leg_id, price, size, expires_at);
    if done.answer is Ok {
        let w = done.venue;
        assert(v.ledger.row(PartyId(maker.0)).fits());
        if w.ledger.account(maker).reserved <= u64::MAX {
            assert forall|p: u128| (#[trigger] w.ledger.row(PartyId(p))).fits() by {
                assert(v.ledger.row(PartyId(p)).fits());
            }
        } else {
            assert(!w.ledger.row(PartyId(maker.0)).fits());
        }
    }
}

/// A quote is taken back by its maker while it is live and its request open; it is released then,
/// and its collateral goes from the maker's reserved to its free balance. Nothing else changes. An
/// unknown quote is not found, somebody else's is not theirs to take back, a request that is not
/// open says so, and a quote that is not live too, in that order.
pub proof fn law_makers_take_back_live_quotes(
    v: EngineModel,
    maker: PartyId,
    i: int,
    j: int,
    party: PartyId,
)
    requires
        v.wf(),
        0 <= i < v.entries.len(),
        0 <= j < v.entries[i].request.quotes.len(),
    ensures
        ({
            let before = v.entries[i];
            let quote = before.request.quotes[j];
            let done = v.cancel_quote(maker, quote.id);
            let own = quote.maker == maker;
            let open = before.request.state == RequestState::Open;
            let live = quote.state == QuoteState::Live;
            let leg = before.request.legs[before.request.leg_index(quote.leg_id)->Some_0];
            let moved = if party == maker {
                quote.collateral(leg).0 as int
            } else {
                0
            };
            &&& !own ==> done.answer == Err::<(), EngineError>(EngineError::NotOwner)
            &&& own && !open ==> done.answer == Err::<(), EngineError>(
                EngineError::WrongState {
                    expected: RequestState::Open,
                    actual: before.request.state,
                },
            )
            &&& own && open && !live ==> done.answer == Err::<(), EngineError>(
                EngineError::QuoteNotLive,
            )
            &&& done.answer is Err ==> done.venue == v
            &&& own && open && live ==> {
                let w = done.venue;
                let after = w.entries[i];
                &&& done.answer is Ok
                &&& after.request == (RequestModel {
                    quotes: before.request.quotes.update(
                        j,
                        Quote { state: QuoteState::Released, ..quote },
                    ),
                    ..before.request
                })
                &&& after.handles == before.handles
                &&& w.config == v.config
                &&& w.next_seq == v.next_seq
                &&& w.entries == v.entries.update(i, after)
                &&& w.ledger.account(party).free == v.ledger.account(party).free + moved
                &&& w.ledger.account(party).reserved == v.ledger.account(party).reserved - moved
                &&& w.ledger.account(party).escrowed == v.ledger.account(party).escrowed
            }
        }),
{
    let e = v.entries[i];
    let quotes = e.request.quotes;
    let quote = quotes[j];
    course::law_quotes_are_found(v, quote.id, i, j);
    let owners = choose|owners: Seq<Owner>| v.owned(owners);
    assert(e.inv(v.ledger.slots, owners, i, v.config, v.next_seq));
    if quote.maker == maker && e.request.state == RequestState::Open && quote.state
        == QuoteState::Live {
        let scope = Scope::Named(quote.id);
        let n = quotes.len() as int;
        let released = e.release(scope).request.quotes;
        assert forall|k: int| 0 <= k < n implies #[trigger] released[k] == if k == j {
            Quote { state: QuoteState::Released, ..quote }
        } else {
            quotes[k]
        } by {
            if k != j {
                assert(quotes[k].id != quotes[j].id);
            }
        }
        assert(released =~= quotes.update(j, Quote { state: QuoteState::Released, ..quote }));
        assert(quotes.take(n) =~= quotes);
        ticks::lemma_let_go_is_held(e, v.ledger.slots, owners, i, scope);
        ticks::lemma_let_go_balances(e, v.ledger, owners, i, scope, n, party);
        let back = |q: Quote|
            if scope.covers(q) && q.holds_collateral() && q.maker == party {
                q.collateral(e.request.legs[e.request.leg_index(q.leg_id)->Some_0]).0 as int
            } else {
                0
            };
        assert forall|k: int| 0 <= k < n && k != j implies back(#[trigger] quotes[k]) == 0 by {
            assert(quotes[k].id != quotes[j].id);
        }
        lemma_one_term(quotes, back, j);
    }
}

/// A sum of which all terms but one are zero is that one.
pub proof fn lemma_one_term<T>(s: Seq<T>, f: spec_fn(T) -> int, j: int)
    requires
        0 <= j < s.len(),
        forall|k: int| 0 <= k < s.len() && k != j ==> f(#[trigger] s[k]) == 0,
    ensures
        seqs::sum_by(s, f) == f(s[j]),
    decreases s.len(),
{
    let rest = s.drop_last();
    if j == s.len() - 1 {
        assert forall|k: int| 0 <= k < rest.len() implies f(#[trigger] rest[k]) == 0 by {
            assert(rest[k] == s[k]);
        }
        lemma_no_term(rest, f);
    } else {
        assert forall|k: int| 0 <= k < rest.len() && k != j implies f(#[trigger] rest[k]) == 0 by {
            assert(rest[k] == s[k]);
        }
        lemma_one_term(rest, f, j);
        assert(f(s[s.len() - 1]) == 0);
    }
}

proof fn lemma_no_term<T>(s: Seq<T>, f: spec_fn(T) -> int)
    requires
        forall|k: int| 0 <= k < s.len() ==> f(#[trigger] s[k]) == 0,
    ensures
        seqs::sum_by(s, f) == 0,
    decreases s.len(),
{
    if s.len() > 0 {
        let rest = s.drop_last();
        assert forall|k: int| 0 <= k < rest.len() implies f(#[trigger] rest[k]) == 0 by {
            assert(rest[k] == s[k]);
        }
        lemma_no_term(rest, f);
        assert(f(s[s.len() - 1]) == 0);
    }
}

/// A quote that is not there cannot be taken back.
pub proof fn law_unknown_quotes_are_not_found(v: EngineModel, maker: PartyId, id: QuoteId)
    requires
        v.wf(),
        forall|k: int, l: int|
            0 <= k < v.entries.len() && 0 <= l < v.entries[k].request.quotes.len() ==> (
            #[trigger] v.entries[k].request.quotes[l]).id != id,
    ensures
        v.cancel_quote(maker, id).venue == v,
        v.cancel_quote(maker, id).answer == Err::<(), EngineError>(EngineError::NotFound),
{
    course::law_quotes_are_found(v, id, 0, 0);
}

/// There is room to take quotes back and to turn packages down wherever all that was ever credited
/// is an amount.
pub proof fn law_room_to_let_go(
    v: EngineModel,
    party: PartyId,
    quote_id: QuoteId,
    request_id: RequestId,
)
    requires
        v.wf(),
        forall|p: u128| (#[trigger] v.ledger.row(PartyId(p))).fits(),
        v.ledger.credited_total() <= u64::MAX,
    ensures
        v.room_to_cancel(party, quote_id),
        v.room_to_reject(party, request_id),
{
    keeps::lemma_found(v, request_id);
    keeps::lemma_quote_found(v, quote_id);
    if let Some(i) = v.find_quote(quote_id) {
        room::lemma_room_within_credits(v.entries[i], v.ledger, Scope::Named(quote_id));
    }
    if let Some(i) = v.find(request_id) {
        room::lemma_room_within_credits(v.entries[i], v.ledger, Scope::All);
    }
}

/// Only the requester answers to a package, and only while it is presented: anybody else, and
/// anybody at another time, is refused, in that order, whether to accept or to reject. So is
/// anybody for a request that is not there.
pub proof fn law_requesters_answer_presented_packages(
    v: EngineModel,
    now: Timestamp,
    party: PartyId,
    id: RequestId,
    i: int,
)
    requires
        v.wf(),
    ensures
        ({
            let request = v.entries[i].request;
            let accepted = v.accept(now, party, id);
            let rejected = v.reject(party, id);
            &&& (forall|k: int|
                0 <= k < v.entries.len() ==> (#[trigger] v.entries[k]).request.id != id) ==> {
                &&& rejected.venue == v
                &&& rejected.answer == Err::<RequestModel, EngineError>(EngineError::NotFound)
                &&& accepted == Some(rejected)
            }
            &&& 0 <= i < v.entries.len() && request.id == id && request.requester != party ==> {
                &&& rejected.venue == v
                &&& rejected.answer == Err::<RequestModel, EngineError>(EngineError::NotOwner)
                &&& accepted == Some(rejected)
            }
            &&& 0 <= i < v.entries.len() && request.id == id && request.requester == party
                && request.state != RequestState::Presented ==> {
                &&& rejected.venue == v
                &&& rejected.answer == Err::<RequestModel, EngineError>(
                    EngineError::WrongState {
                        expected: RequestState::Presented,
                        actual: request.state,
                    },
                )
                &&& accepted == Some(rejected)
            }
            &&& 0 <= i < v.entries.len() && request.id == id && request.requester == party
                && request.state == RequestState::Presented ==> rejected.answer is Ok
        }),
{
    course::law_requests_are_found(v, id, i);
}

/// A package that its requester turns down fails as rejected: all its quotes are released, and
/// every maker has the collateral of its quotes back. Nothing else changes.
pub proof fn law_rejected_packages_fail(v: EngineModel, i: int, j: int, party: PartyId)
    requires
        v.wf(),
        0 <= i < v.entries.len(),
        v.entries[i].request.state == RequestState::Presented,
    ensures
        ({
            let request = v.entries[i].request;
            let done = v.reject(request.requester, request.id);
            let w = done.venue;
            let after = w.entries[i].request;
            let back = seqs::sum_by(
                request.quotes,
                |q: Quote|
                    if q.maker == party && (q.state == QuoteState::Live || q.state
                        == QuoteState::Selected) {
                        q.collateral(
                            request.legs[request.leg_index(q.leg_id)->Some_0],
                        ).0 as int
                    } else {
                        0
                    },
            );
            &&& done.answer == Ok::<RequestModel, EngineError>(after)
            &&& after == (RequestModel {
                state: RequestState::Failed,
                fail_reason: Some(FailReason::Rejected),
                quotes: after.quotes,
                ..request
            })
            &&& after.quotes.len() == request.quotes.len()
            &&& 0 <= j < request.quotes.len() ==> after.quotes[j] == (Quote {
                state: QuoteState::Released,
                ..request.quotes[j]
            })
            &&& w.entries[i].handles == v.entries[i].handles
            &&& w.config == v.config
            &&& w.next_seq == v.next_seq
            &&& w.entries == v.entries.update(i, w.entries[i])
            &&& w.ledger.account(party).free == v.ledger.account(party).free + back
            &&& w.ledger.account(party).reserved == v.ledger.account(party).reserved - back
            &&& w.ledger.account(party).escrowed == v.ledger.account(party).escrowed
        }),
{
    let e = v.entries[i];
    course::law_requests_are_found(v, e.request.id, i);
    let owners = choose|owners: Seq<Owner>| v.owned(owners);
    assert(e.inv(v.ledger.slots, owners, i, v.config, v.next_seq));
    ticks::lemma_all_back(e, v.ledger, owners, i, party);
    if 0 <= j < e.request.quotes.len() {
        assert(soundness::states_agree(e.request.state, e.request.quotes[j].state));
    }
}

/// A package that its requester accepts too late fails as expired, and the requester is told that it
/// has: all its quotes are released, and every maker has the collateral of its quotes back. Nothing
/// else changes. There is room for that wherever all that was ever credited is an amount.
pub proof fn law_late_accepts_fail(
    v: EngineModel,
    now: Timestamp,
    i: int,
    j: int,
    party: PartyId,
)
    requires
        v.wf(),
        0 <= i < v.entries.len(),
        v.entries[i].request.state == RequestState::Presented,
        now@ > v.entries[i].request.accept_deadline->Some_0@,
    ensures
        ({
            let request = v.entries[i].request;
            let done = v.accept(now, request.requester, request.id);
            let back = seqs::sum_by(
                request.quotes,
                |q: Quote|
                    if q.maker == party && (q.state == QuoteState::Live || q.state
                        == QuoteState::Selected) {
                        q.collateral(
                            request.legs[request.leg_index(q.leg_id)->Some_0],
                        ).0 as int
                    } else {
                        0
                    },
            );
            &&& v.ledger.credited_total() <= u64::MAX && (forall|p: u128|
                (#[trigger] v.ledger.row(PartyId(p))).fits()) ==> done is Some
            &&& done matches Some(done) ==> {
                let w = done.venue;
                let after = w.entries[i].request;
                &&& done.answer == Err::<RequestModel, EngineError>(
                    EngineError::WrongState {
                        expected: RequestState::Presented,
                        actual: RequestState::Failed,
                    },
                )
                &&& after == (RequestModel {
                    state: RequestState::Failed,
                    fail_reason: Some(FailReason::AcceptWindowExpired),
                    quotes: after.quotes,
                    ..request
                })
                &&& after.quotes.len() == request.quotes.len()
                &&& 0 <= j < request.quotes.len() ==> after.quotes[j] == (Quote {
                    state: QuoteState::Released,
                    ..request.quotes[j]
                })
                &&& w.entries[i].handles == v.entries[i].handles
                &&& w.config == v.config
                &&& w.next_seq == v.next_seq
                &&& w.entries == v.entries.update(i, w.entries[i])
                &&& w.ledger.account(party).free == v.ledger.account(party).free + back
                &&& w.ledger.account(party).reserved == v.ledger.account(party).reserved - back
                &&& w.ledger.account(party).escrowed == v.ledger.account(party).escrowed
            }
        }),
{
    let e = v.entries[i];
    course::law_requests_are_found(v, e.request.id, i);
    let owners = choose|owners: Seq<Owner>| v.owned(owners);
    assert(e.inv(v.ledger.slots, owners, i, v.config, v.next_seq));
    if v.ledger.fits() && v.ledger.credited_total() <= u64::MAX {
        room::lemma_room_within_credits(e, v.ledger, Scope::All);
    }
    ticks::lemma_all_back(e, v.ledger, owners, i, party);
    if 0 <= j < e.request.quotes.len() {
        assert(soundness::states_agree(e.request.state, e.request.quotes[j].state));
    }
}

/// What the requester puts up for a leg of a package.
pub open spec fn requester_side(request: RequestModel, s: Selection) -> int {
    let leg = request.legs[request.leg_index(s.leg_id)->Some_0];
    let quote = request.quotes[request.quote_index(s.quote_id)->Some_0];
    let share = leg.notional.0 as int * quote.price.spec_bps() / 10_000;
    if leg.side == LegSide::BuyYes || leg.side == LegSide::SellNo {
        share
    } else {
        leg.notional.0 - share
    }
}

/// What the batch of a package asks of the free balances: of the requester its sides of the first
/// `n` legs, and of nobody else anything.
pub proof fn lemma_need(
    e: EntryModel,
    m: LedgerModel,
    owners: Seq<Owner>,
    k: int,
    config: EngineConfig,
    next: SeqNo,
    n: int,
    party: PartyId,
)
    requires
        e.inv(m.slots, owners, k, config, next),
        e.request.state is Presented,
        0 <= n <= e.request.legs.len(),
    ensures
        e.planned_items().len() == 2 * e.request.legs.len(),
        e.request.package->Some_0.len() == e.request.legs.len(),
        ledger::pending(e.planned_items(), 2 * n, party) == if party == e.request.requester {
            seqs::sum_by(
                e.request.package->Some_0.take(n),
                |s: Selection| requester_side(e.request, s),
            )
        } else {
            0
        },
    decreases n,
{
    let items = e.planned_items();
    let package = e.request.package->Some_0;
    let side = |s: Selection| requester_side(e.request, s);
    let part = |item: LockItem| ledger::free_part(item, party);
    transitions::lemma_selection(e, m.slots, owners, k, config, next, 0);
    if n == 0 {
        assert(items.take(0).len() == 0);
        assert(package.take(0).len() == 0);
    } else {
        let i = n - 1;
        lemma_need(e, m, owners, k, config, next, i, party);
        transitions::lemma_selection(e, m.slots, owners, k, config, next, i);
        let quote = e.request.quotes[e.selected_quote(i)];
        request::law_roles_and_sides_of_an_escrow(
            e.named_leg(i),
            quote,
            e.request.requester,
            quote.maker,
        );
        assert((2 * i) / 2 == i && (2 * i) % 2 == 0);
        assert((2 * i + 1) / 2 == i && (2 * i + 1) % 2 == 1);
        assert(items[2 * i] is FromReservation);
        assert(items[2 * i + 1] == (LockItem::FromFree {
            party: e.request.requester,
            amount: e.requester_lock(i),
        }));
        assert(e.requester_lock(i).0 == side(package[i]));
        seqs::lemma_sum_take(items, part, 2 * i);
        seqs::lemma_sum_take(items, part, 2 * i + 1);
        seqs::lemma_sum_take(package, side, i);
    }
}

/// What a package needs of its requester is what its legs do together, at least as much as the
/// first of them do.
proof fn lemma_need_grows(request: RequestModel, package: Seq<Selection>, n: int)
    requires
        0 <= n <= package.len(),
        forall|l: int| 0 <= l < package.len() ==> requester_side(request, #[trigger] package[l]) >= 0,
    ensures
        seqs::sum_by(package.take(n), |s: Selection| requester_side(request, s)) <= seqs::sum_by(
            package,
            |s: Selection| requester_side(request, s),
        ),
    decreases package.len() - n,
{
    let side = |s: Selection| requester_side(request, s);
    if n < package.len() {
        seqs::lemma_sum_take(package, side, n);
        lemma_need_grows(request, package, n + 1);
    } else {
        assert(package.take(n) =~= package);
    }
}

/// A package accepted in time goes through exactly if the requester's free balance covers its
/// sides of all legs together: for each leg the Yes-buyer's share of the notional if it ends up
/// long Yes, and the rest if not. It is neither locked nor refused only where two legs have one
/// identifier or a balance has no room; there is room wherever all that was ever credited is an
/// amount.
pub proof fn law_accepts_go_through_if_funded(v: EngineModel, now: Timestamp, i: int)
    requires
        v.wf(),
        0 <= i < v.entries.len(),
        v.entries[i].request.state == RequestState::Presented,
        now@ <= v.entries[i].request.accept_deadline->Some_0@,
    ensures
        ({
            let request = v.entries[i].request;
            let package = request.package->Some_0;
            let done = v.accept(now, request.requester, request.id);
            let free = v.ledger.account(request.requester).free;
            let need = seqs::sum_by(
                package,
                |s: Selection|
                    {
                        let leg = request.legs[request.leg_index(s.leg_id)->Some_0];
                        let quote = request.quotes[request.quote_index(s.quote_id)->Some_0];
                        let share = leg.notional.0 as int * quote.price.spec_bps() / 10_000;
                        if leg.side == LegSide::BuyYes || leg.side == LegSide::SellNo {
                            share
                        } else {
                            leg.notional.0 - share
                        }
                    },
            );
            let distinct = forall|a: int, b: int|
                0 <= a < b < request.legs.len() ==> (#[trigger] request.legs[a]).id != (
                #[trigger] request.legs[b]).id;
            &&& request.package is Some
            &&& distinct && v.ledger.credited_total() <= u64::MAX && (forall|p: u128|
                (#[trigger] v.ledger.row(PartyId(p))).fits()) ==> done is Some
            &&& done matches Some(done) ==> (done.answer is Ok <==> free >= need)
        }),
{
    let e = v.entries[i];
    let request = e.request;
    let package = request.package->Some_0;
    let items = e.planned_items();
    course::law_requests_are_found(v, request.id, i);
    let owners = choose|owners: Seq<Owner>| v.owned(owners);
    assert(e.inv(v.ledger.slots, owners, i, v.config, v.next_seq));
    transitions::lemma_plan_refusal(e, v.ledger, owners, i, v.config, v.next_seq);
    if v.ledger.fits() && v.ledger.credited_total() <= u64::MAX {
        room::lemma_room_within_credits(e, v.ledger, Scope::All);
        if v.ledger.batch_error(items) is None {
            room::lemma_room_to_lock_within_credits(e, v.ledger);
        }
    }
    lemma_funded(v, i, owners);
    seqs::lemma_sum_same(
        package,
        |s: Selection| requester_side(request, s),
        package,
        |s: Selection|
                    {
                        let leg = request.legs[request.leg_index(s.leg_id)->Some_0];
                        let quote = request.quotes[request.quote_index(s.quote_id)->Some_0];
                        let share = leg.notional.0 as int * quote.price.spec_bps() / 10_000;
                        if leg.side == LegSide::BuyYes || leg.side == LegSide::SellNo {
                            share
                        } else {
                            leg.notional.0 - share
                        }
                    },
    );
}

/// A batch of a package that is not refused for a reservation is refused exactly if the requester
/// cannot fund it, over the first leg with which it cannot.
#[verifier::spinoff_prover]
#[verifier::rlimit(50)]
pub proof fn lemma_funded(v: EngineModel, i: int, owners: Seq<Owner>)
    requires
        v.wf(),
        v.owned(owners),
        0 <= i < v.entries.len(),
        v.entries[i].request.state == RequestState::Presented,
    ensures
        ({
            let e = v.entries[i];
            let package = e.request.package->Some_0;
            let side = |s: Selection| requester_side(e.request, s);
            let error = v.ledger.batch_error(e.planned_items());
            let free = v.ledger.account(e.request.requester).free;
            &&& e.request.package is Some
            &&& package.len() == e.request.legs.len()
            &&& error is None ==> free >= seqs::sum_by(package, side)
            &&& error matches Some(LockBatchError::InsufficientFunds(short)) ==> {
                &&& free < seqs::sum_by(package, side)
                &&& short.party == e.request.requester
                &&& short.available == Amount(free as u64)
                &&& exists|k: int|
                    {
                        &&& 0 <= k < package.len()
                        &&& seqs::sum_by(#[trigger] package.take(k), side) <= free
                        &&& seqs::sum_by(package.take(k + 1), side) > free
                        &&& short.needed.0 == if seqs::sum_by(package.take(k + 1), side)
                            <= u64::MAX {
                            seqs::sum_by(package.take(k + 1), side)
                        } else {
                            u64::MAX as int
                        }
                    }
            }
        }),
{
    let e = v.entries[i];
    let m = v.ledger;
    let items = e.planned_items();
    let package = e.request.package->Some_0;
    let n = package.len() as int;
    let requester = e.request.requester;
    let side = |s: Selection| requester_side(e.request, s);
    let free = m.account(requester).free;
    assert(e.inv(m.slots, owners, i, v.config, v.next_seq));
    lemma_need(e, m, owners, i, v.config, v.next_seq, 0, requester);
    assert(m.row_ok(PartyId(requester.0)));
    assert forall|l: int| 0 <= l < n implies requester_side(e.request, #[trigger] package[l])
        >= 0 by {
        transitions::lemma_selection(e, m.slots, owners, i, v.config, v.next_seq, l);
        let quote = e.request.quotes[e.selected_quote(l)];
        request::law_roles_and_sides_of_an_escrow(
            e.named_leg(l),
            quote,
            requester,
            quote.maker,
        );
    }
    ledger::laws::law_batch_error_is_the_first(m, items);
    assert(package.take(n) =~= package);
    if m.batch_error(items) is None {
        assert(m.item_error(items, 2 * (n - 1) + 1) is None);
        lemma_need(e, m, owners, i, v.config, v.next_seq, n, requester);
        transitions::lemma_selection(e, m.slots, owners, i, v.config, v.next_seq, n - 1);
        assert((2 * (n - 1) + 1) / 2 == n - 1 && (2 * (n - 1) + 1) % 2 == 1);
    }
    if let Some(LockBatchError::InsufficientFunds(short)) = m.batch_error(items) {
        let j = choose|j: int|
            {
                &&& 0 <= j < items.len()
                &&& #[trigger] m.item_error(items, j) == m.batch_error(items)
                &&& forall|h: int| 0 <= h < j ==> (#[trigger] m.item_error(items, h)) is None
            };
        let k = j / 2;
        transitions::lemma_selection(e, m.slots, owners, i, v.config, v.next_seq, k);
        assert(j % 2 == 1 && j == 2 * k + 1);
        lemma_need(e, m, owners, i, v.config, v.next_seq, k + 1, requester);
        lemma_need(e, m, owners, i, v.config, v.next_seq, k, requester);
        lemma_need_grows(e.request, package, k + 1);
        if k > 0 {
            let h = 2 * (k - 1) + 1;
            assert(h / 2 == k - 1 && h % 2 == 1);
            transitions::lemma_selection(e, m.slots, owners, i, v.config, v.next_seq, k - 1);
            assert(m.item_error(items, h) is None);
        } else {
            assert(package.take(0).len() == 0);
        }
        assert(seqs::sum_by(package.take(k), side) <= free);
    }
}

/// A package accepted in time that the requester cannot fund fails: the requester is told what it
/// has and what the legs up to the first that it cannot fund need together. All quotes are
/// released, and every maker has the collateral of its quotes back. Nothing else changes.
pub proof fn law_unfunded_accepts_fail(
    v: EngineModel,
    now: Timestamp,
    i: int,
    j: int,
    party: PartyId,
)
    requires
        v.wf(),
        0 <= i < v.entries.len(),
        v.entries[i].request.state == RequestState::Presented,
        now@ <= v.entries[i].request.accept_deadline->Some_0@,
        v.accept(
            now,
            v.entries[i].request.requester,
            v.entries[i].request.id,
        ) matches Some(done) && done.answer is Err,
    ensures
        ({
            let request = v.entries[i].request;
            let package = request.package->Some_0;
            let done = v.accept(now, request.requester, request.id)->Some_0;
            let free = v.ledger.account(request.requester).free;
            let side = |s: Selection|
                    {
                        let leg = request.legs[request.leg_index(s.leg_id)->Some_0];
                        let quote = request.quotes[request.quote_index(s.quote_id)->Some_0];
                        let share = leg.notional.0 as int * quote.price.spec_bps() / 10_000;
                        if leg.side == LegSide::BuyYes || leg.side == LegSide::SellNo {
                            share
                        } else {
                            leg.notional.0 - share
                        }
                    };
            let back = seqs::sum_by(
                request.quotes,
                |q: Quote|
                    if q.maker == party && (q.state == QuoteState::Live || q.state
                        == QuoteState::Selected) {
                        q.collateral(
                            request.legs[request.leg_index(q.leg_id)->Some_0],
                        ).0 as int
                    } else {
                        0
                    },
            );
            let w = done.venue;
            let after = w.entries[i].request;
            &&& exists|k: int|
                {
                    &&& 0 <= k < package.len()
                    &&& seqs::sum_by(#[trigger] package.take(k), side) <= free
                    &&& seqs::sum_by(package.take(k + 1), side) > free
                    &&& done.answer == Err::<RequestModel, EngineError>(
                        EngineError::InsufficientFunds {
                            party: request.requester,
                            needed: Amount(
                                if seqs::sum_by(package.take(k + 1), side) <= u64::MAX {
                                    seqs::sum_by(package.take(k + 1), side) as u64
                                } else {
                                    u64::MAX
                                },
                            ),
                            available: Amount(free as u64),
                        },
                    )
                }
            &&& after == (RequestModel {
                state: RequestState::Failed,
                fail_reason: Some(FailReason::InsufficientRequesterFunds),
                quotes: after.quotes,
                ..request
            })
            &&& after.quotes.len() == request.quotes.len()
            &&& 0 <= j < request.quotes.len() ==> after.quotes[j] == (Quote {
                state: QuoteState::Released,
                ..request.quotes[j]
            })
            &&& w.entries[i].handles == v.entries[i].handles
            &&& w.config == v.config
            &&& w.next_seq == v.next_seq
            &&& w.entries == v.entries.update(i, w.entries[i])
            &&& w.ledger.account(party).free == v.ledger.account(party).free + back
            &&& w.ledger.account(party).reserved == v.ledger.account(party).reserved - back
            &&& w.ledger.account(party).escrowed == v.ledger.account(party).escrowed
        }),
{
    let e = v.entries[i];
    let request = e.request;
    let package = request.package->Some_0;
    let items = e.planned_items();
    course::law_requests_are_found(v, request.id, i);
    let owners = choose|owners: Seq<Owner>| v.owned(owners);
    assert(e.inv(v.ledger.slots, owners, i, v.config, v.next_seq));
    lemma_funded(v, i, owners);
    let free = v.ledger.account(request.requester).free;
    let mine = |s: Selection| requester_side(request, s);
    let side = |s: Selection|
                    {
                        let leg = request.legs[request.leg_index(s.leg_id)->Some_0];
                        let quote = request.quotes[request.quote_index(s.quote_id)->Some_0];
                        let share = leg.notional.0 as int * quote.price.spec_bps() / 10_000;
                        if leg.side == LegSide::BuyYes || leg.side == LegSide::SellNo {
                            share
                        } else {
                            leg.notional.0 - share
                        }
                    };
    let k = choose|k: int|
        {
            &&& 0 <= k < package.len()
            &&& seqs::sum_by(#[trigger] package.take(k), mine) <= free
            &&& seqs::sum_by(package.take(k + 1), mine) > free
            &&& v.ledger.batch_error(items)->Some_0->InsufficientFunds_0.needed.0
                == if seqs::sum_by(package.take(k + 1), mine) <= u64::MAX {
                seqs::sum_by(package.take(k + 1), mine)
            } else {
                u64::MAX as int
            }
        };
    seqs::lemma_sum_same(package.take(k), mine, package.take(k), side);
    seqs::lemma_sum_same(package.take(k + 1), mine, package.take(k + 1), side);
    ledger::laws::lemma_counted(v.ledger, items);
    let batch = v.ledger.lock_batch(items);
    ticks::lemma_all_back(e, batch, owners, i, party);
    if 0 <= j < request.quotes.len() {
        assert(soundness::states_agree(request.state, request.quotes[j].state));
    }
}

/// A package that goes through is locked: the quotes shown are locked and the live ones released.
/// The requester's free balance is less what its sides of the legs need, and every maker has the
/// collateral of its live quotes back on it; each party has its sides of the legs in escrow, and as
/// much as before altogether. Nothing else changes.
pub proof fn law_accepts_lock_both_sides(
    v: EngineModel,
    now: Timestamp,
    i: int,
    j: int,
    party: PartyId,
)
    requires
        v.wf(),
        0 <= i < v.entries.len(),
        v.entries[i].request.state == RequestState::Presented,
        now@ <= v.entries[i].request.accept_deadline->Some_0@,
        v.accept(
            now,
            v.entries[i].request.requester,
            v.entries[i].request.id,
        ) matches Some(done) && done.answer is Ok,
    ensures
        ({
            let request = v.entries[i].request;
            let package = request.package->Some_0;
            let done = v.accept(now, request.requester, request.id)->Some_0;
            let w = done.venue;
            let after = w.entries[i].request;
            let old_account = v.ledger.account(party);
            let account = w.ledger.account(party);
            let need = seqs::sum_by(
                package,
                |s: Selection|
                    {
                        let leg = request.legs[request.leg_index(s.leg_id)->Some_0];
                        let quote = request.quotes[request.quote_index(s.quote_id)->Some_0];
                        let share = leg.notional.0 as int * quote.price.spec_bps() / 10_000;
                        if leg.side == LegSide::BuyYes || leg.side == LegSide::SellNo {
                            share
                        } else {
                            leg.notional.0 - share
                        }
                    },
            );
            let back = seqs::sum_by(
                request.quotes,
                |q: Quote|
                    if q.maker == party && q.state == QuoteState::Live {
                        q.collateral(
                            request.legs[request.leg_index(q.leg_id)->Some_0],
                        ).0 as int
                    } else {
                        0
                    },
            );
            &&& done.answer == Ok::<RequestModel, EngineError>(after)
            &&& after == (RequestModel {
                state: RequestState::Locked,
                quotes: after.quotes,
                escrows: after.escrows,
                ..request
            })
            &&& after.quotes.len() == request.quotes.len()
            &&& 0 <= j < request.quotes.len() ==> after.quotes[j] == (Quote {
                state: if request.quotes[j].state == QuoteState::Selected {
                    QuoteState::Locked
                } else {
                    QuoteState::Released
                },
                ..request.quotes[j]
            })
            &&& w.config == v.config
            &&& w.next_seq == v.next_seq
            &&& w.entries == v.entries.update(i, w.entries[i])
            &&& account.free == old_account.free + back - if party == request.requester {
                need
            } else {
                0
            }
            &&& account.escrowed == old_account.escrowed + seqs::sum_by(
                after.escrows,
                |escrow: Escrow|
                    (if escrow.yes_buyer == party {
                        escrow.yes_buyer_amount.0 as int
                    } else {
                        0
                    }) + (if escrow.yes_seller == party {
                        escrow.yes_seller_amount.0 as int
                    } else {
                        0
                    }),
            )
            &&& account.free + account.reserved + account.escrowed == old_account.free
                + old_account.reserved + old_account.escrowed
        }),
{
    let e = v.entries[i];
    let request = e.request;
    let package = request.package->Some_0;
    let items = e.planned_items();
    let n = request.quotes.len() as int;
    let legs = request.legs.len() as int;
    course::law_requests_are_found(v, request.id, i);
    let owners = choose|owners: Seq<Owner>| v.owned(owners);
    assert(e.inv(v.ledger.slots, owners, i, v.config, v.next_seq));
    lemma_need(e, v.ledger, owners, i, v.config, v.next_seq, legs, party);
    assert(package.take(legs) =~= package);
    seqs::lemma_sum_same(
        package,
        |s: Selection| requester_side(request, s),
        package,
        |s: Selection|
                    {
                        let leg = request.legs[request.leg_index(s.leg_id)->Some_0];
                        let quote = request.quotes[request.quote_index(s.quote_id)->Some_0];
                        let share = leg.notional.0 as int * quote.price.spec_bps() / 10_000;
                        if leg.side == LegSide::BuyYes || leg.side == LegSide::SellNo {
                            share
                        } else {
                            leg.notional.0 - share
                        }
                    },
    );
    laws::law_accept_locks_all_or_nothing(v, now, request.id, party);
    let after = e.lock(v.ledger.batch_handles(items)).request;
    seqs::lemma_sum_same(
        after.escrows,
        |escrow: Escrow| laws::put_up(escrow, party),
        after.escrows,
        |escrow: Escrow|
            (if escrow.yes_buyer == party {
                escrow.yes_buyer_amount.0 as int
            } else {
                0
            }) + (if escrow.yes_seller == party {
                escrow.yes_seller_amount.0 as int
            } else {
                0
            }),
    );
    lemma_losers_back(v, i, owners, party);
    if 0 <= j < n {
        assert(soundness::states_agree(request.state, request.quotes[j].state));
    }
}

/// What an accepted package makes of a party's free balance and of all it has.
pub proof fn lemma_losers_back(v: EngineModel, i: int, owners: Seq<Owner>, party: PartyId)
    requires
        v.wf(),
        v.owned(owners),
        0 <= i < v.entries.len(),
        v.entries[i].request.state == RequestState::Presented,
        v.ledger.batch_error(v.entries[i].planned_items()) is None,
    ensures
        ({
            let e = v.entries[i];
            let request = e.request;
            let items = e.planned_items();
            let account = e.release_all_holds(v.ledger.lock_batch(items), Scope::Losing).account(
                party,
            );
            let old_account = v.ledger.account(party);
            let back = seqs::sum_by(
                request.quotes,
                |q: Quote|
                    if q.maker == party && q.state == QuoteState::Live {
                        q.collateral(
                            request.legs[request.leg_index(q.leg_id)->Some_0],
                        ).0 as int
                    } else {
                        0
                    },
            );
            &&& account.free == old_account.free - ledger::pending(
                items,
                items.len() as int,
                party,
            ) + back
            &&& account.free + account.reserved + account.escrowed == old_account.free
                + old_account.reserved + old_account.escrowed
        }),
{
    let e = v.entries[i];
    let request = e.request;
    let items = e.planned_items();
    let n = request.quotes.len() as int;
    let scope = Scope::Losing;
    assert(e.inv(v.ledger.slots, owners, i, v.config, v.next_seq));
    let counted = v.ledger.counted();
    let mid = v.ledger.lock_batch(items);
    ledger::laws::lemma_counted(v.ledger, items);
    ledger::laws::lemma_lock_items(counted, items, items.len() as int);
    ledger::laws::lemma_lock_items_gains(counted, items, items.len() as int);
    transitions::lemma_plan_slots(e, v.ledger, owners, i, v.config, v.next_seq);
    let new_owners = owners + transitions::batch_owners(e, i);
    assert forall|k: int| 0 <= k < n && #[trigger] e.lets_go(scope, k) implies e.reservations[k]
        is Some && e.collateral_held(
        mid.slots,
        new_owners,
        i,
        k,
        e.reservations[k]->Some_0,
    ) by {
        assert(e.reservations[k] is Some);
        let id = e.reservations[k]->Some_0;
        assert(e.collateral_held(v.ledger.slots, owners, i, k, id));
        assert(mid.slots[id.0 as int] == v.ledger.slots[id.0 as int]);
    }
    assert(request.quotes.take(n) =~= request.quotes);
    ticks::lemma_let_go_balances(e, mid, new_owners, i, scope, n, party);
    laws::lemma_release_holds_gains(e, mid, scope, n);
    seqs::lemma_sum_same(
        request.quotes,
        |q: Quote|
            if scope.covers(q) && q.holds_collateral() && q.maker == party {
                q.collateral(request.legs[request.leg_index(q.leg_id)->Some_0]).0 as int
            } else {
                0
            },
        request.quotes,
        |q: Quote|
            if q.maker == party && q.state == QuoteState::Live {
                q.collateral(request.legs[request.leg_index(q.leg_id)->Some_0]).0 as int
            } else {
                0
            },
    );
    assert(mid.account(PartyId(party.0)).free == counted.account(PartyId(party.0)).free
        - ledger::pending(items, items.len() as int, PartyId(party.0)));
    assert(mid.row(PartyId(party.0)).account.sum() == counted.row(
        PartyId(party.0),
    ).account.sum());
    let done = e.release_all_holds(mid, scope);
    assert(done.row(PartyId(party.0)).account.sum() == mid.row(PartyId(party.0)).account.sum());
}

/// The escrow of each leg of an accepted package is between the requester and the maker of the
/// quote shown for it, for the notional of the first leg with that identifier. The requester is
/// the Yes-buyer if it ends up long Yes and the Yes-seller if not. The Yes-buyer has its share of
/// the notional at the quote's price in it, and the Yes-seller the rest.
pub proof fn law_accepts_escrow_every_leg(
    v: EngineModel,
    now: Timestamp,
    i: int,
    l: int,
    q: int,
)
    requires
        v.wf(),
        0 <= i < v.entries.len(),
        v.entries[i].request.state == RequestState::Presented,
        now@ <= v.entries[i].request.accept_deadline->Some_0@,
        v.accept(
            now,
            v.entries[i].request.requester,
            v.entries[i].request.id,
        ) matches Some(done) && done.answer is Ok,
        0 <= l < v.entries[i].request.legs.len(),
        0 <= q < v.entries[i].request.quotes.len(),
        v.entries[i].request.quotes[q].id == v.entries[i].request.package->Some_0[l].quote_id,
    ensures
        ({
            let request = v.entries[i].request;
            let done = v.accept(now, request.requester, request.id)->Some_0;
            let after = done.venue.entries[i].request;
            let quote = request.quotes[q];
            let leg = request.legs[request.leg_index(request.legs[l].id)->Some_0];
            let escrow = after.escrows[l];
            let share = leg.notional.0 as int * quote.price.spec_bps() / 10_000;
            let long = leg.side == LegSide::BuyYes || leg.side == LegSide::SellNo;
            &&& after.escrows.len() == request.legs.len()
            &&& escrow.leg_id == request.legs[l].id
            &&& escrow.notional == leg.notional
            &&& escrow.yes_buyer == if long {
                request.requester
            } else {
                quote.maker
            }
            &&& escrow.yes_seller == if long {
                quote.maker
            } else {
                request.requester
            }
            &&& escrow.yes_buyer_amount.0 == share
            &&& escrow.yes_seller_amount.0 == leg.notional.0 - share
        }),
{
    let e = v.entries[i];
    let request = e.request;
    course::law_requests_are_found(v, request.id, i);
    let owners = choose|owners: Seq<Owner>| v.owned(owners);
    assert(e.inv(v.ledger.slots, owners, i, v.config, v.next_seq));
    transitions::lemma_selection(e, v.ledger.slots, owners, i, v.config, v.next_seq, l);
    let b = e.selected_quote(l);
    transitions::lemma_quote_index(request, q);
    let quote = request.quotes[q];
    request::law_roles_and_sides_of_an_escrow(
        e.named_leg(l),
        quote,
        request.requester,
        quote.maker,
    );
}

/// What is refused needs no room: whoever asks for it is told why, whatever the balances.
pub proof fn law_refusals_need_no_room(
    v: EngineModel,
    party: PartyId,
    quote_id: QuoteId,
    request_id: RequestId,
)
    ensures
        v.cancel_quote(party, quote_id).answer is Err ==> v.room_to_cancel(party, quote_id),
        v.reject(party, request_id).answer is Err ==> v.room_to_reject(party, request_id),
{
}

} // verus!
