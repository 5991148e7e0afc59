//! What the passing of time makes of each request.
use vstd::prelude::*;
use crate::domain::ids::{LegId, PartyId};
use crate::domain::matching;
use crate::domain::request::{Escrow, Leg, Quote, RequestModel};
use crate::domain::state::{FailReason, LegSide, OracleOutcome, QuoteState, RequestState};
use crate::engine::course;
use crate::engine::model::{EngineModel, EntryModel, Scope};
use crate::engine::soundness::Owner;
use crate::engine::{keeps, room, soundness, transitions};
use crate::ledger;
use crate::ledger::{LedgerModel, Slot};
use crate::seqs;
use crate::time::Timestamp;

verus! {

/// Terms that are the sums of others add up to the sums of those.
pub proof fn lemma_sum_of_two<T>(
    s: Seq<T>,
    f: spec_fn(T) -> int,
    t: Seq<T>,
    g: spec_fn(T) -> int,
    h: spec_fn(T) -> int,
)
    requires
        t.len() == s.len(),
        forall|j: int|
            0 <= j < s.len() ==> h(#[trigger] s[j]) == f(s[j]) + g(#[trigger] t[j]),
    ensures
        seqs::sum_by(s, h) == seqs::sum_by(s, f) + seqs::sum_by(t, g),
    decreases s.len(),
{
    if s.len() > 0 {
        lemma_sum_of_two(s.drop_last(), f, t.drop_last(), g, h);
    }
}

/// What letting go of those of the first `n` quotes that are in `scope` makes of a party's
/// balances: the collateral of its own goes back.
pub proof fn lemma_let_go_balances(
    e: EntryModel,
    m: LedgerModel,
    owners: Seq<Owner>,
    k: int,
    scope: Scope,
    n: int,
    party: PartyId,
)
    requires
        m.wf(),
        e.reservations.len() == e.request.quotes.len(),
        forall|i: int|
            0 <= i < e.request.quotes.len() && #[trigger] e.lets_go(scope, i)
                ==> e.reservations[i] is Some && e.collateral_held(
                m.slots,
                owners,
                k,
                i,
                e.reservations[i]->Some_0,
            ),
        owners.len() == m.slots.len(),
        0 <= n <= e.request.quotes.len(),
    ensures
        ({
            let before = m.account(party);
            let after = e.release_holds(m, scope, n).account(party);
            let back = seqs::sum_by(
                e.request.quotes.take(n),
                |q: Quote|
                    if scope.covers(q) && q.holds_collateral() && q.maker == party {
                        q.collateral(
                            e.request.legs[e.request.leg_index(q.leg_id)->Some_0],
                        ).0 as int
                    } else {
                        0
                    },
            );
            &&& after.free == before.free + back
            &&& after.reserved == before.reserved - back
            &&& after.escrowed == before.escrowed
        }),
    decreases n,
{
    let quotes = e.request.quotes;
    let back = |q: Quote|
        if scope.covers(q) && q.holds_collateral() && q.maker == party {
            q.collateral(e.request.legs[e.request.leg_index(q.leg_id)->Some_0]).0 as int
        } else {
            0
        };
    if n == 0 {
        assert(quotes.take(0).len() == 0);
    } else {
        lemma_let_go_balances(e, m, owners, k, scope, n - 1, party);
        let rest = e.release_holds(m, scope, n - 1);
        seqs::lemma_sum_take(quotes, back, n - 1);
        if e.lets_go(scope, n - 1) {
            transitions::lemma_release_holds(e, m, owners, k, scope, n - 1);
            let id = e.reservations[n - 1]->Some_0;
            assert(e.collateral_held(m.slots, owners, k, n - 1, id));
            assert(rest.slots[id.0 as int] == m.slots[id.0 as int]);
        }
    }
}

/// What is let go of a backed request was held.
pub proof fn lemma_let_go_is_held(
    e: EntryModel,
    slots: Seq<Slot>,
    owners: Seq<Owner>,
    k: int,
    scope: Scope,
)
    requires
        e.backed(slots, owners, k),
    ensures
        forall|i: int|
            0 <= i < e.request.quotes.len() && #[trigger] e.lets_go(scope, i)
                ==> e.reservations[i] is Some && e.collateral_held(
                slots,
                owners,
                k,
                i,
                e.reservations[i]->Some_0,
            ),
{
    assert forall|i: int|
        0 <= i < e.request.quotes.len() && #[trigger] e.lets_go(scope, i) implies
        e.reservations[i] is Some && e.collateral_held(
        slots,
        owners,
        k,
        i,
        e.reservations[i]->Some_0,
    ) by {
        assert(e.reservations[i] is Some);
    }
}

/// The chosen quote of a leg once expired quotes are gone is the chosen one of all quotes.
proof fn lemma_best_of_fresh(e: EntryModel, now: Timestamp, until: Timestamp, leg: Leg, o: int)
    ensures
        ({
            let fresh = e.release(Scope::Expired(now)).request.quotes;
            let q = e.request.quotes[o];
            let suits = 0 <= o < e.request.quotes.len() && q.state == QuoteState::Live && q.leg_id == leg.id && q.size.0
                >= leg.notional.0 && now@ < q.expires_at@ && until@ <= q.expires_at@;
            &&& matching::best_index(leg, fresh, now, until) matches Some(j) ==> {
                &&& 0 <= j < e.request.quotes.len()
                &&& fresh[j] == e.request.quotes[j]
                &&& e.request.quotes[j].state == QuoteState::Live
                &&& e.request.quotes[j].leg_id == leg.id
                &&& e.request.quotes[j].size.0 >= leg.notional.0
                &&& now@ < e.request.quotes[j].expires_at@
                &&& until@ <= e.request.quotes[j].expires_at@
            }
            &&& suits ==> {
                &&& matching::best_index(leg, fresh, now, until) matches Some(j)
                &&& leg.side == LegSide::BuyYes || leg.side == LegSide::SellNo
                    ==> e.request.quotes[j].price.spec_bps() <= q.price.spec_bps()
                &&& leg.side == LegSide::SellYes || leg.side == LegSide::BuyNo
                    ==> e.request.quotes[j].price.spec_bps() >= q.price.spec_bps()
                &&& e.request.quotes[j].price.spec_bps() == q.price.spec_bps()
                    ==> e.request.quotes[j].seq.0 <= q.seq.0
            }
        }),
{
    let fresh = e.release(Scope::Expired(now)).request.quotes;
    matching::law_best_price_then_first_submitted(leg, fresh, now, until, o);
    assert(e.lets_go(Scope::Expired(now), o) ==> e.request.quotes[o].expires_at@ <= now@);
    if let Some(j) = matching::best_index(leg, fresh, now, until) {
        assert(!e.lets_go(Scope::Expired(now), j));
        assert(fresh[j] == e.request.quotes[j]);
    }
}

/// Before its response deadline an open request only loses its expired quotes: they are released,
/// and their makers have the collateral back. There is room for that wherever all that was ever
/// credited is an amount.
pub proof fn law_expired_quotes_are_let_go(
    v: EngineModel,
    now: Timestamp,
    i: int,
    party: PartyId,
)
    requires
        v.wf(),
        0 <= i < v.entries.len(),
        v.entries[i].request.state == RequestState::Open,
        now@ < v.entries[i].request.response_deadline@,
    ensures
        ({
            let request = v.entries[i].request;
            &&& v.ledger.credited_total() <= u64::MAX && (forall|p: u128|
                (#[trigger] v.ledger.row(PartyId(p))).fits()) ==> v.tick_entry(now, i) is Some
            &&& v.tick_entry(now, i) matches Some(w) ==> {
                let after = w.entries[i].request;
                let back = seqs::sum_by(
                    request.quotes,
                    |q: Quote|
                        if q.maker == party && q.state == QuoteState::Live && q.expires_at@ <= now@ {
                            q.collateral(
                                request.legs[request.leg_index(q.leg_id)->Some_0],
                            ).0 as int
                        } else {
                            0
                        },
                );
                &&& w.config == v.config
                &&& w.next_seq == v.next_seq
                &&& w.entries == v.entries.update(i, w.entries[i])
                &&& w.entries[i].handles == v.entries[i].handles
                &&& after == (RequestModel { quotes: after.quotes, ..request })
                &&& after.quotes.len() == request.quotes.len()
                &&& forall|j: int|
                    0 <= j < request.quotes.len() ==> #[trigger] after.quotes[j] == (Quote {
                        state: if request.quotes[j].state == QuoteState::Live
                            && request.quotes[j].expires_at@ <= now@ {
                            QuoteState::Released
                        } else {
                            request.quotes[j].state
                        },
                        ..request.quotes[j]
                    })
                &&& w.ledger.account(party).free == v.ledger.account(party).free + back
                &&& w.ledger.account(party).reserved == v.ledger.account(party).reserved - back
                &&& w.ledger.account(party).escrowed == v.ledger.account(party).escrowed
            }
        }),
{
    let e = v.entries[i];
    keeps::lemma_entry_sound(v, i);
    if v.ledger.credited_total() <= u64::MAX && v.ledger.fits() {
        room::lemma_room_within_credits(e, v.ledger, Scope::Expired(now));
    }
    lemma_expired_back(v, now, i, party);
}

/// Whether some quote of the request suits the `l`-th leg.
pub open spec fn suited(request: RequestModel, now: Timestamp, until: Timestamp, l: int) -> bool {
    exists|j: int|
        0 <= j < request.quotes.len() && (#[trigger] request.quotes[j]).state == QuoteState::Live
            && request.quotes[j].leg_id == request.legs[l].id && request.quotes[j].size.0
            >= request.legs[l].notional.0 && now@ < request.quotes[j].expires_at@ && until@
            <= request.quotes[j].expires_at@
}

/// A leg has a chosen quote exactly if some quote suits it.
proof fn lemma_suited(e: EntryModel, now: Timestamp, until: Timestamp, l: int)
    requires
        0 <= l < e.request.legs.len(),
    ensures
        suited(e.request, now, until, l) <==> e.release(Scope::Expired(now)).best(
            l,
            now,
            until,
        ) is Some,
{
    let leg = e.request.legs[l];
    let fresh = e.release(Scope::Expired(now));
    lemma_best_of_fresh(e, now, until, leg, 0);
    if suited(e.request, now, until, l) {
        let j = choose|j: int|
            0 <= j < e.request.quotes.len() && (#[trigger] e.request.quotes[j]).state
                == QuoteState::Live && e.request.quotes[j].leg_id == leg.id
                && e.request.quotes[j].size.0 >= leg.notional.0 && now@
                < e.request.quotes[j].expires_at@ && until@ <= e.request.quotes[j].expires_at@;
        lemma_best_of_fresh(e, now, until, leg, j);
    }
    if fresh.best(l, now, until) is Some {
        let j = fresh.best(l, now, until)->Some_0;
        assert(e.request.quotes[j].state == QuoteState::Live);
    }
}

/// At its response deadline an open request is presented or fails, and has room to wherever all
/// that was ever credited is an amount and the end of the accept window is on the calendar. It is
/// presented exactly if every leg has a quote that is live, on the leg, large enough, not expired,
/// and good until the requester's time is over: the end of the accept window, or the resolution if
/// that is earlier.
pub proof fn law_due_requests_are_presented_or_fail(v: EngineModel, now: Timestamp, i: int)
    requires
        v.wf(),
        0 <= i < v.entries.len(),
        v.entries[i].request.state == RequestState::Open,
        now@ >= v.entries[i].request.response_deadline@,
    ensures
        ({
            let request = v.entries[i].request;
            let close = now.plus(v.config.accept_window)->Some_0;
            let until = if request.resolves_at@ < close@ {
                request.resolves_at
            } else {
                close
            };
            let matched = forall|l: int|
                0 <= l < request.legs.len() ==> exists|j: int|
                    0 <= j < request.quotes.len() && (#[trigger] request.quotes[j]).state
                        == QuoteState::Live && request.quotes[j].leg_id == (
                    #[trigger] request.legs[l]).id && request.quotes[j].size.0
                        >= request.legs[l].notional.0 && now@ < request.quotes[j].expires_at@
                        && until@ <= request.quotes[j].expires_at@;
            &&& v.tick_entry(now, i) is Some ==> now.plus(v.config.accept_window) is Some
            &&& now.plus(v.config.accept_window) is Some && v.ledger.credited_total() <= u64::MAX
                && (forall|p: u128| (#[trigger] v.ledger.row(PartyId(p))).fits())
                ==> v.tick_entry(now, i) is Some
            &&& v.tick_entry(now, i) matches Some(w) ==> {
                let after = w.entries[i].request;
                &&& w.config == v.config
                &&& w.next_seq == v.next_seq
                &&& w.entries == v.entries.update(i, w.entries[i])
                &&& w.entries[i].handles == v.entries[i].handles
                &&& matched ==> after.state == RequestState::Presented
                &&& !matched ==> after.state == RequestState::Failed
            }
        }),
{
    let e = v.entries[i];
    let request = e.request;
    let close = now.plus(v.config.accept_window)->Some_0;
            let until = if request.resolves_at@ < close@ {
                request.resolves_at
            } else {
                close
            };
    let fresh = e.release(Scope::Expired(now));
    if v.ledger.fits() && v.ledger.credited_total() <= u64::MAX {
        room::lemma_room_within_credits(e, v.ledger, Scope::Expired(now));
        room::lemma_room_within_credits(
            fresh,
            e.release_all_holds(v.ledger, Scope::Expired(now)),
            Scope::All,
        );
    }
    lemma_matched(e, now, until);
    assert((forall|l: int|
        0 <= l < request.legs.len() ==> exists|j: int|
            0 <= j < request.quotes.len() && (#[trigger] request.quotes[j]).state
                == QuoteState::Live && request.quotes[j].leg_id == (
            #[trigger] request.legs[l]).id && request.quotes[j].size.0
                >= request.legs[l].notional.0 && now@ < request.quotes[j].expires_at@ && until@
                <= request.quotes[j].expires_at@) == (forall|l: int|
        0 <= l < request.legs.len() ==> #[trigger] suited(request, now, until, l))) by {
        lemma_suited_everywhere(request, now, until);
    }
}

/// A request that is due is presented exactly if every leg is suited.
pub proof fn lemma_matched(e: EntryModel, now: Timestamp, until: Timestamp)
    ensures
        ({
            let fresh = e.release(Scope::Expired(now));
            let matched = forall|l: int|
                0 <= l < e.request.legs.len() ==> #[trigger] suited(e.request, now, until, l);
            &&& matched <==> fresh.unmatched(now, until) is None
            &&& fresh.unmatched(now, until) matches Some(l) ==> {
                &&& 0 <= l < e.request.legs.len()
                &&& !suited(e.request, now, until, l)
                &&& forall|k: int| 0 <= k < l ==> #[trigger] suited(e.request, now, until, k)
            }
        }),
{
    let fresh = e.release(Scope::Expired(now));
    let alone = |leg: Leg|
        matching::best_index(leg, fresh.request.quotes, now, until) is None;
    assert forall|l: int| 0 <= l < e.request.legs.len() implies alone(
        #[trigger] e.request.legs[l],
    ) == !suited(e.request, now, until, l) by {
        lemma_suited(e, now, until, l);
        assert(fresh.best(l, now, until) is Some == !alone(e.request.legs[l]));
    }
    seqs::lemma_first_some(fresh.request.legs, alone);
    if fresh.unmatched(now, until) is None {
        assert forall|l: int| 0 <= l < e.request.legs.len() implies #[trigger] suited(
            e.request,
            now,
            until,
            l,
        ) by {
            if alone(e.request.legs[l]) {
                seqs::lemma_first_exists(fresh.request.legs, alone, l);
            }
        }
    } else {
        let l = fresh.unmatched(now, until)->Some_0;
        assert(alone(e.request.legs[l]));
        assert forall|k: int| 0 <= k < l implies #[trigger] suited(e.request, now, until, k) by {
            assert(!alone(fresh.request.legs[k]));
            assert(!alone(e.request.legs[k]));
        }
    }
}

/// Being suited, leg by leg.
pub proof fn lemma_suited_everywhere(request: RequestModel, now: Timestamp, until: Timestamp)
    ensures
        (forall|l: int|
            0 <= l < request.legs.len() ==> exists|j: int|
                0 <= j < request.quotes.len() && (#[trigger] request.quotes[j]).state
                    == QuoteState::Live && request.quotes[j].leg_id == (
                #[trigger] request.legs[l]).id && request.quotes[j].size.0
                    >= request.legs[l].notional.0 && now@ < request.quotes[j].expires_at@
                    && until@ <= request.quotes[j].expires_at@) <==> (forall|l: int|
            0 <= l < request.legs.len() ==> #[trigger] suited(request, now, until, l)),
{
    assert forall|l: int|
        0 <= l < request.legs.len() && (forall|k: int|
            0 <= k < request.legs.len() ==> #[trigger] suited(request, now, until, k)) implies exists|
        j: int,
    |
        0 <= j < request.quotes.len() && (#[trigger] request.quotes[j]).state == QuoteState::Live
            && request.quotes[j].leg_id == (#[trigger] request.legs[l]).id
            && request.quotes[j].size.0 >= request.legs[l].notional.0 && now@
            < request.quotes[j].expires_at@ && until@ <= request.quotes[j].expires_at@ by {
        assert(suited(request, now, until, l));
    }
    assert forall|l: int|
        0 <= l < request.legs.len() && (forall|k: int|
            0 <= k < request.legs.len() ==> exists|j: int|
                0 <= j < request.quotes.len() && (#[trigger] request.quotes[j]).state
                    == QuoteState::Live && request.quotes[j].leg_id == (
                #[trigger] request.legs[k]).id && request.quotes[j].size.0
                    >= request.legs[k].notional.0 && now@ < request.quotes[j].expires_at@
                    && until@ <= request.quotes[j].expires_at@) implies #[trigger] suited(
        request,
        now,
        until,
        l,
    ) by {
        assert(request.legs[l] == request.legs[l]);
    }
}

/// A request that is presented shows for each leg, in order, a quote that suits it: live, on the
/// leg, large enough, not expired and good until the requester's time is over, when the accept
/// window closes or at the resolution if that is earlier. Of all quotes that suit the leg it has
/// the lowest price if the requester ends up long Yes and the highest if not, and was submitted
/// first of those at its price.
pub proof fn law_presented_requests_show_the_best_quotes(
    v: EngineModel,
    now: Timestamp,
    i: int,
    l: int,
    j: int,
    o: int,
)
    requires
        v.wf(),
        0 <= i < v.entries.len(),
        v.entries[i].request.state == RequestState::Open,
        now@ >= v.entries[i].request.response_deadline@,
        v.tick_entry(now, i) is Some,
        v.tick_entry(now, i)->Some_0.entries[i].request.state == RequestState::Presented,
        0 <= l < v.entries[i].request.legs.len(),
        0 <= o < v.entries[i].request.quotes.len(),
    ensures
        ({
            let request = v.entries[i].request;
            let after = v.tick_entry(now, i)->Some_0.entries[i].request;
            let close = now.plus(v.config.accept_window)->Some_0;
            let until = if request.resolves_at@ < close@ {
                request.resolves_at
            } else {
                close
            };
            let package = after.package->Some_0;
            let leg = request.legs[l];
            let shown = request.quotes[j];
            let other = request.quotes[o];
            &&& after.accept_deadline == Some(until)
            &&& after.package is Some
            &&& package.len() == request.legs.len()
            &&& package[l].leg_id == leg.id
            &&& exists|k: int|
                0 <= k < request.quotes.len() && (#[trigger] request.quotes[k]).id
                    == package[l].quote_id
            &&& 0 <= j < request.quotes.len() && shown.id == package[l].quote_id ==> {
                &&& shown.state == QuoteState::Live
                &&& shown.leg_id == leg.id
                &&& shown.size.0 >= leg.notional.0
                &&& now@ < shown.expires_at@
                &&& until@ <= shown.expires_at@
                &&& other.state == QuoteState::Live && other.leg_id == leg.id && other.size.0
                    >= leg.notional.0 && now@ < other.expires_at@ && until@ <= other.expires_at@
                    ==> {
                    &&& leg.side == LegSide::BuyYes || leg.side == LegSide::SellNo
                        ==> shown.price.spec_bps() <= other.price.spec_bps()
                    &&& leg.side == LegSide::SellYes || leg.side == LegSide::BuyNo
                        ==> shown.price.spec_bps() >= other.price.spec_bps()
                    &&& shown.price.spec_bps() == other.price.spec_bps() ==> shown.seq.0
                        <= other.seq.0
                }
            }
        }),
{
    let e = v.entries[i];
    let request = e.request;
    let close = now.plus(v.config.accept_window)->Some_0;
    let until = if request.resolves_at@ < close@ {
        request.resolves_at
    } else {
        close
    };
    keeps::lemma_entry_sound(v, i);
    let fresh = e.release(Scope::Expired(now));
    let package = v.tick_entry(now, i)->Some_0.entries[i].request.package->Some_0;
    assert(fresh.unmatched(now, until) is None);
    transitions::lemma_all_matched(fresh, now, until);
    let b = fresh.best(l, now, until)->Some_0;
    lemma_best_of_fresh(e, now, until, request.legs[l], o);
    assert(request.quotes[b].id == package[l].quote_id);
    if 0 <= j < request.quotes.len() && request.quotes[j].id == package[l].quote_id {
        assert(b == j);
    }
}

/// Presenting a request selects the quotes that it shows and releases the expired ones, with their
/// collateral; nothing else changes.
pub proof fn law_presenting_selects_what_is_shown(
    v: EngineModel,
    now: Timestamp,
    i: int,
    j: int,
    party: PartyId,
)
    requires
        v.wf(),
        0 <= i < v.entries.len(),
        v.entries[i].request.state == RequestState::Open,
        now@ >= v.entries[i].request.response_deadline@,
        v.tick_entry(now, i) is Some,
        v.tick_entry(now, i)->Some_0.entries[i].request.state == RequestState::Presented,
    ensures
        ({
            let request = v.entries[i].request;
            let w = v.tick_entry(now, i)->Some_0;
            let after = w.entries[i].request;
            let package = after.package->Some_0;
            let back = seqs::sum_by(
                request.quotes,
                |q: Quote|
                    if q.maker == party && q.state == QuoteState::Live && q.expires_at@ <= now@ {
                        q.collateral(
                            request.legs[request.leg_index(q.leg_id)->Some_0],
                        ).0 as int
                    } else {
                        0
                    },
            );
            &&& after == (RequestModel {
                state: RequestState::Presented,
                accept_deadline: after.accept_deadline,
                package: after.package,
                quotes: after.quotes,
                ..request
            })
            &&& after.quotes.len() == request.quotes.len()
            &&& 0 <= j < request.quotes.len() ==> after.quotes[j] == (Quote {
                state: if exists|l: int|
                    0 <= l < package.len() && (#[trigger] package[l]).quote_id
                        == request.quotes[j].id {
                    QuoteState::Selected
                } else if request.quotes[j].state == QuoteState::Live
                    && request.quotes[j].expires_at@ <= now@ {
                    QuoteState::Released
                } else {
                    request.quotes[j].state
                },
                ..request.quotes[j]
            })
            &&& w.ledger.account(party).free == v.ledger.account(party).free + back
            &&& w.ledger.account(party).reserved == v.ledger.account(party).reserved - back
            &&& w.ledger.account(party).escrowed == v.ledger.account(party).escrowed
        }),
{
    let e = v.entries[i];
    let request = e.request;
    let close = now.plus(v.config.accept_window)->Some_0;
            let until = if request.resolves_at@ < close@ {
                request.resolves_at
            } else {
                close
            };
    keeps::lemma_entry_sound(v, i);
    let fresh = e.release(Scope::Expired(now));
    let package = v.tick_entry(now, i)->Some_0.entries[i].request.package->Some_0;
    lemma_expired_back(v, now, i, party);
    assert(fresh.unmatched(now, until) is None);
    transitions::lemma_all_matched(fresh, now, until);
    if 0 <= j < request.quotes.len() {
        if fresh.is_chosen(j, now, until) {
            let l = choose|l: int|
                0 <= l < fresh.request.legs.len() && #[trigger] fresh.best(l, now, until) == Some(
                    j,
                );
            lemma_best_of_fresh(e, now, until, request.legs[l], j);
            assert(package[l].quote_id == request.quotes[j].id);
        }
        if exists|l: int|
            0 <= l < package.len() && (#[trigger] package[l]).quote_id == request.quotes[j].id {
            let l = choose|l: int|
                0 <= l < package.len() && (#[trigger] package[l]).quote_id
                    == request.quotes[j].id;
            let b = fresh.best(l, now, until)->Some_0;
            lemma_best_of_fresh(e, now, until, request.legs[l], b);
            assert(request.quotes[b].id == request.quotes[j].id);
            assert(b == j);
            assert(fresh.is_chosen(j, now, until));
        }
    }
}

/// The collateral that goes back when an open request loses its expired quotes.
pub proof fn lemma_expired_back(v: EngineModel, now: Timestamp, i: int, party: PartyId)
    requires
        v.wf(),
        0 <= i < v.entries.len(),
    ensures
        ({
            let request = v.entries[i].request;
            let ledger = v.entries[i].release_all_holds(v.ledger, Scope::Expired(now));
            let back = seqs::sum_by(
                request.quotes,
                |q: Quote|
                    if q.maker == party && q.state == QuoteState::Live && q.expires_at@ <= now@ {
                        q.collateral(
                            request.legs[request.leg_index(q.leg_id)->Some_0],
                        ).0 as int
                    } else {
                        0
                    },
            );
            &&& ledger.account(party).free == v.ledger.account(party).free + back
            &&& ledger.account(party).reserved == v.ledger.account(party).reserved - back
            &&& ledger.account(party).escrowed == v.ledger.account(party).escrowed
        }),
{
    let e = v.entries[i];
    let request = e.request;
    let owners = choose|owners: Seq<Owner>| v.owned(owners);
    assert(e.inv(v.ledger.slots, owners, i, v.config, v.next_seq));
    let scope = Scope::Expired(now);
    let n = request.quotes.len() as int;
    assert(request.quotes.take(n) =~= request.quotes);
    lemma_let_go_is_held(e, v.ledger.slots, owners, i, scope);
    lemma_let_go_balances(e, v.ledger, owners, i, scope, n, party);
    seqs::lemma_sum_same(
        request.quotes,
        |q: Quote|
            if scope.covers(q) && q.holds_collateral() && q.maker == party {
                q.collateral(request.legs[request.leg_index(q.leg_id)->Some_0]).0 as int
            } else {
                0
            },
        request.quotes,
        |q: Quote|
            if q.maker == party && q.state == QuoteState::Live && q.expires_at@ <= now@ {
                q.collateral(request.legs[request.leg_index(q.leg_id)->Some_0]).0 as int
            } else {
                0
            },
    );
}

/// The collateral that goes back when a request loses all its quotes.
pub proof fn lemma_all_back(
    e: EntryModel,
    m: LedgerModel,
    owners: Seq<Owner>,
    k: int,
    party: PartyId,
)
    requires
        m.wf(),
        e.reservations.len() == e.request.quotes.len(),
        e.backed(m.slots, owners, k),
        owners.len() == m.slots.len(),
    ensures
        ({
            let request = e.request;
            let ledger = e.release_all_holds(m, Scope::All);
            let back = seqs::sum_by(
                request.quotes,
                |q: Quote|
                    if q.maker == party && (q.state == QuoteState::Live || q.state
                        == QuoteState::Selected) {
                        q.collateral(
                            request.legs[request.leg_index(q.leg_id)->Some_0],
                        ).0 as int
                    } else {
                        0
                    },
            );
            &&& ledger.account(party).free == m.account(party).free + back
            &&& ledger.account(party).reserved == m.account(party).reserved - back
            &&& ledger.account(party).escrowed == m.account(party).escrowed
        }),
{
    let request = e.request;
    let n = request.quotes.len() as int;
    assert(request.quotes.take(n) =~= request.quotes);
    lemma_let_go_is_held(e, m.slots, owners, k, Scope::All);
    lemma_let_go_balances(e, m, owners, k, Scope::All, n, party);
    seqs::lemma_sum_same(
        request.quotes,
        |q: Quote|
            if Scope::All.covers(q) && q.holds_collateral() && q.maker == party {
                q.collateral(request.legs[request.leg_index(q.leg_id)->Some_0]).0 as int
            } else {
                0
            },
        request.quotes,
        |q: Quote|
            if q.maker == party && (q.state == QuoteState::Live || q.state
                == QuoteState::Selected) {
                q.collateral(request.legs[request.leg_index(q.leg_id)->Some_0]).0 as int
            } else {
                0
            },
    );
}

/// A request that is due and not presented fails over the first leg that no quote suits. All its
/// quotes are released, and every maker has the collateral of its live quotes back; nothing else
/// changes.
pub proof fn law_unmatched_requests_fail_over_the_first_leg(
    v: EngineModel,
    now: Timestamp,
    i: int,
    j: int,
    party: PartyId,
)
    requires
        v.wf(),
        0 <= i < v.entries.len(),
        v.entries[i].request.state == RequestState::Open,
        now@ >= v.entries[i].request.response_deadline@,
        v.tick_entry(now, i) is Some,
        v.tick_entry(now, i)->Some_0.entries[i].request.state == RequestState::Failed,
    ensures
        ({
            let request = v.entries[i].request;
            let w = v.tick_entry(now, i)->Some_0;
            let after = w.entries[i].request;
            let close = now.plus(v.config.accept_window)->Some_0;
            let until = if request.resolves_at@ < close@ {
                request.resolves_at
            } else {
                close
            };
            let back = seqs::sum_by(
                request.quotes,
                |q: Quote|
                    if q.maker == party && q.state == QuoteState::Live {
                        q.collateral(
                            request.legs[request.leg_index(q.leg_id)->Some_0],
                        ).0 as int
                    } else {
                        0
                    },
            );
            &&& after == (RequestModel {
                state: RequestState::Failed,
                fail_reason: after.fail_reason,
                quotes: after.quotes,
                ..request
            })
            &&& after.quotes.len() == request.quotes.len()
            &&& 0 <= j < request.quotes.len() ==> after.quotes[j] == (Quote {
                state: QuoteState::Released,
                ..request.quotes[j]
            })
            &&& exists|l: int|
                {
                    &&& 0 <= l < request.legs.len()
                    &&& after.fail_reason == Some(
                        FailReason::LegUnmatched((#[trigger] request.legs[l]).id),
                    )
                    &&& forall|k: int|
                        0 <= k < request.quotes.len() ==> !((#[trigger] request.quotes[k]).state
                            == QuoteState::Live && request.quotes[k].leg_id == request.legs[l].id
                            && request.quotes[k].size.0 >= request.legs[l].notional.0 && now@
                            < request.quotes[k].expires_at@ && until@
                            <= request.quotes[k].expires_at@)
                    &&& forall|m: int|
                        0 <= m < l ==> exists|k: int|
                            0 <= k < request.quotes.len() && (#[trigger] request.quotes[k]).state
                                == QuoteState::Live && request.quotes[k].leg_id == (
                            #[trigger] request.legs[m]).id && request.quotes[k].size.0
                                >= request.legs[m].notional.0 && now@
                                < request.quotes[k].expires_at@ && until@
                                <= request.quotes[k].expires_at@
                }
            &&& w.ledger.account(party).free == v.ledger.account(party).free + back
            &&& w.ledger.account(party).reserved == v.ledger.account(party).reserved - back
            &&& w.ledger.account(party).escrowed == v.ledger.account(party).escrowed
        }),
{
    let e = v.entries[i];
    let request = e.request;
    let close = now.plus(v.config.accept_window)->Some_0;
    let until = if request.resolves_at@ < close@ {
        request.resolves_at
    } else {
        close
    };
    let owners = choose|owners: Seq<Owner>| v.owned(owners);
    assert(e.inv(v.ledger.slots, owners, i, v.config, v.next_seq));
    let scope = Scope::Expired(now);
    let fresh = e.release(scope);
    let ledger = e.release_all_holds(v.ledger, scope);
    transitions::lemma_release_entry(e, v.ledger, owners, i, v.config, v.next_seq, scope);
    lemma_expired_back(v, now, i, party);
    lemma_all_back(fresh, ledger, owners, i, party);
    assert forall|q: LegId| fresh.request.leg_index(q) == request.leg_index(q) by {}
    lemma_sum_of_two(
        request.quotes,
        |q: Quote|
            if q.maker == party && q.state == QuoteState::Live && q.expires_at@ <= now@ {
                q.collateral(request.legs[request.leg_index(q.leg_id)->Some_0]).0 as int
            } else {
                0
            },
        fresh.request.quotes,
        |q: Quote|
            if q.maker == party && (q.state == QuoteState::Live || q.state
                == QuoteState::Selected) {
                q.collateral(fresh.request.legs[fresh.request.leg_index(q.leg_id)->Some_0]).0 as int
            } else {
                0
            },
        |q: Quote|
            if q.maker == party && q.state == QuoteState::Live {
                q.collateral(request.legs[request.leg_index(q.leg_id)->Some_0]).0 as int
            } else {
                0
            },
    );
    lemma_matched(e, now, until);
    let l = fresh.unmatched(now, until)->Some_0;
    assert forall|m: int| 0 <= m < l implies exists|k: int|
        0 <= k < request.quotes.len() && (#[trigger] request.quotes[k]).state == QuoteState::Live
            && request.quotes[k].leg_id == (#[trigger] request.legs[m]).id
            && request.quotes[k].size.0 >= request.legs[m].notional.0 && now@
            < request.quotes[k].expires_at@ && until@ <= request.quotes[k].expires_at@ by {
        assert(suited(request, now, until, m));
    }
    assert(request.legs[l].id == fresh.request.legs[l].id);
    if 0 <= j < request.quotes.len() {
        assert(soundness::states_agree(request.state, request.quotes[j].state));
    }
}

/// A presented request whose time to accept is over fails: all its quotes are released, and every
/// maker has the collateral of its quotes back. One whose time is not over stays as it is. There is
/// room for that wherever all that was ever credited is an amount.
pub proof fn law_accept_windows_run_out(
    v: EngineModel,
    now: Timestamp,
    i: int,
    j: int,
    party: PartyId,
)
    requires
        v.wf(),
        0 <= i < v.entries.len(),
        v.entries[i].request.state == RequestState::Presented,
    ensures
        ({
            let request = v.entries[i].request;
            let over = now@ > request.accept_deadline->Some_0@;
            let back = seqs::sum_by(
                request.quotes,
                |q: Quote|
                    if q.maker == party && (q.state == QuoteState::Live || q.state
                        == QuoteState::Selected) {
                        q.collateral(
                            request.legs[request.leg_index(q.leg_id)->Some_0],
                        ).0 as int
                    } else {
                        0
                    },
            );
            &&& request.accept_deadline is Some
            &&& !over ==> v.tick_entry(now, i) == Some(v)
            &&& v.ledger.credited_total() <= u64::MAX && (forall|p: u128|
                (#[trigger] v.ledger.row(PartyId(p))).fits()) ==> v.tick_entry(now, i) is Some
            &&& over ==> (v.tick_entry(now, i) matches Some(w) ==> {
                let after = w.entries[i].request;
                &&& w.config == v.config
                &&& w.next_seq == v.next_seq
                &&& w.entries == v.entries.update(i, w.entries[i])
                &&& w.entries[i].handles == v.entries[i].handles
                &&& after == (RequestModel {
                    state: RequestState::Failed,
                    fail_reason: Some(FailReason::AcceptWindowExpired),
                    quotes: after.quotes,
                    ..request
                })
                &&& after.quotes.len() == request.quotes.len()
                &&& 0 <= j < request.quotes.len() ==> after.quotes[j] == (Quote {
                    state: QuoteState::Released,
                    ..request.quotes[j]
                })
                &&& w.ledger.account(party).free == v.ledger.account(party).free + back
                &&& w.ledger.account(party).reserved == v.ledger.account(party).reserved - back
                &&& w.ledger.account(party).escrowed == v.ledger.account(party).escrowed
            })
        }),
{
    let e = v.entries[i];
    let owners = choose|owners: Seq<Owner>| v.owned(owners);
    assert(e.inv(v.ledger.slots, owners, i, v.config, v.next_seq));
    if v.ledger.fits() && v.ledger.credited_total() <= u64::MAX {
        room::lemma_room_within_credits(e, v.ledger, Scope::All);
    }
    lemma_all_back(e, v.ledger, owners, i, party);
    if 0 <= j < e.request.quotes.len() {
        assert(soundness::states_agree(e.request.state, e.request.quotes[j].state));
    }
}

/// A reported outcome pays out when its dispute window is over: each leg's notional goes to its
/// Yes-buyer on Yes and to its Yes-seller on No, and what the parties put up is out of escrow.
/// Before that the request stays as it is. It is not paid while two legs have one identifier; else
/// it is wherever there is ample room.
pub proof fn law_reports_pay_out_after_the_window(
    v: EngineModel,
    now: Timestamp,
    i: int,
    party: PartyId,
)
    requires
        v.wf(),
        0 <= i < v.entries.len(),
        v.entries[i].request.state == RequestState::Reported,
    ensures
        ({
            let request = v.entries[i].request;
            let over = now@ > request.dispute_deadline->Some_0@;
            let outcome = request.reported_outcome->Some_0;
            let distinct = forall|a: int, b: int|
                0 <= a < b < request.legs.len() ==> (#[trigger] request.legs[a]).id != (
                #[trigger] request.legs[b]).id;
            let ample = {
                &&& v.ledger.credited_total() <= u64::MAX
                &&& forall|p: u128|
                    {
                        let row = #[trigger] v.ledger.row(PartyId(p));
                        &&& row.fits()
                        &&& row.paid_to_others + v.ledger.escrowed_total() <= u64::MAX
                        &&& row.received_from_others + v.ledger.escrowed_total() <= u64::MAX
                    }
            };
            &&& request.dispute_deadline is Some
            &&& request.reported_outcome == Some(OracleOutcome::Yes) || request.reported_outcome
                == Some(OracleOutcome::No)
            &&& !over ==> v.tick_entry(now, i) == Some(v)
            &&& over && v.tick_entry(now, i) is Some ==> distinct
            &&& distinct && ample ==> v.tick_entry(now, i) is Some
            &&& over ==> (v.tick_entry(now, i) matches Some(w) ==> {
                let after = w.entries[i];
                let old_account = v.ledger.account(party);
                let account = w.ledger.account(party);
                &&& w.config == v.config
                &&& w.next_seq == v.next_seq
                &&& w.entries == v.entries.update(i, w.entries[i])
                &&& after.request == (RequestModel { state: RequestState::Settled, ..request })
                &&& after.reservations == v.entries[i].reservations
                &&& after.handles.len() == 0
                &&& account.reserved == old_account.reserved
                &&& account.free == old_account.free + seqs::sum_by(
                    request.escrows,
                    |escrow: Escrow|
                        if outcome == OracleOutcome::Yes && escrow.yes_buyer == party || outcome
                            == OracleOutcome::No && escrow.yes_seller == party {
                            escrow.notional.0 as int
                        } else {
                            0
                        },
                )
                &&& account.escrowed == old_account.escrowed - seqs::sum_by(
                    request.escrows,
                    |escrow: Escrow|
                        (if escrow.yes_buyer == party {
                            escrow.yes_buyer_amount.0 as int
                        } else {
                            0
                        }) + (if escrow.yes_seller == party {
                            escrow.yes_seller_amount.0 as int
                        } else {
                            0
                        }),
                )
            })
        }),
{
    let e = v.entries[i];
    keeps::lemma_entry_sound(v, i);
    let outcome = e.request.reported_outcome->Some_0;
    if ledger::laws::ample(v.ledger) {
        room::lemma_ample_to_settle(e, v.ledger, outcome);
    }
    course::lemma_paid_out(v, i, outcome, party);
}

/// A dispute with a limit is unwound when the limit is over: every party gets back just what it
/// put up. Before that, and without a limit, the request stays as it is. It is not unwound while
/// two legs have one identifier; else it is wherever there is ample room.
pub proof fn law_disputes_are_unwound_after_their_limit(
    v: EngineModel,
    now: Timestamp,
    i: int,
    party: PartyId,
)
    requires
        v.wf(),
        0 <= i < v.entries.len(),
        v.entries[i].request.state == RequestState::Disputed,
    ensures
        ({
            let request = v.entries[i].request;
            let over = request.unwind_deadline is Some && now@ > request.unwind_deadline->Some_0@;
            let distinct = forall|a: int, b: int|
                0 <= a < b < request.legs.len() ==> (#[trigger] request.legs[a]).id != (
                #[trigger] request.legs[b]).id;
            let ample = {
                &&& v.ledger.credited_total() <= u64::MAX
                &&& forall|p: u128|
                    {
                        let row = #[trigger] v.ledger.row(PartyId(p));
                        &&& row.fits()
                        &&& row.paid_to_others + v.ledger.escrowed_total() <= u64::MAX
                        &&& row.received_from_others + v.ledger.escrowed_total() <= u64::MAX
                    }
            };
            &&& !over ==> v.tick_entry(now, i) == Some(v)
            &&& over && v.tick_entry(now, i) is Some ==> distinct
            &&& distinct && ample ==> v.tick_entry(now, i) is Some
            &&& over ==> (v.tick_entry(now, i) matches Some(w) ==> {
                let after = w.entries[i];
                let old_account = v.ledger.account(party);
                let account = w.ledger.account(party);
                let stake = seqs::sum_by(
                    request.escrows,
                    |escrow: Escrow|
                        (if escrow.yes_buyer == party {
                            escrow.yes_buyer_amount.0 as int
                        } else {
                            0
                        }) + (if escrow.yes_seller == party {
                            escrow.yes_seller_amount.0 as int
                        } else {
                            0
                        }),
                );
                &&& w.config == v.config
                &&& w.next_seq == v.next_seq
                &&& w.entries == v.entries.update(i, w.entries[i])
                &&& after.request == (RequestModel { state: RequestState::Unwound, ..request })
                &&& after.reservations == v.entries[i].reservations
                &&& after.handles.len() == 0
                &&& account.reserved == old_account.reserved
                &&& account.free == old_account.free + stake
                &&& account.escrowed == old_account.escrowed - stake
            })
        }),
{
    let e = v.entries[i];
    keeps::lemma_entry_sound(v, i);
    if ledger::laws::ample(v.ledger) {
        room::lemma_ample_to_unwind(e, v.ledger);
    }
    course::lemma_refunded(v, i, party);
}

/// The clock leaves a request alone that is locked or has come to its end.
pub proof fn law_time_passes_the_rest_by(v: EngineModel, now: Timestamp, i: int)
    requires
        0 <= i < v.entries.len(),
        v.entries[i].request.state == RequestState::Locked || v.entries[i].request.state
            == RequestState::Settled || v.entries[i].request.state == RequestState::Unwound
            || v.entries[i].request.state == RequestState::Failed,
    ensures
        v.tick_entry(now, i) == Some(v),
{
}

/// Where the first `k` requests were moved on, so were the first `i`, and the later ones have not
/// touched those.
proof fn lemma_moved_on(v: EngineModel, now: Timestamp, i: int, k: int)
    requires
        v.wf(),
        0 <= i < k <= v.entries.len(),
        v.tick_first(now, k) is Some,
    ensures
        v.tick_first(now, i) is Some,
        v.tick_first(now, i + 1) is Some,
        v.tick_first(now, i)->Some_0.tick_entry(now, i) == v.tick_first(now, i + 1),
        v.tick_first(now, k)->Some_0.entries[i] == v.tick_first(now, i + 1)->Some_0.entries[i],
    decreases k,
{
    keeps::lemma_tick_first_wf(v, now, k - 1);
    keeps::lemma_tick_entry_wf(v.tick_first(now, k - 1)->Some_0, now, k - 1);
    if i < k - 1 {
        lemma_moved_on(v, now, i, k - 1);
    }
}

/// A tick that completes moves on every request, one after the other, each from where the one
/// before it has left the venue.
pub proof fn law_clock_moves_all_requests_on(v: EngineModel, now: Timestamp)
    requires
        v.wf(),
        v.tick(now) is Some,
    ensures
        exists|steps: Seq<EngineModel>|
            {
                &&& #[trigger] steps.len() == v.entries.len() + 1
                &&& steps[0] == v
                &&& steps.last() == v.tick(now)->Some_0
                &&& forall|i: int|
                    0 <= i < v.entries.len() ==> steps[i + 1] == (#[trigger] steps[i]).tick_entry(
                        now,
                        i,
                    )->Some_0 && steps[i].tick_entry(now, i) is Some
            },
{
    let n = v.entries.len() as int;
    let steps = Seq::new((n + 1) as nat, |k: int| v.tick_first(now, k)->Some_0);
    assert forall|i: int| 0 <= i < v.entries.len() implies steps[i + 1] == (
    #[trigger] steps[i]).tick_entry(now, i)->Some_0 && steps[i].tick_entry(now, i) is Some by {
        lemma_moved_on(v, now, i, n);
    }
    assert(steps.len() == n + 1 && steps[0] == v && steps.last() == v.tick(now)->Some_0);
}

/// After a tick that completes every request is what the clock makes of it, whatever states the
/// others are in: some sound venue on the same terms has the request as it was, and the clock makes
/// of it there what it is now. An open request that is due is presented or has failed, a presented
/// one whose time is over has failed, a reported one whose window is over is settled, and a
/// disputed one whose limit is over is unwound; an open one that is not due is open, and any other
/// is as it was. Requests come and go with commands only.
pub proof fn law_every_request_is_moved_on(v: EngineModel, now: Timestamp, i: int)
    requires
        v.wf(),
        v.tick(now) is Some,
        0 <= i < v.entries.len(),
    ensures
        ({
            let w = v.tick(now)->Some_0;
            let before = v.entries[i].request;
            let after = w.entries[i].request;
            &&& w.wf()
            &&& w.entries.len() == v.entries.len()
            &&& w.config == v.config
            &&& w.next_seq == v.next_seq
            &&& exists|u: EngineModel|
                {
                    &&& (#[trigger] u.tick_entry(now, i)) is Some
                    &&& u.tick_entry(now, i)->Some_0.entries[i] == w.entries[i]
                    &&& u.entries.len() == v.entries.len()
                    &&& u.entries[i] == v.entries[i]
                    &&& u.config == v.config
                    &&& u.next_seq == v.next_seq
                    &&& u.wf()
                }
            &&& match before.state {
                RequestState::Open => if now@ < before.response_deadline@ {
                    after.state == RequestState::Open
                } else {
                    after.state == RequestState::Presented || after.state == RequestState::Failed
                },
                RequestState::Presented => if now@ > before.accept_deadline->Some_0@ {
                    after.state == RequestState::Failed && after.fail_reason == Some(
                        FailReason::AcceptWindowExpired,
                    )
                } else {
                    after == before
                },
                RequestState::Reported => if now@ > before.dispute_deadline->Some_0@ {
                    after == (RequestModel { state: RequestState::Settled, ..before })
                } else {
                    after == before
                },
                RequestState::Disputed => if before.unwind_deadline is Some && now@
                    > before.unwind_deadline->Some_0@ {
                    after == (RequestModel { state: RequestState::Unwound, ..before })
                } else {
                    after == before
                },
                _ => after == before,
            }
        }),
{
    let n = v.entries.len() as int;
    keeps::lemma_tick_first_wf(v, now, n);
    lemma_moved_on(v, now, i, n);
    keeps::lemma_tick_first_wf(v, now, i);
    let u = v.tick_first(now, i)->Some_0;
    assert(u.tick_entry(now, i) is Some);
    assert(u.entries[i] == v.entries[i]);
}

/// A tick that stops has moved on every request before the one that it stops at, and no other; that
/// one cannot be moved on.
pub proof fn law_stopped_clocks_moved_on_the_requests_before(
    v: EngineModel,
    now: Timestamp,
    w: EngineModel,
)
    requires
        v.wf(),
        v.stops_at(now, w),
    ensures
        w.wf(),
        w.config == v.config,
        w.next_seq == v.next_seq,
        w.entries.len() == v.entries.len(),
        v.tick(now) is None,
        exists|steps: Seq<EngineModel>|
            {
                &&& 1 <= #[trigger] steps.len() <= v.entries.len()
                &&& steps[0] == v
                &&& steps.last() == w
                &&& forall|i: int|
                    0 <= i < steps.len() - 1 ==> steps[i + 1] == (
                    #[trigger] steps[i]).tick_entry(now, i)->Some_0 && steps[i].tick_entry(
                        now,
                        i,
                    ) is Some
                &&& w.tick_entry(now, steps.len() - 1) is None
                &&& forall|j: int|
                    steps.len() - 1 <= j < v.entries.len() ==> #[trigger] w.entries[j]
                        == v.entries[j]
            },
{
    let k = choose|k: int|
        {
            &&& 0 <= k < v.entries.len()
            &&& #[trigger] v.tick_first(now, k) == Some(w)
            &&& w.tick_entry(now, k) is None
        };
    keeps::lemma_tick_first_wf(v, now, k);
    let steps = Seq::new((k + 1) as nat, |j: int| v.tick_first(now, j)->Some_0);
    assert forall|i: int| 0 <= i < steps.len() - 1 implies steps[i + 1] == (
    #[trigger] steps[i]).tick_entry(now, i)->Some_0 && steps[i].tick_entry(now, i) is Some by {
        lemma_moved_on(v, now, i, k);
    }
    assert(steps[0] == v && steps.last() == w && steps.len() == k + 1);
    if v.tick(now) is Some {
        lemma_moved_on(v, now, k, v.entries.len() as int);
    }
}

/// A clock that cannot complete a tick stops somewhere.
pub proof fn law_clocks_complete_or_stop(v: EngineModel, now: Timestamp)
    ensures
        v.tick(now) is None ==> exists|w: EngineModel| #[trigger] v.stops_at(now, w),
{
    if v.tick(now) is None {
        lemma_stops_before(v, now, v.entries.len() as int);
    }
}

proof fn lemma_stops_before(v: EngineModel, now: Timestamp, k: int)
    requires
        0 <= k <= v.entries.len(),
        v.tick_first(now, k) is None,
    ensures
        exists|w: EngineModel| #[trigger] v.stops_at(now, w),
    decreases k,
{
    match v.tick_first(now, k - 1) {
        Some(w) => {
            assert(v.tick_first(now, k - 1) == Some(w));
            assert(v.stops_at(now, w));
        },
        None => {
            lemma_stops_before(v, now, k - 1);
        },
    }
}

/// A tick completes wherever there is ample room, every new deadline is on the calendar, and every
/// request that is due to pay out or refund has legs with different identifiers.
pub proof fn law_ticks_complete_where_there_is_room(v: EngineModel, now: Timestamp)
    requires
        v.wf(),
        v.ledger.credited_total() <= u64::MAX,
        forall|p: u128|
            {
                let row = #[trigger] v.ledger.row(PartyId(p));
                &&& row.fits()
                &&& row.paid_to_others + v.ledger.escrowed_total() <= u64::MAX
                &&& row.received_from_others + v.ledger.escrowed_total() <= u64::MAX
            },
        now.plus(v.config.accept_window) is Some,
        forall|i: int, a: int, b: int|
            0 <= i < v.entries.len() && 0 <= a < b < v.entries[i].request.legs.len() && (
            v.entries[i].request.state == RequestState::Reported || v.entries[i].request.state
                == RequestState::Disputed) ==> (#[trigger] v.entries[i].request.legs[a]).id != (
            #[trigger] v.entries[i].request.legs[b]).id,
    ensures
        v.tick(now) is Some,
{
    assert(ledger::laws::ample(v.ledger));
    assert forall|i: int| 0 <= i < v.entries.len() implies #[trigger] keeps::ready_entry(
        v,
        now,
        i,
    ) by {}
    keeps::law_ample_room_admits_tick(v, now);
}

} // verus!
