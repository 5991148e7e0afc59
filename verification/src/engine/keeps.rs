//! Every command, whatever it is asked, leaves the venue sound.
use vstd::prelude::*;
use crate::domain::ids::{LegId, PartyId, QuoteId, RequestId};
use crate::domain::money::{Amount, Price};
use crate::domain::request::{Leg, Quote, RequestModel};
use crate::domain::state::{FailReason, OracleOutcome, RequestState, Tenor};
use crate::engine::model::{EngineModel, EntryModel, Scope};
use crate::engine::soundness::Owner;
use crate::engine::{room, soundness, transitions};
use crate::ledger::{Hold, LedgerModel, Slot};
use crate::ledger::laws;
use crate::time::Timestamp;
use crate::seqs;

verus! {

/// A request is found under its identifier, if it is there.
pub proof fn lemma_found(v: EngineModel, id: RequestId)
    ensures
        v.find(id) matches Some(i) ==> 0 <= i < v.entries.len() && v.entries[i].request.id == id,
{
    seqs::lemma_first_some(v.entries, |e: EntryModel| e.request.id == id);
}

/// A request is found by its quote, if it is there.
pub proof fn lemma_quote_found(v: EngineModel, id: QuoteId)
    ensures
        v.find_quote(id) matches Some(i) ==> {
            &&& 0 <= i < v.entries.len()
            &&& v.entries[i].request.quote_index(id) is Some
            &&& 0 <= v.entries[i].request.quote_index(id)->Some_0
                < v.entries[i].request.quotes.len()
            &&& v.entries[i].request.quotes[v.entries[i].request.quote_index(id)->Some_0].id == id
        },
{
    seqs::lemma_first_some(v.entries, |e: EntryModel| e.request.quote_index(id) is Some);
    if let Some(i) = v.find_quote(id) {
        seqs::lemma_first_some(v.entries[i].request.quotes, |q: Quote| q.id == id);
    }
}

/// Replacing one entry by a sound one keeps the venue sound.
proof fn lemma_replace(
    v: EngineModel,
    owners: Seq<Owner>,
    ledger: LedgerModel,
    k: int,
    f: EntryModel,
    new_owners: Seq<Owner>,
)
    requires
        v.wf(),
        v.owned(owners),
        0 <= k < v.entries.len(),
        ledger.wf(),
        soundness::touches_only(v.ledger.slots, owners, ledger.slots, new_owners, k),
        f.inv(ledger.slots, new_owners, k, v.config, v.next_seq),
        f.request.id == v.entries[k].request.id,
        f.request.quotes.len() == v.entries[k].request.quotes.len(),
        forall|i: int|
            0 <= i < f.request.quotes.len() ==> (#[trigger] f.request.quotes[i]).id
                == v.entries[k].request.quotes[i].id,
        ledger.escrowed_total() - v.ledger.escrowed_total() == f.escrow_due()
            - v.entries[k].escrow_due(),
    ensures
        v.with_entry(ledger, k, f).wf(),
        v.escrow_matches() ==> v.with_entry(ledger, k, f).escrow_matches(),
{
    let w = v.with_entry(ledger, k, f);
    assert(w.entries =~= v.entries.update(k, w.entries[k]));
    soundness::lemma_same_quote_ids(v, w, k);
    soundness::lemma_step(v, owners, w, new_owners, k);
    let due = |e: EntryModel| e.escrow_due();
    seqs::lemma_sum_differs_at(v.entries, due, w.entries, due, k);
}

/// The owners of a sound venue's handles.
proof fn the_owners(v: EngineModel) -> (owners: Seq<Owner>)
    requires
        v.wf(),
    ensures
        v.owned(owners),
{
    choose|owners: Seq<Owner>| v.owned(owners)
}

/// A sound ledger with nothing on the venue yet is a sound venue.
pub proof fn lemma_new_venue(v: EngineModel)
    requires
        v.ledger.wf(),
        v.entries.len() == 0,
    ensures
        v.wf(),
        v.ledger.escrowed_total() == 0 ==> v.escrow_matches(),
{
    let owners = Seq::new(v.ledger.slots.len(), |r: int| Owner::Nobody);
    assert(v.owned(owners));
}

/// Failing a request that is open or presented.
proof fn lemma_fail_at(v: EngineModel, ledger: LedgerModel, i: int, reason: FailReason)
    requires
        v.wf(),
        0 <= i < v.entries.len(),
        v.entries[i].request.state is Open || v.entries[i].request.state is Presented,
        ledger.wf(),
        ledger.slots == v.ledger.slots,
        ledger.escrowed_total() == v.ledger.escrowed_total(),
    ensures
        v.fail_at(ledger, i, reason).wf(),
        v.escrow_matches() ==> v.fail_at(ledger, i, reason).escrow_matches(),
{
    let owners = the_owners(v);
    let e = v.entries[i];
    assert(e.inv(v.ledger.slots, owners, i, v.config, v.next_seq));
    transitions::lemma_fail_entry(e, ledger, owners, i, v.config, v.next_seq, reason);
    lemma_replace(v, owners, e.release_all_holds(ledger, Scope::All), i, e.fail(reason), owners);
}

pub proof fn lemma_cancel_quote_wf(v: EngineModel, maker: PartyId, quote_id: QuoteId)
    requires
        v.wf(),
    ensures
        v.cancel_quote(maker, quote_id).venue.wf(),
        v.escrow_matches() ==> v.cancel_quote(maker, quote_id).venue.escrow_matches(),
{
    lemma_quote_found(v, quote_id);
    if let Some(i) = v.find_quote(quote_id) {
        let e = v.entries[i];
        if e.request.state is Open {
            let scope = Scope::Named(quote_id);
            let owners = the_owners(v);
            assert(e.inv(v.ledger.slots, owners, i, v.config, v.next_seq));
            transitions::lemma_release_entry(
                e,
                v.ledger,
                owners,
                i,
                v.config,
                v.next_seq,
                scope,
            );
            lemma_replace(
                v,
                owners,
                e.release_all_holds(v.ledger, scope),
                i,
                e.release(scope),
                owners,
            );
        }
    }
}

pub proof fn lemma_accept_wf(
    v: EngineModel,
    now: Timestamp,
    requester: PartyId,
    request_id: RequestId,
)
    requires
        v.wf(),
        v.accept(now, requester, request_id) matches Some(done) ==> (done.answer is Ok
            ==> v.ledger.slots.len() + v.entries[v.find(
            request_id,
        )->Some_0].planned_items().len() <= u64::MAX),
    ensures
        v.accept(now, requester, request_id) matches Some(done) ==> {
            &&& done.venue.wf()
            &&& v.escrow_matches() ==> done.venue.escrow_matches()
        },
{
    lemma_found(v, request_id);
    if v.answer_refusal(requester, request_id) is None {
        let i = v.find(request_id)->Some_0;
        let e = v.entries[i];
        let owners = the_owners(v);
        assert(e.inv(v.ledger.slots, owners, i, v.config, v.next_seq));
        if now@ > e.request.accept_deadline->Some_0@ {
            lemma_fail_at(v, v.ledger, i, FailReason::AcceptWindowExpired);
        } else {
            let items = e.planned_items();
            transitions::lemma_plan_refusal(e, v.ledger, owners, i, v.config, v.next_seq);
            laws::lemma_counted(v.ledger, items);
            if v.ledger.batch_error(items) is Some {
                lemma_fail_at(
                    v,
                    v.ledger.lock_batch(items),
                    i,
                    FailReason::InsufficientRequesterFunds,
                );
            } else if e.room_to_lock(v.ledger) {
                transitions::lemma_lock_entry(e, v.ledger, owners, i, v.config, v.next_seq);
                lemma_replace(
                    v,
                    owners,
                    e.release_all_holds(v.ledger.lock_batch(items), Scope::Losing),
                    i,
                    e.lock(v.ledger.batch_handles(items)),
                    owners + transitions::batch_owners(e, i),
                );
            }
        }
    }
}

pub proof fn lemma_reject_wf(v: EngineModel, requester: PartyId, request_id: RequestId)
    requires
        v.wf(),
    ensures
        v.reject(requester, request_id).venue.wf(),
        v.escrow_matches() ==> v.reject(requester, request_id).venue.escrow_matches(),
{
    lemma_found(v, request_id);
    if v.answer_refusal(requester, request_id) is None {
        lemma_fail_at(v, v.ledger, v.find(request_id)->Some_0, FailReason::Rejected);
    }
}

/// Settling a request in escrow.
proof fn lemma_settle_at(v: EngineModel, i: int, outcome: OracleOutcome)
    requires
        v.wf(),
        0 <= i < v.entries.len(),
        v.entries[i].in_escrow(),
    ensures
        v.settle_at(i, outcome) matches Some(done) ==> {
            &&& done.venue.wf()
            &&& v.escrow_matches() ==> done.venue.escrow_matches()
        },
{
    let owners = the_owners(v);
    let e = v.entries[i];
    assert(e.inv(v.ledger.slots, owners, i, v.config, v.next_seq));
    transitions::lemma_settle_entry(e, v.ledger, owners, i, v.config, v.next_seq, outcome);
    lemma_replace(v, owners, e.settle_holds(v.ledger, outcome), i, e.settle(), owners);
}

/// Unwinding a request in escrow.
proof fn lemma_unwind_at(v: EngineModel, i: int)
    requires
        v.wf(),
        0 <= i < v.entries.len(),
        v.entries[i].in_escrow(),
    ensures
        ({
            let w = v.with_entry(v.entries[i].unwind_holds(v.ledger), i, v.entries[i].unwind());
            &&& w.wf()
            &&& v.escrow_matches() ==> w.escrow_matches()
        }),
{
    let owners = the_owners(v);
    let e = v.entries[i];
    assert(e.inv(v.ledger.slots, owners, i, v.config, v.next_seq));
    transitions::lemma_unwind_entry(e, v.ledger, owners, i, v.config, v.next_seq);
    lemma_replace(v, owners, e.unwind_holds(v.ledger), i, e.unwind(), owners);
}

/// A change of state and deadlines within escrow.
proof fn lemma_relabel_at(v: EngineModel, i: int, f: EntryModel)
    requires
        v.wf(),
        0 <= i < v.entries.len(),
        v.entries[i].in_escrow(),
        f.in_escrow(),
        f.request == (RequestModel {
            state: f.request.state,
            reported_outcome: f.request.reported_outcome,
            dispute_deadline: f.request.dispute_deadline,
            unwind_deadline: f.request.unwind_deadline,
            ..v.entries[i].request
        }),
        f.reservations == v.entries[i].reservations,
        f.handles == v.entries[i].handles,
        f.request.state is Reported ==> f.request.dispute_deadline is Some && (
        f.request.reported_outcome matches Some(outcome) && outcome.decides()),
    ensures
        v.with_entry(v.ledger, i, f).wf(),
        v.escrow_matches() ==> v.with_entry(v.ledger, i, f).escrow_matches(),
{
    let owners = the_owners(v);
    let e = v.entries[i];
    assert(e.inv(v.ledger.slots, owners, i, v.config, v.next_seq));
    transitions::lemma_relabel_entry(e, f, v.ledger.slots, owners, i, v.config, v.next_seq);
    lemma_replace(v, owners, v.ledger, i, f, owners);
}

pub proof fn lemma_resolve_wf(
    v: EngineModel,
    now: Timestamp,
    request_id: RequestId,
    outcome: OracleOutcome,
)
    requires
        v.wf(),
    ensures
        v.resolve(now, request_id, outcome) matches Some(done) ==> {
            &&& done.venue.wf()
            &&& v.escrow_matches() ==> done.venue.escrow_matches()
        },
{
    lemma_found(v, request_id);
    if let Some(i) = v.find(request_id) {
        if v.entries[i].in_escrow() {
            lemma_settle_at(v, i, outcome);
            lemma_unwind_at(v, i);
            if let Some(done) = v.resolve(now, request_id, outcome) {
                let f = done.venue.entries[i];
                if f.in_escrow() && done.answer is Ok {
                    if f != v.entries[i] {
                        lemma_relabel_at(v, i, f);
                        assert(v.with_entry(v.ledger, i, f) == done.venue);
                    }
                }
            }
        }
    }
}

pub proof fn lemma_dispute_wf(
    v: EngineModel,
    now: Timestamp,
    party: PartyId,
    request_id: RequestId,
)
    requires
        v.wf(),
    ensures
        v.dispute(now, party, request_id) matches Some(done) ==> {
            &&& done.venue.wf()
            &&& v.escrow_matches() ==> done.venue.escrow_matches()
        },
{
    lemma_found(v, request_id);
    if let Some(i) = v.find(request_id) {
        if let Some(done) = v.dispute(now, party, request_id) {
            if done.answer is Ok {
                lemma_relabel_at(v, i, done.venue.entries[i]);
                assert(v.with_entry(v.ledger, i, done.venue.entries[i]) == done.venue);
            }
        }
    }
}

/// The clock moving one request on.
pub proof fn lemma_tick_entry_wf(v: EngineModel, now: Timestamp, i: int)
    requires
        v.wf(),
        0 <= i < v.entries.len(),
    ensures
        v.tick_entry(now, i) matches Some(w) ==> {
            &&& w.wf()
            &&& w.config == v.config
            &&& w.next_seq == v.next_seq
            &&& w.entries.len() == v.entries.len()
            &&& forall|j: int|
                0 <= j < v.entries.len() && j != i ==> #[trigger] w.entries[j] == v.entries[j]
            &&& v.escrow_matches() ==> w.escrow_matches()
        },
{
    let owners = the_owners(v);
    let e = v.entries[i];
    assert(e.inv(v.ledger.slots, owners, i, v.config, v.next_seq));
    match e.request.state {
        RequestState::Open => {
            let scope = Scope::Expired(now);
            transitions::lemma_release_entry(e, v.ledger, owners, i, v.config, v.next_seq, scope);
            let ledger = e.release_all_holds(v.ledger, scope);
            let fresh = e.release(scope);
            lemma_replace(v, owners, ledger, i, fresh, owners);
            if now@ >= e.request.response_deadline@ {
                if let Some(close) = now.plus(v.config.accept_window) {
                    let deadline = close.earlier(e.request.resolves_at);
                    match fresh.unmatched(now, deadline) {
                        Some(l) => {
                            let u = v.with_entry(ledger, i, fresh);
                            let reason = FailReason::LegUnmatched(fresh.request.legs[l].id);
                            lemma_fail_at(u, ledger, i, reason);
                            assert(u.fail_at(ledger, i, reason).entries =~= v.entries.update(
                                i,
                                fresh.fail(reason),
                            ));
                        },
                        None => {
                            transitions::lemma_present_entry(
                                fresh,
                                ledger.slots,
                                owners,
                                i,
                                v.config,
                                v.next_seq,
                                now,
                                deadline,
                            );
                            lemma_replace(
                                v,
                                owners,
                                ledger,
                                i,
                                fresh.present(now, deadline),
                                owners,
                            );
                        },
                    }
                }
            }
        },
        RequestState::Presented => {
            if now@ > e.request.accept_deadline->Some_0@ {
                lemma_fail_at(v, v.ledger, i, FailReason::AcceptWindowExpired);
            }
        },
        RequestState::Reported => {
            lemma_settle_at(v, i, e.request.reported_outcome->Some_0);
        },
        RequestState::Disputed => {
            lemma_unwind_at(v, i);
        },
        _ => {},
    }
}

pub proof fn lemma_tick_first_wf(v: EngineModel, now: Timestamp, k: int)
    requires
        v.wf(),
        0 <= k <= v.entries.len(),
    ensures
        v.tick_first(now, k) matches Some(w) ==> {
            &&& w.wf()
            &&& w.config == v.config
            &&& w.next_seq == v.next_seq
            &&& w.entries.len() == v.entries.len()
            &&& forall|j: int|
                k <= j < v.entries.len() ==> #[trigger] w.entries[j] == v.entries[j]
            &&& v.escrow_matches() ==> w.escrow_matches()
        },
    decreases k,
{
    if k > 0 {
        lemma_tick_first_wf(v, now, k - 1);
        if let Some(u) = v.tick_first(now, k - 1) {
            lemma_tick_entry_wf(u, now, k - 1);
        }
    }
}

/// The clock moving the first `k` requests on leaves the venue sound and the rest as they were.
pub proof fn lemma_tick_so_far(v: EngineModel, now: Timestamp, k: int)
    requires
        v.wf(),
        0 <= k <= v.entries.len(),
        v.tick_first(now, k) is Some,
    ensures
        ({
            let w = v.tick_first(now, k)->Some_0;
            &&& w.wf()
            &&& w.config == v.config
            &&& w.next_seq == v.next_seq
            &&& w.entries.len() == v.entries.len()
            &&& forall|j: int| k <= j < v.entries.len() ==> #[trigger] w.entries[j] == v.entries[j]
            &&& v.escrow_matches() ==> w.escrow_matches()
        }),
{
    lemma_tick_first_wf(v, now, k);
}

/// The clock keeps the venue sound.
pub proof fn law_clock_keeps_the_venue_sound(v: EngineModel, now: Timestamp)
    requires
        v.wf(),
    ensures
        v.tick(now) matches Some(w) ==> {
            &&& w.wf()
            &&& v.escrow_matches() ==> w.escrow_matches()
        },
{
    lemma_tick_first_wf(v, now, v.entries.len() as int);
}

/// Whether nothing but a want of room could keep the clock from moving the `i`-th request on: a
/// new deadline is on the calendar, and where it is due to pay out or refund, its legs have
/// different identifiers.
pub open spec fn ready_entry(v: EngineModel, now: Timestamp, i: int) -> bool {
    let entry = v.entries[i];
    let request = entry.request;
    match request.state {
        RequestState::Open => now@ >= request.response_deadline@ ==> now.plus(
            v.config.accept_window,
        ) is Some,
        RequestState::Reported => now@ > request.dispute_deadline->Some_0@ ==> entry.traceable(),
        RequestState::Disputed => request.unwind_deadline matches Some(deadline) ==> (now@
            > deadline@ ==> entry.traceable()),
        _ => true,
    }
}

/// Where there is ample room, a ready request can be moved on, and ample room is left.
proof fn lemma_ample_room_to_move(v: EngineModel, now: Timestamp, i: int)
    requires
        v.wf(),
        laws::ample(v.ledger),
        0 <= i < v.entries.len(),
        ready_entry(v, now, i),
    ensures
        v.tick_entry(now, i) matches Some(w) && laws::ample(w.ledger),
{
    let e = v.entries[i];
    let n = e.request.quotes.len() as int;
    match e.request.state {
        RequestState::Open => {
            let scope = Scope::Expired(now);
            let fresh = e.release(scope);
            let ledger = e.release_all_holds(v.ledger, scope);
            room::lemma_ample_to_release(e, v.ledger, scope);
            room::lemma_ample_to_release(fresh, ledger, Scope::All);
        },
        RequestState::Presented => {
            room::lemma_ample_to_release(e, v.ledger, Scope::All);
        },
        RequestState::Reported => {
            room::lemma_ample_to_settle(e, v.ledger, e.request.reported_outcome->Some_0);
        },
        RequestState::Disputed => {
            room::lemma_ample_to_unwind(e, v.ledger);
        },
        _ => {},
    }
}

proof fn lemma_ample_room_to_move_first(v: EngineModel, now: Timestamp, k: int)
    requires
        v.wf(),
        laws::ample(v.ledger),
        0 <= k <= v.entries.len(),
        forall|i: int| 0 <= i < v.entries.len() ==> #[trigger] ready_entry(v, now, i),
    ensures
        v.tick_first(now, k) matches Some(w) && laws::ample(w.ledger),
    decreases k,
{
    if k > 0 {
        lemma_ample_room_to_move_first(v, now, k - 1);
        lemma_tick_first_wf(v, now, k - 1);
        let u = v.tick_first(now, k - 1)->Some_0;
        assert(ready_entry(v, now, k - 1));
        assert(u.entries[k - 1] == v.entries[k - 1]);
        lemma_ample_room_to_move(u, now, k - 1);
    }
}

/// Where there is ample room and every request is ready, the clock can move the venue on, and
/// ample room is left.
pub proof fn law_ample_room_admits_tick(v: EngineModel, now: Timestamp)
    requires
        v.wf(),
        laws::ample(v.ledger),
        forall|i: int| 0 <= i < v.entries.len() ==> #[trigger] ready_entry(v, now, i),
    ensures
        v.tick(now) matches Some(w) && laws::ample(w.ledger),
{
    lemma_ample_room_to_move_first(v, now, v.entries.len() as int);
}

/// Where there is ample room and the legs have different identifiers, an outcome can be taken if
/// the deadline that it brings is on the calendar.
pub proof fn law_ample_room_admits_resolve(
    v: EngineModel,
    now: Timestamp,
    request_id: RequestId,
    outcome: OracleOutcome,
)
    requires
        v.wf(),
        laws::ample(v.ledger),
        v.find(request_id) matches Some(i) ==> v.entries[i].traceable(),
        v.config.dispute_window matches Some(window) ==> now.plus(window) is Some,
        v.unwind_at(now) is Some,
    ensures
        v.resolve(now, request_id, outcome) matches Some(done) && laws::ample(done.venue.ledger),
{
    if let Some(i) = v.find(request_id) {
        room::lemma_ample_to_settle(v.entries[i], v.ledger, outcome);
        room::lemma_ample_to_unwind(v.entries[i], v.ledger);
    }
}

/// Whether no request has this identifier.
pub open spec fn request_id_fresh(v: EngineModel, id: RequestId) -> bool {
    v.find(id) is None
}

/// Whether no quote has this identifier.
pub open spec fn quote_id_fresh(v: EngineModel, id: QuoteId) -> bool {
    v.find_quote(id) is None
}

proof fn lemma_request_id_fresh(v: EngineModel, id: RequestId, k: int)
    requires
        request_id_fresh(v, id),
        0 <= k < v.entries.len(),
    ensures
        v.entries[k].request.id != id,
{
    if v.entries[k].request.id == id {
        seqs::lemma_first_exists(v.entries, |e: EntryModel| e.request.id == id, k);
    }
}

pub proof fn lemma_quote_id_fresh(v: EngineModel, id: QuoteId, k: int, i: int)
    requires
        quote_id_fresh(v, id),
        0 <= k < v.entries.len(),
        0 <= i < v.entries[k].request.quotes.len(),
    ensures
        v.entries[k].request.quotes[i].id != id,
{
    if v.entries[k].request.quotes[i].id == id {
        seqs::lemma_first_exists(v.entries[k].request.quotes, |q: Quote| q.id == id, i);
        seqs::lemma_first_exists(
            v.entries,
            |e: EntryModel| e.request.quote_index(id) is Some,
            k,
        );
    }
}

pub proof fn lemma_submit_request_wf(
    v: EngineModel,
    now: Timestamp,
    id: RequestId,
    requester: PartyId,
    legs: Seq<Leg>,
    tenor: Tenor,
    response_deadline: Timestamp,
)
    requires
        v.wf(),
        request_id_fresh(v, id),
    ensures
        v.submit_request(now, id, requester, legs, tenor, response_deadline).venue.wf(),
        v.escrow_matches() ==> v.submit_request(
            now,
            id,
            requester,
            legs,
            tenor,
            response_deadline,
        ).venue.escrow_matches(),
{
    if v.request_refusal(now, legs, tenor, response_deadline) is None {
        let w = v.submit_request(now, id, requester, legs, tenor, response_deadline).venue;
        let owners = the_owners(v);
        let n = v.entries.len() as int;
        assert forall|k: int| 0 <= k < w.entries.len() implies (#[trigger] w.entries[k]).inv(
            w.ledger.slots,
            owners,
            k,
            w.config,
            w.next_seq,
        ) by {
            if k < n {
                assert(w.entries[k] == v.entries[k]);
            } else {
                assert forall|r: int| 0 <= r < owners.len() implies (
                #[trigger] owners[r]).entry() != k by {}
            }
        }
        assert(w.owned(owners));
        assert(w.requests_distinct()) by {
            assert forall|i: int, j: int| 0 <= i < j < w.entries.len() implies (
            #[trigger] w.entries[i]).request.id != (#[trigger] w.entries[j]).request.id by {
                assert(w.entries[i] == v.entries[i]);
                if j < n {
                    assert(v.entries[i].request.id != v.entries[j].request.id);
                } else {
                    lemma_request_id_fresh(v, id, i);
                }
            }
        }
        assert(w.quotes_disjoint()) by {
            assert forall|i: int, j: int, a: int, b: int|
                0 <= i < j < w.entries.len() && 0 <= a < w.entries[i].request.quotes.len() && 0
                    <= b < w.entries[j].request.quotes.len() implies (
            #[trigger] w.entries[i].request.quotes[a]).id != (
            #[trigger] w.entries[j].request.quotes[b]).id by {
                assert(w.entries[i] == v.entries[i]);
                assert(j < n);
                assert(w.entries[j] == v.entries[j]);
                assert(v.entries[i].request.quotes[a].id != v.entries[j].request.quotes[b].id);
            }
        }
        seqs::lemma_sum_push(v.entries, |e: EntryModel| e.escrow_due(), w.entries[n]);
    }
}

#[verifier::spinoff_prover]
pub proof fn lemma_submit_quote_wf(
    v: EngineModel,
    now: Timestamp,
    id: QuoteId,
    maker: PartyId,
    request_id: RequestId,
    leg_id: LegId,
    price: Price,
    size: Amount,
    expires_at: Timestamp,
)
    requires
        v.wf(),
        quote_id_fresh(v, id),
        price.in_range(),
        v.next_seq.0 < u64::MAX,
        v.submit_quote(
            now,
            id,
            maker,
            request_id,
            leg_id,
            price,
            size,
            expires_at,
        ).answer is Ok ==> v.ledger.slots.len() < u64::MAX,
    ensures
        ({
            let done = v.submit_quote(
                now,
                id,
                maker,
                request_id,
                leg_id,
                price,
                size,
                expires_at,
            );
            &&& done.venue.wf()
            &&& v.escrow_matches() ==> done.venue.escrow_matches()
        }),
{
    let done = v.submit_quote(now, id, maker, request_id, leg_id, price, size, expires_at);
    lemma_found(v, request_id);
    if done.answer is Ok {
        let i = v.find(request_id)->Some_0;
        let e = v.entries[i];
        let w = done.venue;
        let f = w.entries[i];
        let n = e.request.quotes.len() as int;
        let quote = f.request.quotes[n];
        let leg = e.request.legs[e.request.leg_index(leg_id)->Some_0];
        let lock = quote.collateral(leg);
        let owners = the_owners(v);
        assert(e.inv(v.ledger.slots, owners, i, v.config, v.next_seq));
        let new_owners = owners.push(Owner::Quote(i, n));
        laws::lemma_reserve_wf(v.ledger, maker, lock);
        let slots = w.ledger.slots;
        assert(slots =~= v.ledger.slots.push(Slot::Reserved(Hold { party: maker, amount: lock })));
        assert(soundness::touches_only(v.ledger.slots, owners, slots, new_owners, i));
        assert(f.request.legs == e.request.legs);
        assert(f.shaped(w.next_seq)) by {
            assert forall|j: int| 0 <= j < f.request.quotes.len() implies {
                &&& (#[trigger] f.request.quotes[j]).price.in_range()
                &&& f.request.leg_index(f.request.quotes[j].leg_id) is Some
                &&& soundness::states_agree(f.request.state, f.request.quotes[j].state)
            } by {
                if j < n {
                    assert(f.request.quotes[j] == e.request.quotes[j]);
                    assert(soundness::states_agree(e.request.state, e.request.quotes[j].state));
                }
            }
            assert forall|a: int, b: int| 0 <= a < b < f.request.quotes.len() implies (
            #[trigger] f.request.quotes[a]).id != (#[trigger] f.request.quotes[b]).id by {
                lemma_quote_id_fresh(v, id, i, a);
                if b < n {
                    assert(e.request.quotes[a].id != e.request.quotes[b].id);
                }
            }
            assert forall|a: int, b: int| 0 <= a < b < f.request.quotes.len() implies (
            #[trigger] f.request.quotes[a]).seq.0 < (#[trigger] f.request.quotes[b]).seq.0 by {
                if b < n {
                    assert(e.request.quotes[a].seq.0 < e.request.quotes[b].seq.0);
                } else {
                    assert(e.request.quotes[a].seq.0 < v.next_seq.0);
                }
            }
            assert forall|a: int| 0 <= a < f.request.quotes.len() implies (
            #[trigger] f.request.quotes[a]).seq.0 < w.next_seq.0 by {
                if a < n {
                    assert(e.request.quotes[a].seq.0 < v.next_seq.0);
                }
            }
        }
        assert(f.backed(slots, new_owners, i)) by {
            assert forall|j: int| 0 <= j < f.request.quotes.len() implies {
                &&& (#[trigger] f.reservations[j]) is Some
                    <==> f.request.quotes[j].holds_collateral()
                &&& f.reservations[j] matches Some(r) ==> f.collateral_held(
                    slots,
                    new_owners,
                    i,
                    j,
                    r,
                )
            } by {
                if j < n {
                    assert(e.reservations[j] is Some
                        <==> e.request.quotes[j].holds_collateral());
                    if let Some(r) = e.reservations[j] {
                        assert(e.collateral_held(v.ledger.slots, owners, i, j, r));
                        assert(f.quote_leg(j) == e.quote_leg(j));
                    }
                } else {
                    assert(f.quote_leg(n) == leg);
                }
            }
        }
        assert(f.leakless(slots, new_owners, i)) by {
            assert forall|r: int| 0 <= r < slots.len() implies match #[trigger] new_owners[r] {
                Owner::Nobody => true,
                Owner::Quote(kk, j) => kk == i && slots[r] !is Spent ==> {
                    &&& 0 <= j < f.reservations.len()
                    &&& f.reservations[j] is Some
                    &&& f.reservations[j]->Some_0.0 == r
                },
                Owner::Buyer(kk, j) => kk == i && slots[r] !is Spent ==> {
                    &&& 0 <= j < f.handles.len()
                    &&& f.handles[j].yes_buyer.0 == r
                },
                Owner::Seller(kk, j) => kk == i && slots[r] !is Spent ==> {
                    &&& 0 <= j < f.handles.len()
                    &&& f.handles[j].yes_seller.0 == r
                },
            } by {
                if r < owners.len() {
                    assert(new_owners[r] == owners[r]);
                    assert(slots[r] == v.ledger.slots[r]);
                }
            }
        }
        assert(w.quotes_disjoint()) by {
            assert forall|x: int, y: int, a: int, b: int|
                0 <= x < y < w.entries.len() && 0 <= a < w.entries[x].request.quotes.len() && 0
                    <= b < w.entries[y].request.quotes.len() implies (
            #[trigger] w.entries[x].request.quotes[a]).id != (
            #[trigger] w.entries[y].request.quotes[b]).id by {
                if x == i && a == n {
                    assert(w.entries[y] == v.entries[y]);
                    lemma_quote_id_fresh(v, id, y, b);
                } else if y == i && b == n {
                    assert(w.entries[x] == v.entries[x]);
                    lemma_quote_id_fresh(v, id, x, a);
                } else {
                    assert(w.entries[x].request.quotes[a] == v.entries[x].request.quotes[a]);
                    assert(w.entries[y].request.quotes[b] == v.entries[y].request.quotes[b]);
                    assert(v.entries[x].request.quotes[a].id != v.entries[y].request.quotes[b].id);
                }
            }
        }
        assert(w.entries =~= v.entries.update(i, w.entries[i]));
        soundness::lemma_step(v, owners, w, new_owners, i);
        let due = |e: EntryModel| e.escrow_due();
        seqs::lemma_sum_differs_at(v.entries, due, w.entries, due, i);
    }
}

/// What is known of the `i`-th request of a sound venue.
pub proof fn lemma_entry_sound(v: EngineModel, i: int)
    requires
        v.wf(),
        0 <= i < v.entries.len(),
    ensures
        v.entries[i].shaped(v.next_seq),
        v.entries[i].state_ok(v.config),
{
    let owners = the_owners(v);
    assert(v.entries[i].inv(v.ledger.slots, owners, i, v.config, v.next_seq));
}

/// The package of a presented request names its legs and quotes, and their collateral is there.
pub proof fn lemma_plan_ready(v: EngineModel, i: int)
    requires
        v.wf(),
        0 <= i < v.entries.len(),
        v.entries[i].request.state is Presented,
    ensures
        ({
            let e = v.entries[i];
            &&& e.request.package is Some
            &&& e.request.package->Some_0.len() == e.request.legs.len()
            &&& forall|l: int|
                0 <= l < e.request.package->Some_0.len() ==> {
                    let selection = #[trigger] e.request.package->Some_0[l];
                    &&& e.request.leg_index(selection.leg_id) is Some
                    &&& e.request.quote_index(selection.quote_id) is Some
                    &&& e.reservations[e.selected_quote(l)] is Some
                }
        }),
{
    let owners = the_owners(v);
    let e = v.entries[i];
    assert(e.inv(v.ledger.slots, owners, i, v.config, v.next_seq));
    assert forall|l: int| 0 <= l < e.request.package->Some_0.len() implies {
        let selection = #[trigger] e.request.package->Some_0[l];
        &&& e.request.leg_index(selection.leg_id) is Some
        &&& e.request.quote_index(selection.quote_id) is Some
        &&& e.reservations[e.selected_quote(l)] is Some
    } by {
        transitions::lemma_selection(e, v.ledger.slots, owners, i, v.config, v.next_seq, l);
    }
}

/// A package is only ever refused for want of the requester's funds.
pub proof fn lemma_plan_refused_for_funds(v: EngineModel, i: int)
    requires
        v.wf(),
        0 <= i < v.entries.len(),
        v.entries[i].request.state is Presented,
    ensures
        v.ledger.batch_error(v.entries[i].planned_items()) matches Some(error) ==> error
            is InsufficientFunds || !v.entries[i].traceable(),
{
    let owners = the_owners(v);
    let e = v.entries[i];
    assert(e.inv(v.ledger.slots, owners, i, v.config, v.next_seq));
    transitions::lemma_plan_refusal(e, v.ledger, owners, i, v.config, v.next_seq);
}

/// Where the clock can move all requests on, it can move the first ones on.
pub proof fn lemma_tick_prefix(v: EngineModel, now: Timestamp, k: int, n: int)
    requires
        0 <= k <= n,
        v.tick_first(now, n) is Some,
    ensures
        v.tick_first(now, k) is Some,
    decreases n,
{
    if k < n {
        lemma_tick_prefix(v, now, k, n - 1);
    }
}

/// Crediting a party concerns no request.
pub proof fn lemma_credit_wf(v: EngineModel, party: PartyId, amount: Amount)
    requires
        v.wf(),
    ensures
        ({
            let w = EngineModel { ledger: v.ledger.credit(party, amount), ..v };
            &&& w.wf()
            &&& v.escrow_matches() ==> w.escrow_matches()
        }),
{
    let owners = the_owners(v);
    let w = EngineModel { ledger: v.ledger.credit(party, amount), ..v };
    laws::lemma_credit_wf(v.ledger, party, amount);
    assert(w.owned(owners));
}

} // verus!
