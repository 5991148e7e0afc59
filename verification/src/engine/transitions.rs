//! Every command keeps what holds of the venue.
use vstd::prelude::*;
use crate::domain::ids::SeqNo;
use crate::domain::request;
use crate::domain::request::{Escrow, Leg, Quote, RequestModel};
use crate::domain::state::{FailReason, OracleOutcome};
use crate::engine::model::{EngineConfig, EntryModel, LegEscrow, Scope};
use crate::engine::soundness::Owner;
use crate::engine::{model, soundness};
use crate::ledger::{LedgerModel, LockItem, ReservationId, Slot};
use crate::ledger::laws;
use crate::time::Timestamp;
use crate::{ledger, seqs};

verus! {

/// Whether everything to be let go is reserved under handles of the `k`-th request.
pub open spec fn scope_backed(
    e: EntryModel,
    slots: Seq<Slot>,
    owners: Seq<Owner>,
    k: int,
    scope: Scope,
) -> bool {
    &&& e.reservations.len() == e.request.quotes.len()
    &&& owners.len() == slots.len()
    &&& forall|i: int|
        0 <= i < e.request.quotes.len() && #[trigger] e.lets_go(scope, i) ==> {
            &&& e.reservations[i] is Some
            &&& e.reservations[i]->Some_0.0 < slots.len()
            &&& slots[e.reservations[i]->Some_0.0 as int] is Reserved
            &&& owners[e.reservations[i]->Some_0.0 as int] == Owner::Quote(k, i)
        }
}

/// Whether the handle `r` is the collateral of one of the first `n` quotes, and is let go.
pub open spec fn let_go(
    e: EntryModel,
    owners: Seq<Owner>,
    k: int,
    scope: Scope,
    n: int,
    r: int,
) -> bool {
    match owners[r] {
        Owner::Quote(kk, i) => {
            &&& kk == k
            &&& 0 <= i < n
            &&& e.lets_go(scope, i)
            &&& e.reservations[i] is Some
            &&& e.reservations[i]->Some_0.0 == r
        },
        _ => false,
    }
}

/// Releasing quotes spends their handles and nothing else.
pub proof fn lemma_release_holds(
    e: EntryModel,
    m: LedgerModel,
    owners: Seq<Owner>,
    k: int,
    scope: Scope,
    n: int,
)
    requires
        m.wf(),
        scope_backed(e, m.slots, owners, k, scope),
        0 <= n <= e.request.quotes.len(),
    ensures
        ({
            let after = e.release_holds(m, scope, n);
            &&& after.wf()
            &&& after.slots.len() == m.slots.len()
            &&& forall|r: int|
                0 <= r < m.slots.len() ==> #[trigger] after.slots[r] == if let_go(
                    e,
                    owners,
                    k,
                    scope,
                    n,
                    r,
                ) {
                    Slot::Spent
                } else {
                    m.slots[r]
                }
            &&& after.escrowed_total() == m.escrowed_total()
        }),
    decreases n,
{
    if n > 0 {
        lemma_release_holds(e, m, owners, k, scope, n - 1);
        let rest = e.release_holds(m, scope, n - 1);
        let after = e.release_holds(m, scope, n);
        if e.lets_go(scope, n - 1) {
            let id = e.reservations[n - 1]->Some_0;
            assert(rest.slots[id.0 as int] == m.slots[id.0 as int]);
            laws::lemma_release_wf(rest, id);
            assert forall|r: int| 0 <= r < m.slots.len() implies #[trigger] after.slots[r]
                == if let_go(e, owners, k, scope, n, r) {
                Slot::Spent
            } else {
                m.slots[r]
            } by {
                assert(rest.slots[r] == if let_go(e, owners, k, scope, n - 1, r) {
                    Slot::Spent
                } else {
                    m.slots[r]
                });
            }
        } else {
            assert(after == rest);
            assert forall|r: int| 0 <= r < m.slots.len() implies #[trigger] after.slots[r]
                == if let_go(e, owners, k, scope, n, r) {
                Slot::Spent
            } else {
                m.slots[r]
            } by {
                assert(rest.slots[r] == if let_go(e, owners, k, scope, n - 1, r) {
                    Slot::Spent
                } else {
                    m.slots[r]
                });
            }
        }
    }
}

/// A backed entry is backed in every scope.
pub proof fn lemma_backed_in_scope(
    e: EntryModel,
    slots: Seq<Slot>,
    owners: Seq<Owner>,
    k: int,
    config: EngineConfig,
    next: SeqNo,
    scope: Scope,
)
    requires
        e.inv(slots, owners, k, config, next),
        owners.len() == slots.len(),
    ensures
        scope_backed(e, slots, owners, k, scope),
{
    assert forall|i: int|
        0 <= i < e.request.quotes.len() && #[trigger] e.lets_go(scope, i) implies {
        &&& e.reservations[i] is Some
        &&& e.reservations[i]->Some_0.0 < slots.len()
        &&& slots[e.reservations[i]->Some_0.0 as int] is Reserved
        &&& owners[e.reservations[i]->Some_0.0 as int] == Owner::Quote(k, i)
    } by {
        assert(e.reservations[i] is Some);
    }
}

/// Letting quotes go keeps the invariant of an open request, and of one that fails.
pub proof fn lemma_release_entry(
    e: EntryModel,
    m: LedgerModel,
    owners: Seq<Owner>,
    k: int,
    config: EngineConfig,
    next: SeqNo,
    scope: Scope,
)
    requires
        m.wf(),
        e.inv(m.slots, owners, k, config, next),
        owners.len() == m.slots.len(),
        e.request.state is Open || e.request.state is Presented,
    ensures
        ({
            let ledger = e.release_all_holds(m, scope);
            let released = e.release(scope);
            &&& ledger.wf()
            &&& soundness::touches_only(m.slots, owners, ledger.slots, owners, k)
            &&& released.backed(ledger.slots, owners, k)
            &&& released.leakless(ledger.slots, owners, k)
            &&& e.request.state is Open ==> released.inv(ledger.slots, owners, k, config, next)
            &&& ledger.escrowed_total() == m.escrowed_total()
            &&& scope is All ==> forall|i: int|
                0 <= i < released.request.quotes.len() ==> (
                #[trigger] released.request.quotes[i]).state is Released
        }),
{
    let n = e.request.quotes.len() as int;
    let after = e.release_all_holds(m, scope);
    let released = e.release(scope);
    lemma_backed_in_scope(e, m.slots, owners, k, config, next, scope);
    lemma_release_holds(e, m, owners, k, scope, n);
    assert forall|i: int| 0 <= i < released.request.quotes.len() implies {
        &&& (#[trigger] released.reservations[i]) is Some
            <==> released.request.quotes[i].holds_collateral()
        &&& released.reservations[i] matches Some(id) ==> released.collateral_held(
            after.slots,
            owners,
            k,
            i,
            id,
        )
    } by {
        assert(e.reservations[i] is Some <==> e.request.quotes[i].holds_collateral());
        if let Some(id) = released.reservations[i] {
            assert(e.collateral_held(m.slots, owners, k, i, id));
            assert(after.slots[id.0 as int] == m.slots[id.0 as int]);
        }
    }
    assert forall|r: int| 0 <= r < after.slots.len() implies match #[trigger] owners[r] {
        Owner::Nobody => true,
        Owner::Quote(kk, i) => kk == k && after.slots[r] !is Spent ==> {
            &&& 0 <= i < released.reservations.len()
            &&& released.reservations[i] is Some
            &&& released.reservations[i]->Some_0.0 == r
        },
        Owner::Buyer(kk, i) => kk == k && after.slots[r] !is Spent ==> {
            &&& 0 <= i < released.handles.len()
            &&& released.handles[i].yes_buyer.0 == r
        },
        Owner::Seller(kk, i) => kk == k && after.slots[r] !is Spent ==> {
            &&& 0 <= i < released.handles.len()
            &&& released.handles[i].yes_seller.0 == r
        },
    } by {
        assert(after.slots[r] == if let_go(e, owners, k, scope, n, r) {
            Slot::Spent
        } else {
            m.slots[r]
        });
    }
    assert(soundness::touches_only(m.slots, owners, after.slots, owners, k)) by {
        assert forall|r: int| 0 <= r < m.slots.len() implies {
            &&& #[trigger] owners[r] == owners[r]
            &&& owners[r].entry() != k ==> after.slots[r] == m.slots[r]
        } by {
            assert(after.slots[r] == if let_go(e, owners, k, scope, n, r) {
                Slot::Spent
            } else {
                m.slots[r]
            });
        }
    }
    lemma_quotes_changed_in_state_only(e, released, next);
}

/// Quotes that change in nothing but their state keep what does not depend on it.
proof fn lemma_quotes_changed_in_state_only(e: EntryModel, f: EntryModel, next: SeqNo)
    requires
        e.shaped(next),
        f.request.legs == e.request.legs,
        f.reservations.len() == e.reservations.len(),
        f.request.quotes.len() == e.request.quotes.len(),
        forall|i: int|
            0 <= i < e.request.quotes.len() ==> #[trigger] f.request.quotes[i] == (Quote {
                state: f.request.quotes[i].state,
                ..e.request.quotes[i]
            }),
    ensures
        soundness::quotes_distinct(f.request.quotes),
        soundness::quotes_numbered(f.request.quotes, next),
        forall|i: int|
            0 <= i < f.request.quotes.len() ==> {
                &&& (#[trigger] f.request.quotes[i]).price.in_range()
                &&& f.request.leg_index(f.request.quotes[i].leg_id) is Some
            },
        forall|i: int|
            0 <= i < f.request.quotes.len() ==> #[trigger] f.quote_leg(i) == e.quote_leg(i),
{
    assert forall|i: int| 0 <= i < f.request.quotes.len() implies {
        &&& (#[trigger] f.request.quotes[i]).price.in_range()
        &&& f.request.leg_index(f.request.quotes[i].leg_id) is Some
    } by {
        assert(e.request.quotes[i].price.in_range());
    }
    assert forall|i: int, j: int| 0 <= i < j < f.request.quotes.len() implies (
    #[trigger] f.request.quotes[i]).id != (#[trigger] f.request.quotes[j]).id by {
        assert(e.request.quotes[i].id != e.request.quotes[j].id);
    }
    assert forall|i: int, j: int| 0 <= i < j < f.request.quotes.len() implies (
    #[trigger] f.request.quotes[i]).seq.0 < (#[trigger] f.request.quotes[j]).seq.0 by {
        assert(e.request.quotes[i].seq.0 < e.request.quotes[j].seq.0);
    }
    assert forall|i: int| 0 <= i < f.request.quotes.len() implies (
    #[trigger] f.request.quotes[i]).seq.0 < next.0 by {
        assert(e.request.quotes[i].seq.0 < next.0);
    }
}

/// A request that fails before anything is in escrow holds nothing any more.
pub proof fn lemma_fail_entry(
    e: EntryModel,
    m: LedgerModel,
    owners: Seq<Owner>,
    k: int,
    config: EngineConfig,
    next: SeqNo,
    reason: FailReason,
)
    requires
        m.wf(),
        e.inv(m.slots, owners, k, config, next),
        owners.len() == m.slots.len(),
        e.request.state is Open || e.request.state is Presented,
    ensures
        ({
            let ledger = e.release_all_holds(m, Scope::All);
            let failed = e.fail(reason);
            &&& ledger.wf()
            &&& soundness::touches_only(m.slots, owners, ledger.slots, owners, k)
            &&& failed.inv(ledger.slots, owners, k, config, next)
            &&& ledger.escrowed_total() == m.escrowed_total()
        }),
{
    lemma_release_entry(e, m, owners, k, config, next, Scope::All);
    let ledger = e.release_all_holds(m, Scope::All);
    let released = e.release(Scope::All);
    let failed = e.fail(reason);
    lemma_quotes_changed_in_state_only(e, failed, next);
    assert(failed.shaped(next)) by {
        assert forall|i: int| 0 <= i < failed.request.quotes.len() implies {
            &&& (#[trigger] failed.request.quotes[i]).price.in_range()
            &&& failed.request.leg_index(failed.request.quotes[i].leg_id) is Some
            &&& soundness::states_agree(failed.request.state, failed.request.quotes[i].state)
        } by {
            assert(released.request.quotes[i].state is Released);
        }
    }
    assert(failed.backed(ledger.slots, owners, k)) by {
        assert forall|i: int| 0 <= i < failed.request.quotes.len() implies {
            &&& (#[trigger] failed.reservations[i]) is Some
                <==> failed.request.quotes[i].holds_collateral()
            &&& failed.reservations[i] matches Some(id) ==> failed.collateral_held(
                ledger.slots,
                owners,
                k,
                i,
                id,
            )
        } by {
            assert(released.request.quotes[i].state is Released);
            assert(released.reservations[i] is Some
                <==> released.request.quotes[i].holds_collateral());
        }
    }
}

/// With distinct identifiers, each quote is found under its own.
pub proof fn lemma_quote_index(request: RequestModel, j: int)
    requires
        soundness::quotes_distinct(request.quotes),
        0 <= j < request.quotes.len(),
    ensures
        request.quote_index(request.quotes[j].id) == Some(j),
{
    let id = request.quotes[j].id;
    let named = |q: Quote| q.id == id;
    assert forall|i: int| 0 <= i < j implies !named(#[trigger] request.quotes[i]) by {
        assert(request.quotes[i].id != request.quotes[j].id);
    }
    seqs::lemma_first_is(request.quotes, named, j);
}

/// A leg is found under the identifier of each, and it is that leg itself where the identifiers
/// are distinct.
pub proof fn lemma_leg_index(request: RequestModel, j: int)
    requires
        0 <= j < request.legs.len(),
    ensures
        request.leg_index(request.legs[j].id) matches Some(i) && 0 <= i <= j && request.legs[i].id
            == request.legs[j].id,
        request::legs_distinct(request.legs) ==> request.leg_index(request.legs[j].id) == Some(j),
{
    let id = request.legs[j].id;
    let named = |l: Leg| l.id == id;
    seqs::lemma_first_exists(request.legs, named, j);
}

/// Where no leg is unmatched, each has a best quote, which is live and on that leg.
pub proof fn lemma_all_matched(e: EntryModel, now: Timestamp, accept_deadline: Timestamp)
    requires
        e.unmatched(now, accept_deadline) is None,
    ensures
        forall|i: int|
            0 <= i < e.request.legs.len() ==> {
                &&& (#[trigger] e.best(i, now, accept_deadline)) is Some
                &&& 0 <= e.best(i, now, accept_deadline)->Some_0 < e.request.quotes.len()
                &&& crate::domain::matching::unbeaten(
                    e.request.legs[i],
                    e.request.quotes,
                    now,
                    accept_deadline,
                    e.request.quotes[e.best(i, now, accept_deadline)->Some_0],
                )
            },
{
    let alone = |leg: Leg|
        crate::domain::matching::best_index(leg, e.request.quotes, now, accept_deadline) is None;
    assert forall|i: int| 0 <= i < e.request.legs.len() implies {
        &&& (#[trigger] e.best(i, now, accept_deadline)) is Some
        &&& 0 <= e.best(i, now, accept_deadline)->Some_0 < e.request.quotes.len()
        &&& crate::domain::matching::unbeaten(
            e.request.legs[i],
            e.request.quotes,
            now,
            accept_deadline,
            e.request.quotes[e.best(i, now, accept_deadline)->Some_0],
        )
    } by {
        if e.best(i, now, accept_deadline) is None {
            assert(alone(e.request.legs[i]));
            seqs::lemma_first_exists(e.request.legs, alone, i);
        }
        crate::domain::matching::law_best_is_eligible_and_unbeaten(
            e.request.legs[i],
            e.request.quotes,
            now,
            accept_deadline,
        );
    }
}

/// Presenting a package moves no funds and keeps the invariant.
pub proof fn lemma_present_entry(
    e: EntryModel,
    slots: Seq<Slot>,
    owners: Seq<Owner>,
    k: int,
    config: EngineConfig,
    next: SeqNo,
    now: Timestamp,
    accept_deadline: Timestamp,
)
    requires
        e.inv(slots, owners, k, config, next),
        e.request.state is Open,
        e.unmatched(now, accept_deadline) is None,
        accept_deadline@ <= e.request.resolves_at@,
    ensures
        e.present(now, accept_deadline).inv(slots, owners, k, config, next),
{
    let f = e.present(now, accept_deadline);
    lemma_all_matched(e, now, accept_deadline);
    lemma_quotes_changed_in_state_only(e, f, next);
    assert forall|j: int|
        0 <= j < e.request.quotes.len() && e.is_chosen(
            j,
            now,
            accept_deadline,
        ) implies (#[trigger] e.request.quotes[j]).state is Live by {
        let i = choose|i: int|
            0 <= i < e.request.legs.len() && #[trigger] e.best(i, now, accept_deadline) == Some(j);
        assert(e.best(i, now, accept_deadline) is Some);
    }
    assert(f.shaped(next)) by {
        assert forall|i: int| 0 <= i < f.request.quotes.len() implies {
            &&& (#[trigger] f.request.quotes[i]).price.in_range()
            &&& f.request.leg_index(f.request.quotes[i].leg_id) is Some
            &&& soundness::states_agree(f.request.state, f.request.quotes[i].state)
        } by {
            assert(soundness::states_agree(e.request.state, e.request.quotes[i].state));
        }
    }
    assert(f.backed(slots, owners, k)) by {
        assert forall|i: int| 0 <= i < f.request.quotes.len() implies {
            &&& (#[trigger] f.reservations[i]) is Some
                <==> f.request.quotes[i].holds_collateral()
            &&& f.reservations[i] matches Some(id) ==> f.collateral_held(slots, owners, k, i, id)
        } by {
            assert(e.reservations[i] is Some <==> e.request.quotes[i].holds_collateral());
            if e.is_chosen(i, now, accept_deadline) {
                assert(e.request.quotes[i].state is Live);
            }
            if let Some(id) = e.reservations[i] {
                assert(e.collateral_held(slots, owners, k, i, id));
                assert(f.quote_leg(i) == e.quote_leg(i));
            }
        }
    }
    let package = f.request.package->Some_0;
    assert(soundness::package_ok(f.request, package)) by {
        assert forall|i: int| 0 <= i < package.len() implies {
            &&& (#[trigger] package[i]).leg_id == f.request.legs[i].id
            &&& f.request.quote_index(package[i].quote_id) is Some
            &&& f.request.quotes[f.request.quote_index(
                package[i].quote_id,
            )->Some_0].state is Selected
            &&& f.request.quotes[f.request.quote_index(package[i].quote_id)->Some_0].leg_id
                == f.request.legs[i].id
        } by {
            assert(e.best(i, now, accept_deadline) is Some);
            let j = e.best(i, now, accept_deadline)->Some_0;
            assert(e.is_chosen(j, now, accept_deadline));
            assert(f.request.quotes[j].id == e.request.quotes[j].id);
            lemma_quote_index(f.request, j);
        }
        assert forall|j: int|
            0 <= j < f.request.quotes.len() && (
            #[trigger] f.request.quotes[j]).state is Selected implies exists|i: int|
            0 <= i < package.len() && (#[trigger] package[i]).quote_id == f.request.quotes[j].id by {
            assert(soundness::states_agree(e.request.state, e.request.quotes[j].state));
            assert(e.is_chosen(j, now, accept_deadline));
            let i = choose|i: int|
                0 <= i < e.request.legs.len() && #[trigger] e.best(i, now, accept_deadline)
                    == Some(j);
            assert(package[i].quote_id == f.request.quotes[j].id);
        }
    }
}

/// Whether the handle `r` is a chunk of one of the first `n` legs.
pub open spec fn chunk_of(
    handles: Seq<LegEscrow>,
    owners: Seq<Owner>,
    k: int,
    n: int,
    r: int,
) -> bool {
    match owners[r] {
        Owner::Buyer(kk, i) => kk == k && 0 <= i < n && handles[i].yes_buyer.0 == r,
        Owner::Seller(kk, i) => kk == k && 0 <= i < n && handles[i].yes_seller.0 == r,
        _ => false,
    }
}

/// The notionals of the first `n` legs together.
pub open spec fn notionals(escrows: Seq<Escrow>, n: int) -> int {
    seqs::sum_by(escrows.take(n), |escrow: Escrow| escrow.notional.0 as int)
}

/// What the entries of a request in escrow are known to satisfy.
pub open spec fn escrow_backed(
    e: EntryModel,
    slots: Seq<Slot>,
    owners: Seq<Owner>,
    k: int,
) -> bool {
    &&& owners.len() == slots.len()
    &&& e.escrows_ok()
    &&& e.handles.len() == e.request.escrows.len()
    &&& forall|i: int|
        0 <= i < e.handles.len() ==> {
            let handles = #[trigger] e.handles[i];
            e.chunks_held(slots, owners, k, i)
        }
}

/// Paying out legs spends their handles and nothing else, and takes their notionals out of
/// escrow.
pub proof fn lemma_pay_legs(
    e: EntryModel,
    m: LedgerModel,
    owners: Seq<Owner>,
    k: int,
    outcome: OracleOutcome,
    n: int,
)
    requires
        m.wf(),
        escrow_backed(e, m.slots, owners, k),
        0 <= n <= e.handles.len(),
    ensures
        ({
            let paid = model::pay_legs(m, e.request.escrows, e.handles, outcome, n);
            &&& paid.wf()
            &&& paid.slots.len() == m.slots.len()
            &&& forall|r: int|
                0 <= r < m.slots.len() ==> #[trigger] paid.slots[r] == if chunk_of(
                    e.handles,
                    owners,
                    k,
                    n,
                    r,
                ) {
                    Slot::Spent
                } else {
                    m.slots[r]
                }
            &&& paid.escrowed_total() == m.escrowed_total() - notionals(e.request.escrows, n)
        }),
    decreases n,
{
    if n == 0 {
        assert(e.request.escrows.take(0).len() == 0);
    } else {
        lemma_pay_legs(e, m, owners, k, outcome, n - 1);
        let escrow = e.request.escrows[n - 1];
        let handles = e.handles[n - 1];
        let to = model::winner(escrow, outcome);
        assert(e.chunks_held(m.slots, owners, k, n - 1));
        seqs::lemma_sum_take(
            e.request.escrows,
            |escrow: Escrow| escrow.notional.0 as int,
            n - 1,
        );
        let rest = model::pay_legs(m, e.request.escrows, e.handles, outcome, n - 1);
        assert(rest.slots[handles.yes_buyer.0 as int] == m.slots[handles.yes_buyer.0 as int]);
        assert(rest.slots[handles.yes_seller.0 as int] == m.slots[handles.yes_seller.0 as int]);
        let half = rest.payout(handles.yes_buyer, to);
        laws::lemma_payout_wf(rest, handles.yes_buyer, to);
        assert(half.slots =~= rest.slots.update(handles.yes_buyer.0 as int, Slot::Spent));
        let paid = half.payout(handles.yes_seller, to);
        laws::lemma_payout_wf(half, handles.yes_seller, to);
        assert(paid.slots =~= half.slots.update(handles.yes_seller.0 as int, Slot::Spent));
        assert forall|r: int| 0 <= r < m.slots.len() implies #[trigger] paid.slots[r]
            == if chunk_of(e.handles, owners, k, n, r) {
            Slot::Spent
        } else {
            m.slots[r]
        } by {
            assert(rest.slots[r] == if chunk_of(e.handles, owners, k, n - 1, r) {
                Slot::Spent
            } else {
                m.slots[r]
            });
        }
    }
}

/// Refunding legs spends their handles and nothing else, and takes their notionals out of
/// escrow.
pub proof fn lemma_refund_legs(
    e: EntryModel,
    m: LedgerModel,
    owners: Seq<Owner>,
    k: int,
    n: int,
)
    requires
        m.wf(),
        escrow_backed(e, m.slots, owners, k),
        0 <= n <= e.handles.len(),
    ensures
        ({
            let after = model::refund_legs(m, e.handles, n);
            &&& after.wf()
            &&& after.slots.len() == m.slots.len()
            &&& forall|r: int|
                0 <= r < m.slots.len() ==> #[trigger] after.slots[r] == if chunk_of(
                    e.handles,
                    owners,
                    k,
                    n,
                    r,
                ) {
                    Slot::Spent
                } else {
                    m.slots[r]
                }
            &&& after.escrowed_total() == m.escrowed_total() - notionals(e.request.escrows, n)
        }),
    decreases n,
{
    if n == 0 {
        assert(e.request.escrows.take(0).len() == 0);
    } else {
        lemma_refund_legs(e, m, owners, k, n - 1);
        let handles = e.handles[n - 1];
        assert(e.chunks_held(m.slots, owners, k, n - 1));
        seqs::lemma_sum_take(
            e.request.escrows,
            |escrow: Escrow| escrow.notional.0 as int,
            n - 1,
        );
        let rest = model::refund_legs(m, e.handles, n - 1);
        assert(rest.slots[handles.yes_buyer.0 as int] == m.slots[handles.yes_buyer.0 as int]);
        assert(rest.slots[handles.yes_seller.0 as int] == m.slots[handles.yes_seller.0 as int]);
        let half = rest.refund(handles.yes_buyer);
        let after = half.refund(handles.yes_seller);
        laws::lemma_refund_wf(rest, handles.yes_buyer);
        laws::lemma_refund_wf(half, handles.yes_seller);
        assert forall|r: int| 0 <= r < m.slots.len() implies #[trigger] after.slots[r]
            == if chunk_of(e.handles, owners, k, n, r) {
            Slot::Spent
        } else {
            m.slots[r]
        } by {
            assert(rest.slots[r] == if chunk_of(e.handles, owners, k, n - 1, r) {
                Slot::Spent
            } else {
                m.slots[r]
            });
        }
    }
}

/// A request in escrow whose handles are all spent, and which then is in a final state, holds
/// nothing.
proof fn lemma_emptied_entry(
    e: EntryModel,
    f: EntryModel,
    slots: Seq<Slot>,
    after: Seq<Slot>,
    owners: Seq<Owner>,
    k: int,
    config: EngineConfig,
    next: SeqNo,
)
    requires
        e.inv(slots, owners, k, config, next),
        e.in_escrow(),
        owners.len() == slots.len(),
        f.request == (RequestModel { state: f.request.state, ..e.request }),
        f.request.state is Settled || f.request.state is Unwound,
        f.reservations == e.reservations,
        f.handles.len() == 0,
        after.len() == slots.len(),
        forall|r: int|
            0 <= r < slots.len() ==> #[trigger] after[r] == if chunk_of(
                e.handles,
                owners,
                k,
                e.handles.len() as int,
                r,
            ) {
                Slot::Spent
            } else {
                slots[r]
            },
    ensures
        f.inv(after, owners, k, config, next),
        soundness::touches_only(slots, owners, after, owners, k),
{
    lemma_same_backing(e, f);
    assert forall|i: int| 0 <= i < e.request.quotes.len() implies (#[trigger] f.reservations[i])
        is None by {
        assert(soundness::states_agree(e.request.state, e.request.quotes[i].state));
        assert(e.reservations[i] is Some <==> e.request.quotes[i].holds_collateral());
    }
    assert(f.shaped(next)) by {
        assert forall|i: int| 0 <= i < f.request.quotes.len() implies {
            &&& (#[trigger] f.request.quotes[i]).price.in_range()
            &&& f.request.leg_index(f.request.quotes[i].leg_id) is Some
            &&& soundness::states_agree(f.request.state, f.request.quotes[i].state)
        } by {
            assert(soundness::states_agree(e.request.state, e.request.quotes[i].state));
            assert(f.request.leg_index(f.request.quotes[i].leg_id) == e.request.leg_index(
                e.request.quotes[i].leg_id,
            ));
        }
    }
    assert(f.backed(after, owners, k)) by {
        assert forall|i: int| 0 <= i < f.request.quotes.len() implies {
            &&& (#[trigger] f.reservations[i]) is Some
                <==> f.request.quotes[i].holds_collateral()
            &&& f.reservations[i] matches Some(id) ==> f.collateral_held(after, owners, k, i, id)
        } by {
            assert(soundness::states_agree(e.request.state, e.request.quotes[i].state));
        }
    }
    assert(f.leakless(after, owners, k)) by {
        assert forall|r: int| 0 <= r < after.len() implies match #[trigger] owners[r] {
            Owner::Nobody => true,
            Owner::Quote(kk, i) => kk == k && after[r] !is Spent ==> {
                &&& 0 <= i < f.reservations.len()
                &&& f.reservations[i] is Some
                &&& f.reservations[i]->Some_0.0 == r
            },
            Owner::Buyer(kk, i) => kk == k && after[r] !is Spent ==> {
                &&& 0 <= i < f.handles.len()
                &&& f.handles[i].yes_buyer.0 == r
            },
            Owner::Seller(kk, i) => kk == k && after[r] !is Spent ==> {
                &&& 0 <= i < f.handles.len()
                &&& f.handles[i].yes_seller.0 == r
            },
        } by {
            assert(after[r] == if chunk_of(e.handles, owners, k, e.handles.len() as int, r) {
                Slot::Spent
            } else {
                slots[r]
            });
        }
    }
    assert(soundness::touches_only(slots, owners, after, owners, k)) by {
        assert forall|r: int| 0 <= r < slots.len() implies {
            &&& #[trigger] owners[r] == owners[r]
            &&& owners[r].entry() != k ==> after[r] == slots[r]
        } by {
            assert(after[r] == if chunk_of(e.handles, owners, k, e.handles.len() as int, r) {
                Slot::Spent
            } else {
                slots[r]
            });
        }
    }
}

/// A settled request holds nothing, and its notionals are out of escrow.
pub proof fn lemma_settle_entry(
    e: EntryModel,
    m: LedgerModel,
    owners: Seq<Owner>,
    k: int,
    config: EngineConfig,
    next: SeqNo,
    outcome: OracleOutcome,
)
    requires
        m.wf(),
        e.inv(m.slots, owners, k, config, next),
        owners.len() == m.slots.len(),
        e.in_escrow(),
    ensures
        ({
            let ledger = e.settle_holds(m, outcome);
            &&& ledger.wf()
            &&& soundness::touches_only(m.slots, owners, ledger.slots, owners, k)
            &&& e.settle().inv(ledger.slots, owners, k, config, next)
            &&& ledger.escrowed_total() == m.escrowed_total() - e.escrow_due()
        }),
{
    let n = e.request.escrows.len() as int;
    lemma_pay_legs(e, m, owners, k, outcome, n);
    assert(e.request.escrows.take(n) =~= e.request.escrows);
    let ledger = e.settle_holds(m, outcome);
    lemma_emptied_entry(e, e.settle(), m.slots, ledger.slots, owners, k, config, next);
}

/// An unwound request holds nothing, and its notionals are out of escrow.
pub proof fn lemma_unwind_entry(
    e: EntryModel,
    m: LedgerModel,
    owners: Seq<Owner>,
    k: int,
    config: EngineConfig,
    next: SeqNo,
)
    requires
        m.wf(),
        e.inv(m.slots, owners, k, config, next),
        owners.len() == m.slots.len(),
        e.in_escrow(),
    ensures
        ({
            let ledger = e.unwind_holds(m);
            &&& ledger.wf()
            &&& soundness::touches_only(m.slots, owners, ledger.slots, owners, k)
            &&& e.unwind().inv(ledger.slots, owners, k, config, next)
            &&& ledger.escrowed_total() == m.escrowed_total() - e.escrow_due()
        }),
{
    let n = e.request.escrows.len() as int;
    lemma_refund_legs(e, m, owners, k, n);
    assert(e.request.escrows.take(n) =~= e.request.escrows);
    let ledger = e.unwind_holds(m);
    lemma_emptied_entry(e, e.unwind(), m.slots, ledger.slots, owners, k, config, next);
}

/// The `i`-th selection of a package is the leg with the identifier of the `i`-th one and a
/// selected quote on it, with the maker's side of the escrow reserved.
pub proof fn lemma_selection(
    e: EntryModel,
    slots: Seq<Slot>,
    owners: Seq<Owner>,
    k: int,
    config: EngineConfig,
    next: SeqNo,
    i: int,
)
    requires
        e.inv(slots, owners, k, config, next),
        e.request.state is Presented,
        0 <= i < e.request.legs.len(),
    ensures
        ({
            let j = e.selected_quote(i);
            let quote = e.request.quotes[j];
            let leg = e.named_leg(i);
            let escrow = e.planned_escrows()[i];
            &&& e.request.package is Some
            &&& e.request.package->Some_0.len() == e.request.legs.len()
            &&& e.request.leg_index(e.request.package->Some_0[i].leg_id) == Some(
                e.selected_leg(i),
            )
            &&& e.request.quote_index(e.request.package->Some_0[i].quote_id) == Some(j)
            &&& 0 <= e.selected_leg(i) <= i
            &&& e.request.legs[e.selected_leg(i)] == leg
            &&& leg.id == e.request.legs[i].id
            &&& e.traceable() ==> e.selected_leg(i) == i
            &&& 0 <= j < e.request.quotes.len()
            &&& quote.state is Selected
            &&& quote.leg_id == leg.id
            &&& e.reservations[j] is Some
            &&& e.collateral_held(slots, owners, k, j, e.reservations[j]->Some_0)
            &&& e.quote_leg(j) == leg
            &&& escrow == Escrow::of(leg, quote.price, e.request.requester, quote.maker)
            &&& escrow.yes_buyer_amount.0 + escrow.yes_seller_amount.0 == leg.notional.0
        }),
{
    let package = e.request.package->Some_0;
    assert(package[i].leg_id == e.request.legs[i].id);
    lemma_leg_index(e.request, i);
    seqs::lemma_first_some(e.request.quotes, |q: Quote| q.id == package[i].quote_id);
    let j = e.selected_quote(i);
    assert(e.request.quotes[j].state is Selected);
    assert(e.reservations[j] is Some);
    crate::domain::money::law_locks_make_the_notional(
        e.request.quotes[j].price,
        e.named_leg(i).notional,
    );
}

/// Legs with different identifiers have different quotes selected, so no reservation comes twice.
proof fn lemma_selections_differ(
    e: EntryModel,
    slots: Seq<Slot>,
    owners: Seq<Owner>,
    k: int,
    config: EngineConfig,
    next: SeqNo,
    i: int,
    j: int,
)
    requires
        e.inv(slots, owners, k, config, next),
        e.request.state is Presented,
        0 <= i < j < e.request.legs.len(),
        e.traceable(),
    ensures
        e.selected_quote(i) != e.selected_quote(j),
        e.reservations[e.selected_quote(i)] != e.reservations[e.selected_quote(j)],
{
    lemma_selection(e, slots, owners, k, config, next, i);
    lemma_selection(e, slots, owners, k, config, next, j);
    assert(e.request.legs[i].id != e.request.legs[j].id);
}

/// The batch of a package can only fail for want of the requester's funds, or because one quote is
/// selected for two legs with one identifier.
pub proof fn lemma_plan_refusal(
    e: EntryModel,
    m: LedgerModel,
    owners: Seq<Owner>,
    k: int,
    config: EngineConfig,
    next: SeqNo,
)
    requires
        e.inv(m.slots, owners, k, config, next),
        e.request.state is Presented,
    ensures
        m.batch_error(e.planned_items()) matches Some(error) ==> {
            ||| error is InsufficientFunds && error->InsufficientFunds_0.party
                == e.request.requester
            ||| error is UnknownReservation && !e.traceable()
        },
{
    let items = e.planned_items();
    laws::law_batch_error_is_the_first(m, items);
    if m.batch_error(items) is Some {
        let j = choose|j: int|
            {
                &&& 0 <= j < items.len()
                &&& #[trigger] m.item_error(items, j) == m.batch_error(items)
                &&& forall|i: int| 0 <= i < j ==> (#[trigger] m.item_error(items, i)) is None
            };
        let i = j / 2;
        lemma_selection(e, m.slots, owners, k, config, next, i);
        if j % 2 == 0 {
            let id = e.reservations[e.selected_quote(i)]->Some_0;
            assert(items[j] == LockItem::FromReservation(id));
            assert(m.reservation(id) is Some);
            if exists|h: int| 0 <= h < j && items[h] == LockItem::FromReservation(id) {
                let h = choose|h: int| 0 <= h < j && items[h] == LockItem::FromReservation(id);
                assert(h % 2 == 0);
                if e.traceable() {
                    lemma_selections_differ(e, m.slots, owners, k, config, next, h / 2, i);
                }
                lemma_selection(e, m.slots, owners, k, config, next, h / 2);
            }
        }
    }
}

/// What the first `2 * n` items of the batch of a package hold is the notionals of its first
/// `n` legs.
proof fn lemma_plan_sum(
    e: EntryModel,
    m: LedgerModel,
    owners: Seq<Owner>,
    k: int,
    config: EngineConfig,
    next: SeqNo,
    n: int,
)
    requires
        e.inv(m.slots, owners, k, config, next),
        e.request.state is Presented,
        0 <= n <= e.request.legs.len(),
    ensures
        seqs::sum_by(
            e.planned_items().take(2 * n),
            |item: LockItem| laws::item_hold(m, item).amount.0 as int,
        ) == notionals(e.planned_escrows(), n),
    decreases n,
{
    let items = e.planned_items();
    let escrows = e.planned_escrows();
    let f = |item: LockItem| laws::item_hold(m, item).amount.0 as int;
    let g = |escrow: Escrow| escrow.notional.0 as int;
    lemma_selection(e, m.slots, owners, k, config, next, 0);
    if n == 0 {
        assert(items.take(0).len() == 0);
        assert(escrows.take(0).len() == 0);
    } else {
        let i = n - 1;
        lemma_plan_sum(e, m, owners, k, config, next, i);
        lemma_selection(e, m.slots, owners, k, config, next, i);
        seqs::lemma_sum_take(items, f, 2 * i);
        seqs::lemma_sum_take(items, f, 2 * i + 1);
        seqs::lemma_sum_take(escrows, g, i);
        let j = e.selected_quote(i);
        assert((2 * i) / 2 == i && (2 * i) % 2 == 0);
        assert((2 * i + 1) / 2 == i && (2 * i + 1) % 2 == 1);
        assert(items[2 * i] == LockItem::FromReservation(e.reservations[j]->Some_0));
        assert(items[2 * i + 1] == (LockItem::FromFree {
            party: e.request.requester,
            amount: e.requester_lock(i),
        }));
        crate::domain::request::law_collateral_is_the_makers_side(
            e.request.quotes[j],
            e.named_leg(i),
            e.request.requester,
        );
    }
}

/// What the handles of the batch of a package are held for.
pub open spec fn batch_owners(e: EntryModel, k: int) -> Seq<Owner> {
    Seq::new(
        e.planned_items().len(),
        |j: int|
            if e.named_leg(j / 2).side.long_yes() == (j % 2 == 1) {
                Owner::Buyer(k, j / 2)
            } else {
                Owner::Seller(k, j / 2)
            },
    )
}

/// Whether the batch of a package uses up the handle `r`: it is the collateral of a selected
/// quote.
pub open spec fn used_up(
    e: EntryModel,
    slots: Seq<Slot>,
    owners: Seq<Owner>,
    k: int,
    r: int,
) -> bool {
    match owners[r] {
        Owner::Quote(kk, i) => kk == k && slots[r] is Reserved
            && e.request.quotes[i].state is Selected,
        _ => false,
    }
}

/// The reservations in the batch of a package are those of the selected quotes.
proof fn lemma_plan_reservations(
    e: EntryModel,
    slots: Seq<Slot>,
    owners: Seq<Owner>,
    k: int,
    config: EngineConfig,
    next: SeqNo,
    r: int,
)
    requires
        e.inv(slots, owners, k, config, next),
        owners.len() == slots.len(),
        e.request.state is Presented,
        0 <= r < slots.len(),
    ensures
        used_up(e, slots, owners, k, r) <==> (exists|j: int|
            0 <= j < e.planned_items().len() && e.planned_items()[j] == LockItem::FromReservation(
                ReservationId(r as u64),
            )) && r <= u64::MAX,
{
    let items = e.planned_items();
    let id = ReservationId(r as u64);
    lemma_selection(e, slots, owners, k, config, next, 0);
    if r <= u64::MAX && exists|j: int|
        0 <= j < items.len() && items[j] == LockItem::FromReservation(id) {
        let j = choose|j: int| 0 <= j < items.len() && items[j] == LockItem::FromReservation(id);
        assert(j % 2 == 0);
        lemma_selection(e, slots, owners, k, config, next, j / 2);
        assert(owners[r] == Owner::Quote(k, e.selected_quote(j / 2)));
    }
    if used_up(e, slots, owners, k, r) {
        let i = owners[r]->Quote_1;
        assert(e.reservations[i] is Some && e.reservations[i]->Some_0.0 == r);
        let package = e.request.package->Some_0;
        let l = choose|l: int|
            0 <= l < package.len() && (#[trigger] package[l]).quote_id == e.request.quotes[i].id;
        lemma_quote_index(e.request, i);
        assert(e.selected_quote(l) == i);
        assert((2 * l) / 2 == l && (2 * l) % 2 == 0);
        assert(items[2 * l] == LockItem::FromReservation(id));
    }
}

/// The batch of a package spends the reservations of the selected quotes and puts both chunks of
/// every leg into escrow.
#[verifier::spinoff_prover]
pub proof fn lemma_plan_slots(
    e: EntryModel,
    m: LedgerModel,
    owners: Seq<Owner>,
    k: int,
    config: EngineConfig,
    next: SeqNo,
)
    requires
        m.wf(),
        e.inv(m.slots, owners, k, config, next),
        owners.len() == m.slots.len(),
        e.request.state is Presented,
        m.batch_error(e.planned_items()) is None,
    ensures
        ({
            let items = e.planned_items();
            let locked = m.lock_batch(items);
            &&& locked.wf()
            &&& locked.slots.len() == m.slots.len() + items.len()
            &&& items.len() == 2 * e.request.legs.len()
            &&& locked.escrowed_total() == m.escrowed_total() + notionals(
                e.planned_escrows(),
                e.request.legs.len() as int,
            )
            &&& forall|r: int|
                0 <= r < m.slots.len() ==> #[trigger] locked.slots[r] == if used_up(
                    e,
                    m.slots,
                    owners,
                    k,
                    r,
                ) {
                    Slot::Spent
                } else {
                    m.slots[r]
                }
            &&& forall|j: int|
                0 <= j < items.len() ==> #[trigger] locked.slots[m.slots.len() + j]
                    == Slot::Escrowed(laws::item_hold(m, items[j]))
        }),
{
    let items = e.planned_items();
    let n = e.request.legs.len() as int;
    let base = m.counted();
    assert(items.len() == 2 * n) by {
        lemma_selection(e, m.slots, owners, k, config, next, 0);
    }
    laws::lemma_counted(m, items);
    laws::lemma_lock_items(base, items, items.len() as int);
    laws::lemma_lock_items_holds(base, items, items.len() as int);
    let locked = m.lock_batch(items);
    assert(locked.escrowed_total() == m.escrowed_total() + notionals(e.planned_escrows(), n)) by {
        assert(items.take(items.len() as int) =~= items);
        assert(items.take(2 * n) =~= items);
        lemma_plan_sum(e, m, owners, k, config, next, n);
        let f = |item: LockItem| laws::item_hold(base, item).amount.0 as int;
        let g = |item: LockItem| laws::item_hold(m, item).amount.0 as int;
        seqs::lemma_sum_same(items, f, items, g);
    }
    assert forall|r: int| 0 <= r < m.slots.len() implies #[trigger] locked.slots[r] == if used_up(
        e,
        m.slots,
        owners,
        k,
        r,
    ) {
        Slot::Spent
    } else {
        m.slots[r]
    } by {
        lemma_plan_reservations(e, m.slots, owners, k, config, next, r);
    }
    assert forall|j: int| 0 <= j < items.len() implies #[trigger] locked.slots[m.slots.len() + j]
        == Slot::Escrowed(laws::item_hold(m, items[j])) by {
        assert(locked.slots[base.slots.len() + j] == Slot::Escrowed(
            laws::item_hold(base, items[j]),
        ));
    }
}

/// After an accepted package, every handle that was held for the request is spent, and the new
/// ones are the two chunks of each leg.
#[verifier::spinoff_prover]
proof fn lemma_lock_slots(
    e: EntryModel,
    m: LedgerModel,
    owners: Seq<Owner>,
    k: int,
    config: EngineConfig,
    next: SeqNo,
)
    requires
        m.wf(),
        e.inv(m.slots, owners, k, config, next),
        owners.len() == m.slots.len(),
        e.request.state is Presented,
        m.batch_error(e.planned_items()) is None,
        0 <= k,
    ensures
        ({
            let items = e.planned_items();
            let ledger = e.release_all_holds(m.lock_batch(items), Scope::Losing);
            let new_owners = owners + batch_owners(e, k);
            &&& ledger.wf()
            &&& items.len() == 2 * e.request.legs.len()
            &&& ledger.slots.len() == m.slots.len() + items.len()
            &&& new_owners.len() == ledger.slots.len()
            &&& ledger.escrowed_total() == m.escrowed_total() + notionals(
                e.planned_escrows(),
                e.request.legs.len() as int,
            )
            &&& forall|r: int|
                0 <= r < m.slots.len() ==> {
                    &&& #[trigger] new_owners[r] == owners[r]
                    &&& owners[r].entry() != k ==> ledger.slots[r] == m.slots[r]
                    &&& owners[r].entry() == k ==> ledger.slots[r] is Spent
                }
            &&& forall|j: int|
                0 <= j < items.len() ==> {
                    &&& #[trigger] ledger.slots[m.slots.len() + j] == Slot::Escrowed(
                        laws::item_hold(m, items[j]),
                    )
                    &&& new_owners[m.slots.len() + j] == batch_owners(e, k)[j]
                }
        }),
{
    let items = e.planned_items();
    let base = m.slots.len() as int;
    let mid = m.lock_batch(items);
    let ledger = e.release_all_holds(mid, Scope::Losing);
    let new_owners = owners + batch_owners(e, k);
    let count = e.request.quotes.len() as int;
    lemma_plan_slots(e, m, owners, k, config, next);
    assert(scope_backed(e, mid.slots, new_owners, k, Scope::Losing)) by {
        assert forall|i: int|
            0 <= i < e.request.quotes.len() && #[trigger] e.lets_go(Scope::Losing, i) implies {
            &&& e.reservations[i] is Some
            &&& e.reservations[i]->Some_0.0 < mid.slots.len()
            &&& mid.slots[e.reservations[i]->Some_0.0 as int] is Reserved
            &&& new_owners[e.reservations[i]->Some_0.0 as int] == Owner::Quote(k, i)
        } by {
            assert(e.reservations[i] is Some);
            let r = e.reservations[i]->Some_0.0 as int;
            assert(e.collateral_held(m.slots, owners, k, i, e.reservations[i]->Some_0));
            assert(new_owners[r] == owners[r]);
            assert(mid.slots[r] == m.slots[r]);
        }
    }
    lemma_release_holds(e, mid, new_owners, k, Scope::Losing, count);
    assert forall|r: int| 0 <= r < m.slots.len() implies {
        &&& #[trigger] new_owners[r] == owners[r]
        &&& owners[r].entry() != k ==> ledger.slots[r] == m.slots[r]
        &&& owners[r].entry() == k ==> ledger.slots[r] is Spent
    } by {
        assert(ledger.slots[r] == if let_go(e, new_owners, k, Scope::Losing, count, r) {
            Slot::Spent
        } else {
            mid.slots[r]
        });
        assert(mid.slots[r] == if used_up(e, m.slots, owners, k, r) {
            Slot::Spent
        } else {
            m.slots[r]
        });
        if owners[r].entry() == k && m.slots[r] !is Spent {
            if let Owner::Quote(kk, i) = owners[r] {
                assert(e.reservations[i] is Some && e.reservations[i]->Some_0.0 == r);
                assert(e.collateral_held(m.slots, owners, k, i, e.reservations[i]->Some_0));
                assert(e.request.quotes[i].holds_collateral());
                if e.request.quotes[i].state is Live {
                    assert(e.lets_go(Scope::Losing, i));
                }
            }
        }
    }
    assert forall|j: int| 0 <= j < items.len() implies {
        &&& #[trigger] ledger.slots[m.slots.len() + j] == Slot::Escrowed(
            laws::item_hold(m, items[j]),
        )
        &&& new_owners[m.slots.len() + j] == batch_owners(e, k)[j]
    } by {
        let r = base + j;
        assert(ledger.slots[r] == if let_go(e, new_owners, k, Scope::Losing, count, r) {
            Slot::Spent
        } else {
            mid.slots[r]
        });
        assert(mid.slots[m.slots.len() + j] == Slot::Escrowed(laws::item_hold(m, items[j])));
    }
}

/// Both chunks of the `i`-th leg of an accepted package are in escrow under its handles.
#[verifier::spinoff_prover]
proof fn lemma_lock_chunks(
    e: EntryModel,
    m: LedgerModel,
    owners: Seq<Owner>,
    k: int,
    config: EngineConfig,
    next: SeqNo,
    i: int,
)
    requires
        m.wf(),
        e.inv(m.slots, owners, k, config, next),
        owners.len() == m.slots.len(),
        e.request.state is Presented,
        m.batch_error(e.planned_items()) is None,
        m.slots.len() + e.planned_items().len() <= u64::MAX,
        0 <= k,
        0 <= i < e.request.legs.len(),
    ensures
        ({
            let items = e.planned_items();
            let ledger = e.release_all_holds(m.lock_batch(items), Scope::Losing);
            let locked = e.lock(m.batch_handles(items));
            let new_owners = owners + batch_owners(e, k);
            let escrow = locked.request.escrows[i];
            &&& locked.chunks_held(ledger.slots, new_owners, k, i)
            &&& escrow.leg_id == e.request.legs[i].id
            &&& escrow.notional == e.named_leg(i).notional
            &&& escrow.yes_buyer_amount.0 + escrow.yes_seller_amount.0 == escrow.notional.0
        }),
{
    let items = e.planned_items();
    let base = m.slots.len() as int;
    let ledger = e.release_all_holds(m.lock_batch(items), Scope::Losing);
    let locked = e.lock(m.batch_handles(items));
    let new_owners = owners + batch_owners(e, k);
    lemma_lock_slots(e, m, owners, k, config, next);
    lemma_selection(e, m.slots, owners, k, config, next, i);
    let j = e.selected_quote(i);
    assert((2 * i) / 2 == i && (2 * i) % 2 == 0);
    assert((2 * i + 1) / 2 == i && (2 * i + 1) % 2 == 1);
    assert(items[2 * i] == LockItem::FromReservation(e.reservations[j]->Some_0));
    assert(items[2 * i + 1] == (LockItem::FromFree {
        party: e.request.requester,
        amount: e.requester_lock(i),
    }));
    crate::domain::request::law_collateral_is_the_makers_side(
        e.request.quotes[j],
        e.named_leg(i),
        e.request.requester,
    );
    assert(ledger.slots[m.slots.len() + (2 * i)] == Slot::Escrowed(
        laws::item_hold(m, items[2 * i]),
    ));
    assert(ledger.slots[m.slots.len() + (2 * i + 1)] == Slot::Escrowed(
        laws::item_hold(m, items[2 * i + 1]),
    ));
    assert(m.batch_handles(items)[2 * i].0 == base + 2 * i);
    assert(m.batch_handles(items)[2 * i + 1].0 == base + 2 * i + 1);
    assert(locked.request.escrows[i] == e.planned_escrows()[i]);
}

/// The selected quotes of an accepted package stand behind its legs.
proof fn lemma_lock_backing(
    e: EntryModel,
    m: LedgerModel,
    owners: Seq<Owner>,
    k: int,
    config: EngineConfig,
    next: SeqNo,
)
    requires
        e.inv(m.slots, owners, k, config, next),
        e.request.state is Presented,
    ensures
        ({
            let locked = e.lock(m.batch_handles(e.planned_items()));
            &&& forall|i: int|
                0 <= i < locked.request.escrows.len() ==> #[trigger] locked.quoted(i)
            &&& forall|j: int|
                0 <= j < locked.request.quotes.len() && locked.request.quotes[j].state is Locked
                    ==> #[trigger] locked.placed(j)
        }),
{
    let locked = e.lock(m.batch_handles(e.planned_items()));
    let package = e.request.package->Some_0;
    assert forall|i: int| locked.named_leg(i) == e.named_leg(i) by {}
    assert forall|i: int| 0 <= i < locked.request.escrows.len() implies #[trigger] locked.quoted(
        i,
    ) by {
        lemma_selection(e, m.slots, owners, k, config, next, i);
        assert(locked.locked_for(e.selected_quote(i), i));
    }
    assert forall|j: int|
        0 <= j < locked.request.quotes.len() && locked.request.quotes[j].state is Locked implies
        #[trigger] locked.placed(j) by {
        assert(soundness::states_agree(e.request.state, e.request.quotes[j].state));
        assert(e.request.quotes[j].state is Selected);
        let i = choose|i: int|
            0 <= i < package.len() && (#[trigger] package[i]).quote_id == e.request.quotes[j].id;
        lemma_selection(e, m.slots, owners, k, config, next, i);
        assert(e.selected_quote(i) == j);
        assert(locked.locked_for(j, i));
    }
}

/// An accepted request has both chunks of every leg in escrow and nothing else held.
#[verifier::spinoff_prover]
pub proof fn lemma_lock_entry(
    e: EntryModel,
    m: LedgerModel,
    owners: Seq<Owner>,
    k: int,
    config: EngineConfig,
    next: SeqNo,
)
    requires
        m.wf(),
        e.inv(m.slots, owners, k, config, next),
        owners.len() == m.slots.len(),
        e.request.state is Presented,
        m.batch_error(e.planned_items()) is None,
        m.slots.len() + e.planned_items().len() <= u64::MAX,
        0 <= k,
    ensures
        ({
            let items = e.planned_items();
            let ledger = e.release_all_holds(m.lock_batch(items), Scope::Losing);
            let locked = e.lock(m.batch_handles(items));
            let new_owners = owners + batch_owners(e, k);
            &&& ledger.wf()
            &&& soundness::touches_only(m.slots, owners, ledger.slots, new_owners, k)
            &&& locked.inv(ledger.slots, new_owners, k, config, next)
            &&& ledger.escrowed_total() == m.escrowed_total() + locked.escrow_due()
        }),
{
    let items = e.planned_items();
    let n = e.request.legs.len() as int;
    let base = m.slots.len() as int;
    let ledger = e.release_all_holds(m.lock_batch(items), Scope::Losing);
    let locked = e.lock(m.batch_handles(items));
    let new_owners = owners + batch_owners(e, k);
    lemma_lock_slots(e, m, owners, k, config, next);
    lemma_selection(e, m.slots, owners, k, config, next, 0);
    assert(soundness::touches_only(m.slots, owners, ledger.slots, new_owners, k)) by {
        assert forall|r: int| m.slots.len() <= r < ledger.slots.len() implies (
        #[trigger] new_owners[r]).entry() == k by {
            let j = r - base;
            assert(ledger.slots[m.slots.len() + j] is Escrowed);
        }
    }
    assert forall|i: int| 0 <= i < locked.handles.len() implies {
        let handles = #[trigger] locked.handles[i];
        locked.chunks_held(ledger.slots, new_owners, k, i)
    } by {
        lemma_lock_chunks(e, m, owners, k, config, next, i);
    }
    assert(locked.leakless(ledger.slots, new_owners, k)) by {
        assert forall|r: int| 0 <= r < ledger.slots.len() implies match #[trigger] new_owners[r] {
            Owner::Nobody => true,
            Owner::Quote(kk, i) => kk == k && ledger.slots[r] !is Spent ==> {
                &&& 0 <= i < locked.reservations.len()
                &&& locked.reservations[i] is Some
                &&& locked.reservations[i]->Some_0.0 == r
            },
            Owner::Buyer(kk, i) => kk == k && ledger.slots[r] !is Spent ==> {
                &&& 0 <= i < locked.handles.len()
                &&& locked.handles[i].yes_buyer.0 == r
            },
            Owner::Seller(kk, i) => kk == k && ledger.slots[r] !is Spent ==> {
                &&& 0 <= i < locked.handles.len()
                &&& locked.handles[i].yes_seller.0 == r
            },
        } by {
            if r < base {
                assert(new_owners[r] == owners[r]);
            } else {
                let j = r - base;
                let i = j / 2;
                assert(ledger.slots[m.slots.len() + j] is Escrowed);
                assert(new_owners[r] == batch_owners(e, k)[j]);
                lemma_selection(e, m.slots, owners, k, config, next, i);
                assert(j == 2 * i || j == 2 * i + 1);
                assert(m.batch_handles(items)[j].0 == r);
            }
        }
    }
    lemma_quotes_changed_in_state_only(e, locked, next);
    assert(locked.shaped(next)) by {
        assert forall|i: int| 0 <= i < locked.request.quotes.len() implies {
            &&& (#[trigger] locked.request.quotes[i]).price.in_range()
            &&& locked.request.leg_index(locked.request.quotes[i].leg_id) is Some
            &&& soundness::states_agree(locked.request.state, locked.request.quotes[i].state)
        } by {
            assert(soundness::states_agree(e.request.state, e.request.quotes[i].state));
        }
    }
    assert(locked.backed(ledger.slots, new_owners, k)) by {
        assert forall|i: int| 0 <= i < locked.request.quotes.len() implies {
            &&& (#[trigger] locked.reservations[i]) is Some
                <==> locked.request.quotes[i].holds_collateral()
            &&& locked.reservations[i] matches Some(id) ==> locked.collateral_held(
                ledger.slots,
                new_owners,
                k,
                i,
                id,
            )
        } by {
            assert(e.reservations[i] is Some <==> e.request.quotes[i].holds_collateral());
        }
    }
    assert(locked.escrows_ok()) by {
        assert forall|i: int| 0 <= i < locked.request.escrows.len() implies {
            &&& (#[trigger] locked.request.escrows[i]).leg_id == locked.request.legs[i].id
            &&& locked.request.escrows[i].notional == locked.named_leg(i).notional
            &&& locked.request.escrows[i].yes_buyer_amount.0
                + locked.request.escrows[i].yes_seller_amount.0
                == locked.request.escrows[i].notional.0
        } by {
            lemma_lock_chunks(e, m, owners, k, config, next, i);
        }
        lemma_lock_backing(e, m, owners, k, config, next);
    }
    assert(e.planned_escrows().take(n) =~= e.planned_escrows());
}

/// An accepted package does not lessen what is in escrow.
pub proof fn lemma_lock_escrow(
    e: EntryModel,
    m: LedgerModel,
    owners: Seq<Owner>,
    k: int,
    config: EngineConfig,
    next: SeqNo,
)
    requires
        m.wf(),
        e.inv(m.slots, owners, k, config, next),
        owners.len() == m.slots.len(),
        e.request.state is Presented,
        m.batch_error(e.planned_items()) is None,
        0 <= k,
    ensures
        e.release_all_holds(m.lock_batch(e.planned_items()), Scope::Losing).escrowed_total()
            >= m.escrowed_total(),
{
    lemma_lock_slots(e, m, owners, k, config, next);
    seqs::lemma_sum_bounds(
        e.planned_escrows().take(e.request.legs.len() as int),
        |escrow: Escrow| escrow.notional.0 as int,
    );
}

/// Where the quotes, legs and escrows are the same, the same quotes stand behind the legs.
proof fn lemma_same_backing(e: EntryModel, f: EntryModel)
    requires
        e.escrows_ok(),
        f.request.legs == e.request.legs,
        f.request.quotes == e.request.quotes,
        f.request.escrows == e.request.escrows,
        f.request.requester == e.request.requester,
    ensures
        f.escrows_ok(),
{
    assert forall|i: int| f.named_leg(i) == e.named_leg(i) by {}
    assert forall|j: int, i: int| f.locked_for(j, i) == e.locked_for(j, i) by {}
    assert forall|i: int| 0 <= i < f.request.escrows.len() implies #[trigger] f.quoted(i) by {
        assert(e.quoted(i));
    }
    assert forall|j: int|
        0 <= j < f.request.quotes.len() && f.request.quotes[j].state is Locked implies
        #[trigger] f.placed(j) by {
        assert(e.placed(j));
    }
}

/// A change of state and deadlines within escrow keeps the invariant.
pub proof fn lemma_relabel_entry(
    e: EntryModel,
    f: EntryModel,
    slots: Seq<Slot>,
    owners: Seq<Owner>,
    k: int,
    config: EngineConfig,
    next: SeqNo,
)
    requires
        e.inv(slots, owners, k, config, next),
        e.in_escrow(),
        f.in_escrow(),
        f.request == (RequestModel {
            state: f.request.state,
            reported_outcome: f.request.reported_outcome,
            dispute_deadline: f.request.dispute_deadline,
            unwind_deadline: f.request.unwind_deadline,
            ..e.request
        }),
        f.reservations == e.reservations,
        f.handles == e.handles,
        f.request.state is Reported ==> f.request.dispute_deadline is Some && (
        f.request.reported_outcome matches Some(outcome) && outcome.decides()),
    ensures
        f.inv(slots, owners, k, config, next),
        f.escrow_due() == e.escrow_due(),
{
    lemma_same_backing(e, f);
    assert forall|i: int| 0 <= i < f.request.quotes.len() implies {
        &&& (#[trigger] f.request.quotes[i]).price.in_range()
        &&& f.request.leg_index(f.request.quotes[i].leg_id) is Some
        &&& soundness::states_agree(f.request.state, f.request.quotes[i].state)
    } by {
        assert(soundness::states_agree(e.request.state, e.request.quotes[i].state));
        assert(f.request.leg_index(f.request.quotes[i].leg_id) == e.request.leg_index(
            e.request.quotes[i].leg_id,
        ));
    }
    assert(f.backed(slots, owners, k)) by {
        assert forall|i: int| 0 <= i < f.request.quotes.len() implies {
            &&& (#[trigger] f.reservations[i]) is Some
                <==> f.request.quotes[i].holds_collateral()
            &&& f.reservations[i] matches Some(id) ==> f.collateral_held(slots, owners, k, i, id)
        } by {
            assert(e.reservations[i] is Some <==> e.request.quotes[i].holds_collateral());
            assert(f.quote_leg(i) == e.quote_leg(i));
        }
        assert forall|i: int| 0 <= i < f.handles.len() implies {
            let handles = #[trigger] f.handles[i];
            f.chunks_held(slots, owners, k, i)
        } by {
            let handles = e.handles[i];
            assert(e.chunks_held(slots, owners, k, i));
        }
    }
}

} // verus!
