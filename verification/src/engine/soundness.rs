//! What holds of the venue between any two commands.
use vstd::prelude::*;
use crate::domain::ids::SeqNo;
use crate::domain::request::{Escrow, Leg, Quote, RequestModel, Selection};
use crate::domain::state::{QuoteState, RequestState};
use crate::engine::model::{EngineConfig, EngineModel, EntryModel};
use crate::ledger::{Hold, ReservationId, Slot};

verus! {

/// What a ledger handle is held for: the `i`-th quote, or a side of the `i`-th leg, of the
/// `k`-th request.
pub enum Owner {
    Nobody,
    Quote(int, int),
    Buyer(int, int),
    Seller(int, int),
}

impl Owner {
    /// The request that the handle is held for.
    pub open spec fn entry(self) -> int {
        match self {
            Owner::Nobody => -1,
            Owner::Quote(k, _) => k,
            Owner::Buyer(k, _) => k,
            Owner::Seller(k, _) => k,
        }
    }
}

/// Whether no two quotes have one identifier.
pub open spec fn quotes_distinct(quotes: Seq<Quote>) -> bool {
    forall|i: int, j: int|
        0 <= i < j < quotes.len() ==> (#[trigger] quotes[i]).id != (#[trigger] quotes[j]).id
}

/// Whether the quotes were numbered in the order in which they came, below `next`.
pub open spec fn quotes_numbered(quotes: Seq<Quote>, next: SeqNo) -> bool {
    &&& forall|i: int| 0 <= i < quotes.len() ==> (#[trigger] quotes[i]).seq.0 < next.0
    &&& forall|i: int, j: int|
        0 <= i < j < quotes.len() ==> (#[trigger] quotes[i]).seq.0 < (#[trigger] quotes[j]).seq.0
}

/// Whether a quote may be in this state while its request is in that one.
pub open spec fn states_agree(request: RequestState, quote: QuoteState) -> bool {
    match request {
        RequestState::Open => quote is Live || quote is Released,
        RequestState::Presented => quote !is Locked,
        RequestState::Failed => quote is Released,
        _ => quote is Locked || quote is Released,
    }
}

/// Whether the package has one selection per leg, in order, each of a selected quote on that
/// leg, and every selected quote is in it.
pub open spec fn package_ok(request: RequestModel, package: Seq<Selection>) -> bool {
    &&& package.len() == request.legs.len()
    &&& forall|i: int|
        0 <= i < package.len() ==> {
            &&& (#[trigger] package[i]).leg_id == request.legs[i].id
            &&& request.quote_index(package[i].quote_id) is Some
            &&& request.quotes[request.quote_index(package[i].quote_id)->Some_0].state is Selected
            &&& request.quotes[request.quote_index(package[i].quote_id)->Some_0].leg_id
                == request.legs[i].id
        }
    &&& forall|j: int|
        0 <= j < request.quotes.len() && (#[trigger] request.quotes[j]).state is Selected
            ==> exists|i: int|
            0 <= i < package.len() && (#[trigger] package[i]).quote_id == request.quotes[j].id
}

impl EntryModel {
    /// The leg that the `i`-th quote is on.
    pub open spec fn quote_leg(self, i: int) -> Leg {
        self.request.legs[self.request.leg_index(self.request.quotes[i].leg_id)->Some_0]
    }

    /// What does not depend on the ledger or on the state of the request.
    pub open spec fn shaped(self, next: SeqNo) -> bool {
        &&& self.request.legs.len() > 0
        &&& quotes_distinct(self.request.quotes)
        &&& quotes_numbered(self.request.quotes, next)
        &&& self.reservations.len() == self.request.quotes.len()
        &&& forall|i: int|
            0 <= i < self.request.quotes.len() ==> {
                &&& (#[trigger] self.request.quotes[i]).price.in_range()
                &&& self.request.quotes[i].maker != self.request.requester
                &&& self.request.leg_index(self.request.quotes[i].leg_id) is Some
                &&& states_agree(self.request.state, self.request.quotes[i].state)
            }
    }

    /// Whether the `j`-th quote is locked for the `i`-th leg: the escrow of the leg is between the
    /// requester and the maker of the quote, at its price.
    pub open spec fn locked_for(self, j: int, i: int) -> bool {
        &&& self.request.quotes[j].state is Locked
        &&& self.request.quotes[j].leg_id == self.request.legs[i].id
        &&& self.request.escrows[i] == Escrow::of(
            self.named_leg(i),
            self.request.quotes[j].price,
            self.request.requester,
            self.request.quotes[j].maker,
        )
    }

    /// Whether a locked quote stands behind the `i`-th leg.
    pub open spec fn quoted(self, i: int) -> bool {
        exists|j: int| 0 <= j < self.request.quotes.len() && #[trigger] self.locked_for(j, i)
    }

    /// Whether the `j`-th quote stands behind a leg.
    pub open spec fn placed(self, j: int) -> bool {
        exists|i: int| 0 <= i < self.request.escrows.len() && #[trigger] self.locked_for(j, i)
    }

    /// Whether there is one escrow per leg, for the notional of the leg with its identifier,
    /// between two parties: a locked quote stands behind each, and each locked quote behind one.
    pub open spec fn escrows_ok(self) -> bool {
        &&& self.request.escrows.len() == self.request.legs.len()
        &&& forall|i: int|
            0 <= i < self.request.escrows.len() ==> {
                &&& (#[trigger] self.request.escrows[i]).leg_id == self.request.legs[i].id
                &&& self.request.escrows[i].notional == self.named_leg(i).notional
                &&& self.request.escrows[i].yes_buyer != self.request.escrows[i].yes_seller
                &&& self.request.escrows[i].yes_buyer_amount.0
                    + self.request.escrows[i].yes_seller_amount.0
                    == self.request.escrows[i].notional.0
            }
        &&& forall|i: int| 0 <= i < self.request.escrows.len() ==> #[trigger] self.quoted(i)
        &&& forall|j: int|
            0 <= j < self.request.quotes.len() && self.request.quotes[j].state is Locked
                ==> #[trigger] self.placed(j)
    }

    /// What goes with the state of the request.
    pub open spec fn state_ok(self, config: EngineConfig) -> bool {
        let request = self.request;
        match request.state {
            RequestState::Open => {
                &&& request.escrows.len() == 0
                &&& self.handles.len() == 0
                &&& request.package is None
                &&& request.response_deadline.plus(config.accept_window) is Some
            },
            RequestState::Presented => {
                &&& request.escrows.len() == 0
                &&& self.handles.len() == 0
                &&& request.accept_deadline matches Some(deadline) && deadline@
                    <= request.resolves_at@
                &&& request.package matches Some(package) && package_ok(request, package)
            },
            RequestState::Locked | RequestState::Disputed => {
                &&& self.escrows_ok()
                &&& self.handles.len() == request.escrows.len()
            },
            RequestState::Reported => {
                &&& self.escrows_ok()
                &&& self.handles.len() == request.escrows.len()
                &&& request.dispute_deadline is Some
                &&& request.reported_outcome matches Some(outcome) && outcome.decides()
            },
            RequestState::Settled | RequestState::Unwound => {
                &&& self.escrows_ok()
                &&& self.handles.len() == 0
            },
            RequestState::Failed => {
                &&& request.escrows.len() == 0
                &&& self.handles.len() == 0
                &&& request.fail_reason is Some
            },
        }
    }

    /// Whether the `i`-th quote's collateral is reserved under `id`.
    pub open spec fn collateral_held(
        self,
        slots: Seq<Slot>,
        owners: Seq<Owner>,
        k: int,
        i: int,
        id: ReservationId,
    ) -> bool {
        &&& id.0 < slots.len()
        &&& slots[id.0 as int] == Slot::Reserved(
            Hold {
                party: self.request.quotes[i].maker,
                amount: self.request.quotes[i].collateral(self.quote_leg(i)),
            },
        )
        &&& owners[id.0 as int] == Owner::Quote(k, i)
    }

    /// Whether both chunks of the `i`-th leg are in escrow.
    pub open spec fn chunks_held(
        self,
        slots: Seq<Slot>,
        owners: Seq<Owner>,
        k: int,
        i: int,
    ) -> bool {
        let escrow = self.request.escrows[i];
        let buyer = self.handles[i].yes_buyer.0;
        let seller = self.handles[i].yes_seller.0;
        &&& buyer < slots.len()
        &&& slots[buyer as int] == Slot::Escrowed(
            Hold { party: escrow.yes_buyer, amount: escrow.yes_buyer_amount },
        )
        &&& owners[buyer as int] == Owner::Buyer(k, i)
        &&& seller < slots.len()
        &&& slots[seller as int] == Slot::Escrowed(
            Hold { party: escrow.yes_seller, amount: escrow.yes_seller_amount },
        )
        &&& owners[seller as int] == Owner::Seller(k, i)
    }

    /// Whether the ledger holds the collateral of exactly the quotes that are to have some, and
    /// both chunks of every leg in escrow.
    pub open spec fn backed(self, slots: Seq<Slot>, owners: Seq<Owner>, k: int) -> bool {
        &&& forall|i: int|
            0 <= i < self.request.quotes.len() ==> {
                &&& (#[trigger] self.reservations[i]) is Some
                    <==> self.request.quotes[i].holds_collateral()
                &&& self.reservations[i] matches Some(id) ==> self.collateral_held(
                    slots,
                    owners,
                    k,
                    i,
                    id,
                )
            }
        &&& forall|i: int|
            0 <= i < self.handles.len() ==> {
                let handles = #[trigger] self.handles[i];
                self.chunks_held(slots, owners, k, i)
            }
    }

    /// Whether the ledger holds nothing for this request that the request does not know of.
    pub open spec fn leakless(self, slots: Seq<Slot>, owners: Seq<Owner>, k: int) -> bool {
        forall|r: int|
            0 <= r < slots.len() ==> match #[trigger] owners[r] {
                Owner::Nobody => true,
                Owner::Quote(kk, i) => kk == k && slots[r] !is Spent ==> {
                    &&& 0 <= i < self.reservations.len()
                    &&& self.reservations[i] is Some
                    &&& self.reservations[i]->Some_0.0 == r
                },
                Owner::Buyer(kk, i) => kk == k && slots[r] !is Spent ==> {
                    &&& 0 <= i < self.handles.len()
                    &&& self.handles[i].yes_buyer.0 == r
                },
                Owner::Seller(kk, i) => kk == k && slots[r] !is Spent ==> {
                    &&& 0 <= i < self.handles.len()
                    &&& self.handles[i].yes_seller.0 == r
                },
            }
    }

    /// What holds of the `k`-th request.
    pub open spec fn inv(
        self,
        slots: Seq<Slot>,
        owners: Seq<Owner>,
        k: int,
        config: EngineConfig,
        next: SeqNo,
    ) -> bool {
        &&& self.shaped(next)
        &&& self.state_ok(config)
        &&& self.backed(slots, owners, k)
        &&& self.leakless(slots, owners, k)
    }
}

impl EngineModel {
    /// Whether `owners` says of every handle what it is held for.
    pub open spec fn owned(self, owners: Seq<Owner>) -> bool {
        &&& owners.len() == self.ledger.slots.len()
        &&& forall|r: int|
            0 <= r < owners.len() ==> (#[trigger] owners[r]).entry() < self.entries.len()
        &&& forall|k: int|
            0 <= k < self.entries.len() ==> (#[trigger] self.entries[k]).inv(
                self.ledger.slots,
                owners,
                k,
                self.config,
                self.next_seq,
            )
    }

    /// Whether no two requests have one identifier.
    pub open spec fn requests_distinct(self) -> bool {
        forall|i: int, j: int|
            0 <= i < j < self.entries.len() ==> (#[trigger] self.entries[i]).request.id != (
            #[trigger] self.entries[j]).request.id
    }

    /// Whether no two requests have quotes with one identifier.
    pub open spec fn quotes_disjoint(self) -> bool {
        forall|i: int, j: int, a: int, b: int|
            0 <= i < j < self.entries.len() && 0 <= a < self.entries[i].request.quotes.len() && 0
                <= b < self.entries[j].request.quotes.len() ==> (
            #[trigger] self.entries[i].request.quotes[a]).id != (
            #[trigger] self.entries[j].request.quotes[b]).id
    }

    /// What every command keeps.
    pub open spec fn wf(self) -> bool {
        &&& self.ledger.wf()
        &&& self.requests_distinct()
        &&& self.quotes_disjoint()
        &&& exists|owners: Seq<Owner>| self.owned(owners)
    }
}

/// Whether only handles held for the `k`-th request differ, and new ones are held for it.
pub open spec fn touches_only(
    slots: Seq<Slot>,
    owners: Seq<Owner>,
    new_slots: Seq<Slot>,
    new_owners: Seq<Owner>,
    k: int,
) -> bool {
    &&& slots.len() == owners.len()
    &&& slots.len() <= new_slots.len()
    &&& new_slots.len() == new_owners.len()
    &&& forall|r: int|
        0 <= r < slots.len() ==> {
            &&& #[trigger] new_owners[r] == owners[r]
            &&& owners[r].entry() != k ==> new_slots[r] == slots[r]
        }
    &&& forall|r: int|
        slots.len() <= r < new_slots.len() ==> (#[trigger] new_owners[r]).entry() == k
}

/// What is held for other requests stays as it is.
proof fn lemma_other_entry(
    e: EntryModel,
    j: int,
    slots: Seq<Slot>,
    owners: Seq<Owner>,
    new_slots: Seq<Slot>,
    new_owners: Seq<Owner>,
    k: int,
    config: EngineConfig,
    next: SeqNo,
    new_next: SeqNo,
)
    requires
        j != k,
        e.inv(slots, owners, j, config, next),
        touches_only(slots, owners, new_slots, new_owners, k),
        next.0 <= new_next.0,
    ensures
        e.inv(new_slots, new_owners, j, config, new_next),
{
    assert(e.backed(new_slots, new_owners, j)) by {
        assert forall|i: int| 0 <= i < e.request.quotes.len() implies {
            &&& (#[trigger] e.reservations[i]) is Some
                <==> e.request.quotes[i].holds_collateral()
            &&& e.reservations[i] matches Some(id) ==> e.collateral_held(
                new_slots,
                new_owners,
                j,
                i,
                id,
            )
        } by {
            if let Some(id) = e.reservations[i] {
                assert(e.collateral_held(slots, owners, j, i, id));
                assert(new_owners[id.0 as int] == owners[id.0 as int]);
            }
        }
        assert forall|i: int| 0 <= i < e.handles.len() implies {
            let handles = #[trigger] e.handles[i];
            e.chunks_held(new_slots, new_owners, j, i)
        } by {
            let handles = e.handles[i];
            assert(e.chunks_held(slots, owners, j, i));
            assert(new_owners[handles.yes_buyer.0 as int] == owners[handles.yes_buyer.0 as int]);
            assert(new_owners[handles.yes_seller.0 as int] == owners[handles.yes_seller.0 as int]);
        }
    }
    assert(e.leakless(new_slots, new_owners, j)) by {
        assert forall|r: int| 0 <= r < new_slots.len() implies match #[trigger] new_owners[r] {
            Owner::Nobody => true,
            Owner::Quote(kk, i) => kk == j && new_slots[r] !is Spent ==> {
                &&& 0 <= i < e.reservations.len()
                &&& e.reservations[i] is Some
                &&& e.reservations[i]->Some_0.0 == r
            },
            Owner::Buyer(kk, i) => kk == j && new_slots[r] !is Spent ==> {
                &&& 0 <= i < e.handles.len()
                &&& e.handles[i].yes_buyer.0 == r
            },
            Owner::Seller(kk, i) => kk == j && new_slots[r] !is Spent ==> {
                &&& 0 <= i < e.handles.len()
                &&& e.handles[i].yes_seller.0 == r
            },
        } by {
            if r < slots.len() {
                assert(new_owners[r] == owners[r]);
            } else {
                assert(new_owners[r].entry() == k);
            }
        }
    }
}

/// A step of the `k`-th request that keeps its invariant and touches nothing held for others
/// keeps the invariant of the venue.
pub proof fn lemma_step(
    v: EngineModel,
    owners: Seq<Owner>,
    w: EngineModel,
    new_owners: Seq<Owner>,
    k: int,
)
    requires
        v.wf(),
        v.owned(owners),
        0 <= k < v.entries.len(),
        w.config == v.config,
        w.next_seq.0 >= v.next_seq.0,
        w.entries == v.entries.update(k, w.entries[k]),
        w.ledger.wf(),
        touches_only(v.ledger.slots, owners, w.ledger.slots, new_owners, k),
        w.entries[k].inv(w.ledger.slots, new_owners, k, w.config, w.next_seq),
        w.entries[k].request.id == v.entries[k].request.id,
        w.quotes_disjoint(),
    ensures
        w.owned(new_owners),
        w.wf(),
{
    assert forall|j: int| 0 <= j < w.entries.len() implies (#[trigger] w.entries[j]).inv(
        w.ledger.slots,
        new_owners,
        j,
        w.config,
        w.next_seq,
    ) by {
        if j != k {
            assert(w.entries[j] == v.entries[j]);
            lemma_other_entry(
                v.entries[j],
                j,
                v.ledger.slots,
                owners,
                w.ledger.slots,
                new_owners,
                k,
                v.config,
                v.next_seq,
                w.next_seq,
            );
        }
    }
    assert forall|r: int| 0 <= r < new_owners.len() implies (#[trigger] new_owners[r]).entry()
        < w.entries.len() by {
        if r < owners.len() {
            assert(new_owners[r] == owners[r]);
            assert(owners[r].entry() < v.entries.len());
        }
    }
    assert(w.requests_distinct()) by {
        assert forall|i: int, j: int| 0 <= i < j < w.entries.len() implies (
        #[trigger] w.entries[i]).request.id != (#[trigger] w.entries[j]).request.id by {
            assert(v.entries[i].request.id != v.entries[j].request.id);
        }
    }
    assert(w.owned(new_owners));
}

/// A request whose quotes keep their identifiers shares none with another.
pub proof fn lemma_same_quote_ids(v: EngineModel, w: EngineModel, k: int)
    requires
        v.quotes_disjoint(),
        0 <= k < v.entries.len(),
        w.entries == v.entries.update(k, w.entries[k]),
        w.entries[k].request.quotes.len() == v.entries[k].request.quotes.len(),
        forall|i: int|
            0 <= i < v.entries[k].request.quotes.len() ==> (
            #[trigger] w.entries[k].request.quotes[i]).id == v.entries[k].request.quotes[i].id,
    ensures
        w.quotes_disjoint(),
{
    assert forall|i: int, j: int, a: int, b: int|
        0 <= i < j < w.entries.len() && 0 <= a < w.entries[i].request.quotes.len() && 0 <= b
            < w.entries[j].request.quotes.len() implies (
    #[trigger] w.entries[i].request.quotes[a]).id != (
    #[trigger] w.entries[j].request.quotes[b]).id by {
        assert(v.entries[i].request.quotes[a].id != v.entries[j].request.quotes[b].id);
        if i != k {
            assert(w.entries[i] == v.entries[i]);
        }
        if j != k {
            assert(w.entries[j] == v.entries[j]);
        }
    }
}

} // verus!
