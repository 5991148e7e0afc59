//! What every ledger keeps, whatever is asked of it.
use vstd::prelude::*;
use crate::domain::ids::PartyId;
use crate::domain::money::Amount;
use crate::ledger::{EscrowHandle, Hold, LedgerModel, LockItem, Move, ReservationId, Row, Slot};
use crate::{ledger, seqs};

verus! {

/// There is one row to a party.
pub open spec fn rows_match_parties(m: LedgerModel) -> bool {
    &&& m.parties.no_duplicates()
    &&& forall|p: u128| #[trigger] m.rows.contains_key(p) <==> m.parties.contains(p)
}

proof fn lemma_with_row_sum(m: LedgerModel, party: PartyId, row: Row, f: spec_fn(Row) -> int)
    requires
        rows_match_parties(m),
        f(Row::empty()) == 0,
    ensures
        m.with_row(party, row).sum_rows(f) == m.sum_rows(f) - f(m.row(party)) + f(row),
{
    let n = m.with_row(party, row);
    let g = |p: u128| f(m.rows[p]);
    let h = |p: u128| f(n.rows[p]);
    if m.rows.contains_key(party.0) {
        let i = choose|i: int| 0 <= i < m.parties.len() && m.parties[i] == party.0;
        assert(m.parties.contains(party.0));
        assert forall|j: int| 0 <= j < m.parties.len() && j != i implies g(#[trigger] m.parties[j])
            == h(#[trigger] n.parties[j]) by {
            assert(m.parties[j] != party.0);
        }
        seqs::lemma_sum_differs_at(m.parties, g, n.parties, h, i);
    } else {
        assert forall|j: int| 0 <= j < m.parties.len() implies g(#[trigger] m.parties[j]) == h(
            #[trigger] m.parties[j],
        ) by {
            assert(m.parties.contains(m.parties[j]));
        }
        seqs::lemma_sum_same(m.parties, g, m.parties, h);
        seqs::lemma_sum_push(m.parties, h, party.0);
    }
}

/// Writing one row changes every total by the difference of the rows.
proof fn lemma_with_row(m: LedgerModel, party: PartyId, row: Row)
    requires
        rows_match_parties(m),
    ensures
        ({
            let n = m.with_row(party, row);
            let before = m.row(party);
            &&& rows_match_parties(n)
            &&& n.slots == m.slots
            &&& n.row(party) == row
            &&& forall|p: u128| p != party.0 ==> #[trigger] n.row(PartyId(p)) == m.row(PartyId(p))
            &&& n.held_total() == m.held_total() - before.account.sum() + row.account.sum()
            &&& n.credited_total() == m.credited_total() - before.credits() + row.credits()
            &&& n.escrowed_total() == m.escrowed_total() - before.account.escrowed
                + row.account.escrowed
            &&& n.reserved_total() == m.reserved_total() - before.account.reserved
                + row.account.reserved
            &&& n.paid_total() == m.paid_total() - before.paid_to_others + row.paid_to_others
            &&& n.received_total() == m.received_total() - before.received_from_others
                + row.received_from_others
        }),
{
    let n = m.with_row(party, row);
    assert forall|p: u128| #[trigger] n.rows.contains_key(p) <==> n.parties.contains(p) by {
        assert(m.rows.contains_key(p) <==> m.parties.contains(p));
        if !m.rows.contains_key(party.0) {
            if m.parties.contains(p) {
                let i = choose|i: int| 0 <= i < m.parties.len() && m.parties[i] == p;
                assert(n.parties[i] == p);
            }
            if p == party.0 {
                assert(n.parties[m.parties.len() as int] == p);
            }
            if n.parties.contains(p) && p != party.0 {
                let i = choose|i: int| 0 <= i < n.parties.len() && n.parties[i] == p;
                assert(m.parties[i] == p);
            }
        }
    }
    assert(n.parties.no_duplicates()) by {
        if !m.rows.contains_key(party.0) {
            assert(!m.parties.contains(party.0));
            assert forall|i: int, j: int|
                0 <= i < n.parties.len() && 0 <= j < n.parties.len() && i
                    != j implies n.parties[i] != n.parties[j] by {
                if i == m.parties.len() {
                    assert(m.parties.contains(m.parties[j]));
                } else if j == m.parties.len() {
                    assert(m.parties.contains(m.parties[i]));
                }
            }
        }
    }
    lemma_with_row_sum(m, party, row, |row: Row| row.account.sum());
    lemma_with_row_sum(m, party, row, |row: Row| row.credits());
    lemma_with_row_sum(m, party, row, |row: Row| row.account.escrowed);
    lemma_with_row_sum(m, party, row, |row: Row| row.account.reserved);
    lemma_with_row_sum(m, party, row, |row: Row| row.paid_to_others);
    lemma_with_row_sum(m, party, row, |row: Row| row.received_from_others);
}

/// Writing one slot changes what the slots hold for a party by the difference of the slots.
proof fn lemma_with_slot(m: LedgerModel, handle: u64, slot: Slot)
    requires
        handle < m.slots.len(),
    ensures
        ({
            let n = m.with_slot(handle, slot);
            &&& forall|p: u128|
                #[trigger] n.reserved_for(PartyId(p)) == m.reserved_for(PartyId(p)) - ledger::reserved_part(
                    m.slots[handle as int],
                    PartyId(p),
                ) + ledger::reserved_part(slot, PartyId(p))
            &&& forall|p: u128|
                #[trigger] n.escrowed_for(PartyId(p)) == m.escrowed_for(PartyId(p)) - ledger::escrowed_part(
                    m.slots[handle as int],
                    PartyId(p),
                ) + ledger::escrowed_part(slot, PartyId(p))
        }),
{
    let n = m.with_slot(handle, slot);
    assert forall|p: u128|
        #![trigger n.reserved_for(PartyId(p))]
        #![trigger n.escrowed_for(PartyId(p))]
        {
            &&& n.reserved_for(PartyId(p)) == m.reserved_for(PartyId(p)) - ledger::reserved_part(
                m.slots[handle as int],
                PartyId(p),
            ) + ledger::reserved_part(slot, PartyId(p))
            &&& n.escrowed_for(PartyId(p)) == m.escrowed_for(PartyId(p)) - ledger::escrowed_part(
                m.slots[handle as int],
                PartyId(p),
            ) + ledger::escrowed_part(slot, PartyId(p))
        } by {
        let party = PartyId(p);
        let f = |slot: Slot| ledger::reserved_part(slot, party);
        let g = |slot: Slot| ledger::escrowed_part(slot, party);
        seqs::lemma_sum_differs_at(m.slots, f, n.slots, f, handle as int);
        seqs::lemma_sum_differs_at(m.slots, g, n.slots, g, handle as int);
    }
}

/// A new slot adds what it holds.
proof fn lemma_with_new_slot(m: LedgerModel, slot: Slot)
    ensures
        ({
            let n = m.with_new_slot(slot);
            &&& forall|p: u128|
                #[trigger] n.reserved_for(PartyId(p)) == m.reserved_for(PartyId(p)) + ledger::reserved_part(
                    slot,
                    PartyId(p),
                )
            &&& forall|p: u128|
                #[trigger] n.escrowed_for(PartyId(p)) == m.escrowed_for(PartyId(p)) + ledger::escrowed_part(
                    slot,
                    PartyId(p),
                )
        }),
{
    let n = m.with_new_slot(slot);
    assert forall|p: u128|
        #![trigger n.reserved_for(PartyId(p))]
        #![trigger n.escrowed_for(PartyId(p))]
        {
            &&& n.reserved_for(PartyId(p)) == m.reserved_for(PartyId(p)) + ledger::reserved_part(
                slot,
                PartyId(p),
            )
            &&& n.escrowed_for(PartyId(p)) == m.escrowed_for(PartyId(p)) + ledger::escrowed_part(
                slot,
                PartyId(p),
            )
        } by {
        let party = PartyId(p);
        seqs::lemma_sum_push(m.slots, |slot: Slot| ledger::reserved_part(slot, party), slot);
        seqs::lemma_sum_push(m.slots, |slot: Slot| ledger::escrowed_part(slot, party), slot);
    }
}

/// A hold is covered by the bucket it is in.
pub proof fn lemma_holds_are_covered(m: LedgerModel, i: int)
    requires
        m.wf(),
        0 <= i < m.slots.len(),
    ensures
        m.slots[i] matches Slot::Reserved(hold) ==> hold.amount.0 <= m.account(
            hold.party,
        ).reserved,
        m.slots[i] matches Slot::Escrowed(hold) ==> hold.amount.0 <= m.account(
            hold.party,
        ).escrowed,
{
    let party = match m.slots[i] {
        Slot::Reserved(hold) => hold.party,
        Slot::Escrowed(hold) => hold.party,
        Slot::Spent => PartyId(0),
    };
    let f = |slot: Slot| ledger::reserved_part(slot, party);
    let g = |slot: Slot| ledger::escrowed_part(slot, party);
    seqs::lemma_sum_bounds(m.slots, f);
    seqs::lemma_sum_bounds(m.slots, g);
    assert(f(m.slots[i]) <= seqs::sum_by(m.slots, f));
    assert(g(m.slots[i]) <= seqs::sum_by(m.slots, g));
    assert(m.row_ok(PartyId(party.0)));
}

pub proof fn lemma_empty_wf()
    ensures
        LedgerModel::empty().wf(),
{
}

pub proof fn lemma_credit_wf(m: LedgerModel, party: PartyId, amount: Amount)
    requires
        m.wf(),
    ensures
        m.credit(party, amount).wf(),
        m.credit(party, amount).held_total() == m.held_total() + amount.0,
        m.credit(party, amount).credited_total() == m.credited_total() + amount.0,
        m.credit(party, amount).escrowed_total() == m.escrowed_total(),
{
    let n = m.credit(party, amount);
    lemma_with_row(m, party, n.rows[party.0]);
    assert(m.row_ok(PartyId(party.0)));
    assert forall|p: u128| #[trigger] n.row_ok(PartyId(p)) by {
        assert(m.row_ok(PartyId(p)));
        assert(n.slots == m.slots);
    }
}

pub proof fn lemma_reserve_wf(m: LedgerModel, party: PartyId, amount: Amount)
    requires
        m.wf(),
        amount.0 <= m.account(party).free,
    ensures
        m.reserve(party, amount).wf(),
        m.reserve(party, amount).held_total() == m.held_total(),
        m.reserve(party, amount).escrowed_total() == m.escrowed_total(),
{
    let n = m.reserve(party, amount);
    assert(m.row_ok(PartyId(party.0)));
    let mid = LedgerModel { slots: m.slots, ..n };
    lemma_with_row(m, party, n.rows[party.0]);
    assert(mid == m.with_row(party, n.rows[party.0]));
    lemma_with_new_slot(mid, Slot::Reserved(Hold { party, amount }));
    assert(n == mid.with_new_slot(Slot::Reserved(Hold { party, amount })));
    assert forall|p: u128| #[trigger] n.row_ok(PartyId(p)) by {
        assert(m.row_ok(PartyId(p)));
        assert(n.row(PartyId(p)) == mid.row(PartyId(p)));
        assert(mid.reserved_for(PartyId(p)) == m.reserved_for(PartyId(p)));
        assert(mid.escrowed_for(PartyId(p)) == m.escrowed_for(PartyId(p)));
    }
    lemma_same_rows(mid, n);
}

/// Totals go by the rows alone.
proof fn lemma_same_rows(m: LedgerModel, n: LedgerModel)
    requires
        m.rows == n.rows,
        m.parties == n.parties,
    ensures
        n.held_total() == m.held_total(),
        n.credited_total() == m.credited_total(),
        n.escrowed_total() == m.escrowed_total(),
        n.reserved_total() == m.reserved_total(),
        n.paid_total() == m.paid_total(),
        n.received_total() == m.received_total(),
{
}

pub proof fn lemma_release_wf(m: LedgerModel, id: ReservationId)
    requires
        m.wf(),
    ensures
        m.release(id).wf(),
        m.release(id).held_total() == m.held_total(),
        m.release(id).credited_total() == m.credited_total(),
        m.release(id).escrowed_total() == m.escrowed_total(),
        forall|p: u128|
            {
                let before = m.row(PartyId(p));
                let after = #[trigger] m.release(id).row(PartyId(p));
                &&& after.paid_to_others == before.paid_to_others
                &&& after.received_from_others == before.received_from_others
            },
{
    if let Some(hold) = m.reservation(id) {
        let n = m.release(id);
        lemma_holds_are_covered(m, id.0 as int);
        assert(m.row_ok(PartyId(hold.party.0)));
        lemma_with_row(m, hold.party, n.rows[hold.party.0]);
        let mid = m.with_row(hold.party, n.rows[hold.party.0]);
        lemma_with_slot(mid, id.0, Slot::Spent);
        assert(n == mid.with_slot(id.0, Slot::Spent));
        lemma_same_rows(mid, n);
        assert forall|p: u128| #[trigger] n.row_ok(PartyId(p)) by {
            assert(m.row_ok(PartyId(p)));
            assert(n.row(PartyId(p)) == mid.row(PartyId(p)));
            assert(mid.reserved_for(PartyId(p)) == m.reserved_for(PartyId(p)));
            assert(mid.escrowed_for(PartyId(p)) == m.escrowed_for(PartyId(p)));
        }
        assert forall|p: u128|
            {
                let before = m.row(PartyId(p));
                let after = #[trigger] n.row(PartyId(p));
                &&& after.paid_to_others == before.paid_to_others
                &&& after.received_from_others == before.received_from_others
            } by {
            assert(n.row(PartyId(p)) == mid.row(PartyId(p)));
        }
    }
}

pub proof fn lemma_refund_wf(m: LedgerModel, handle: EscrowHandle)
    requires
        m.wf(),
    ensures
        m.refund(handle).wf(),
        m.refund(handle).held_total() == m.held_total(),
        m.refund(handle).credited_total() == m.credited_total(),
        m.refund(handle).escrowed_total() == m.escrowed_total() - match m.escrow(handle) {
            Some(hold) => hold.amount.0 as int,
            None => 0,
        },
        forall|p: u128|
            {
                let before = m.row(PartyId(p));
                let after = #[trigger] m.refund(handle).row(PartyId(p));
                &&& after.paid_to_others == before.paid_to_others
                &&& after.received_from_others == before.received_from_others
            },
{
    if let Some(hold) = m.escrow(handle) {
        let n = m.refund(handle);
        lemma_holds_are_covered(m, handle.0 as int);
        assert(m.row_ok(PartyId(hold.party.0)));
        lemma_with_row(m, hold.party, n.rows[hold.party.0]);
        let mid = m.with_row(hold.party, n.rows[hold.party.0]);
        lemma_with_slot(mid, handle.0, Slot::Spent);
        assert(n == mid.with_slot(handle.0, Slot::Spent));
        lemma_same_rows(mid, n);
        assert forall|p: u128| #[trigger] n.row_ok(PartyId(p)) by {
            assert(m.row_ok(PartyId(p)));
            assert(n.row(PartyId(p)) == mid.row(PartyId(p)));
            assert(mid.reserved_for(PartyId(p)) == m.reserved_for(PartyId(p)));
            assert(mid.escrowed_for(PartyId(p)) == m.escrowed_for(PartyId(p)));
        }
        assert forall|p: u128|
            {
                let before = m.row(PartyId(p));
                let after = #[trigger] n.row(PartyId(p));
                &&& after.paid_to_others == before.paid_to_others
                &&& after.received_from_others == before.received_from_others
            } by {
            assert(n.row(PartyId(p)) == mid.row(PartyId(p)));
        }
    }
}

pub proof fn lemma_payout_wf(m: LedgerModel, handle: EscrowHandle, to: PartyId)
    requires
        m.wf(),
    ensures
        ({
            let n = m.payout(handle, to);
            let amount = match m.escrow(handle) {
                Some(hold) => hold.amount.0 as int,
                None => 0,
            };
            &&& n.wf()
            &&& n.held_total() == m.held_total()
            &&& n.credited_total() == m.credited_total()
            &&& n.escrowed_total() == m.escrowed_total() - amount
            &&& forall|p: u128|
                {
                    let before = m.row(PartyId(p));
                    let after = #[trigger] n.row(PartyId(p));
                    &&& after.paid_to_others <= before.paid_to_others + amount
                    &&& after.received_from_others <= before.received_from_others + amount
                }
        }),
{
    if let Some(hold) = m.escrow(handle) {
        if to == hold.party {
            lemma_refund_wf(m, handle);
        } else {
            let n = m.payout(handle, to);
            lemma_holds_are_covered(m, handle.0 as int);
            assert(m.row_ok(PartyId(hold.party.0)));
            assert(m.row_ok(PartyId(to.0)));
            lemma_with_row(m, hold.party, n.rows[hold.party.0]);
            let paid = m.with_row(hold.party, n.rows[hold.party.0]);
            assert(paid.row(PartyId(to.0)) == m.row(PartyId(to.0)));
            lemma_with_row(paid, to, n.rows[to.0]);
            let mid = paid.with_row(to, n.rows[to.0]);
            assert(mid.row(PartyId(hold.party.0)) == paid.row(PartyId(hold.party.0)));
            lemma_with_slot(mid, handle.0, Slot::Spent);
            assert(n == mid.with_slot(handle.0, Slot::Spent));
            lemma_same_rows(mid, n);
            assert forall|p: u128| #[trigger] n.row_ok(PartyId(p)) by {
                assert(m.row_ok(PartyId(p)));
                assert(n.row(PartyId(p)) == mid.row(PartyId(p)));
                assert(p != to.0 ==> mid.row(PartyId(p)) == paid.row(PartyId(p)));
                assert(p != hold.party.0 ==> paid.row(PartyId(p)) == m.row(PartyId(p)));
                assert(mid.reserved_for(PartyId(p)) == m.reserved_for(PartyId(p)));
                assert(mid.escrowed_for(PartyId(p)) == m.escrowed_for(PartyId(p)));
            }
            assert forall|p: u128|
                {
                    let before = m.row(PartyId(p));
                    let after = #[trigger] n.row(PartyId(p));
                    &&& after.paid_to_others <= before.paid_to_others + hold.amount.0
                    &&& after.received_from_others <= before.received_from_others
                        + hold.amount.0
                } by {
                assert(n.row(PartyId(p)) == mid.row(PartyId(p)));
                assert(p != to.0 ==> mid.row(PartyId(p)) == paid.row(PartyId(p)));
                assert(p != hold.party.0 ==> paid.row(PartyId(p)) == m.row(PartyId(p)));
            }
        }
    }
}

/// Whether an item can be moved into escrow.
pub open spec fn lockable(m: LedgerModel, item: LockItem) -> bool {
    match item {
        LockItem::FromReservation(id) => m.reservation(id) is Some,
        LockItem::FromFree { party, amount } => amount.0 <= m.account(party).free,
    }
}

/// How much an item moves into escrow.
pub open spec fn item_amount(m: LedgerModel, item: LockItem) -> int {
    match item {
        LockItem::FromReservation(id) => m.reservation(id)->Some_0.amount.0 as int,
        LockItem::FromFree { party, amount } => amount.0 as int,
    }
}

pub proof fn lemma_lock_item_wf(m: LedgerModel, item: LockItem)
    requires
        m.wf(),
        lockable(m, item),
    ensures
        m.lock_item(item).wf(),
        m.lock_item(item).held_total() == m.held_total(),
        m.lock_item(item).credited_total() == m.credited_total(),
        m.lock_item(item).escrowed_total() == m.escrowed_total() + item_amount(m, item),
        forall|p: u128|
            #[trigger] m.lock_item(item).account(PartyId(p)).free == m.account(PartyId(p)).free
                - ledger::free_part(item, PartyId(p)),
{
    let n = m.lock_item(item);
    match item {
        LockItem::FromReservation(id) => {
            let hold = m.reservation(id)->Some_0;
            lemma_holds_are_covered(m, id.0 as int);
            assert(m.row_ok(PartyId(hold.party.0)));
            lemma_with_row(m, hold.party, n.rows[hold.party.0]);
            let mid = m.with_row(hold.party, n.rows[hold.party.0]);
            lemma_with_slot(mid, id.0, Slot::Spent);
            let spent = mid.with_slot(id.0, Slot::Spent);
            lemma_with_new_slot(spent, Slot::Escrowed(hold));
            assert(n == spent.with_new_slot(Slot::Escrowed(hold)));
            lemma_same_rows(mid, n);
            assert forall|p: u128| #[trigger] n.row_ok(PartyId(p)) by {
                assert(m.row_ok(PartyId(p)));
                assert(n.row(PartyId(p)) == mid.row(PartyId(p)));
                assert(spent.reserved_for(PartyId(p)) == mid.reserved_for(PartyId(p))
                    - ledger::reserved_part(mid.slots[id.0 as int], PartyId(p)));
                assert(mid.reserved_for(PartyId(p)) == m.reserved_for(PartyId(p)));
                assert(mid.escrowed_for(PartyId(p)) == m.escrowed_for(PartyId(p)));
            }
            assert forall|p: u128|
                #[trigger] n.account(PartyId(p)).free == m.account(PartyId(p)).free
                    - ledger::free_part(item, PartyId(p)) by {
                assert(n.row(PartyId(p)) == mid.row(PartyId(p)));
            }
        },
        LockItem::FromFree { party, amount } => {
            assert(m.row_ok(PartyId(party.0)));
            lemma_with_row(m, party, n.rows[party.0]);
            let mid = m.with_row(party, n.rows[party.0]);
            let slot = Slot::Escrowed(Hold { party, amount });
            lemma_with_new_slot(mid, slot);
            assert(n == mid.with_new_slot(slot));
            lemma_same_rows(mid, n);
            assert forall|p: u128| #[trigger] n.row_ok(PartyId(p)) by {
                assert(m.row_ok(PartyId(p)));
                assert(n.row(PartyId(p)) == mid.row(PartyId(p)));
                assert(mid.reserved_for(PartyId(p)) == m.reserved_for(PartyId(p)));
                assert(mid.escrowed_for(PartyId(p)) == m.escrowed_for(PartyId(p)));
            }
            assert forall|p: u128|
                #[trigger] n.account(PartyId(p)).free == m.account(PartyId(p)).free
                    - ledger::free_part(item, PartyId(p)) by {
                assert(n.row(PartyId(p)) == mid.row(PartyId(p)));
            }
        },
    }
}

/// A batch without an error has no item with one.
pub proof fn lemma_no_batch_error(m: LedgerModel, items: Seq<LockItem>, from: int)
    requires
        0 <= from <= items.len(),
        m.error_from(items, from) is None,
    ensures
        forall|i: int| from <= i < items.len() ==> (#[trigger] m.item_error(items, i)) is None,
    decreases items.len() - from,
{
    if from < items.len() {
        lemma_no_batch_error(m, items, from + 1);
    }
}

/// What the first `k` items of a sound batch leave behind.
pub proof fn lemma_lock_items(m: LedgerModel, items: Seq<LockItem>, k: int)
    requires
        m.wf(),
        m.batch_error(items) is None,
        0 <= k <= items.len(),
    ensures
        m.lock_items(items, k).wf(),
        m.lock_items(items, k).held_total() == m.held_total(),
        m.lock_items(items, k).credited_total() == m.credited_total(),
        m.lock_items(items, k).lock_batch_calls == m.lock_batch_calls,
        m.lock_items(items, k).slots.len() == m.slots.len() + k,
        forall|p: u128|
            #[trigger] m.lock_items(items, k).account(PartyId(p)).free == m.account(
                PartyId(p),
            ).free - ledger::pending(items, k, PartyId(p)),
        forall|r: int|
            0 <= r < m.slots.len() ==> #[trigger] m.lock_items(items, k).slots[r] == if (exists|
                j: int,
            |
                0 <= j < k && items[j] == LockItem::FromReservation(ReservationId(r as u64))) && r
                <= u64::MAX {
                Slot::Spent
            } else {
                m.slots[r]
            },
        k < items.len() ==> lockable(m.lock_items(items, k), items[k]),
    decreases k,
{
    lemma_no_batch_error(m, items, 0);
    let n = m.lock_items(items, k);
    if k == 0 {
        assert(items.take(0).len() == 0);
    } else {
        lemma_lock_items(m, items, k - 1);
        let prior = m.lock_items(items, k - 1);
        let item = items[k - 1];
        lemma_lock_item_wf(prior, item);
        assert forall|p: u128|
            #[trigger] n.account(PartyId(p)).free == m.account(PartyId(p)).free
                - ledger::pending(items, k, PartyId(p)) by {
            let party = PartyId(p);
            seqs::lemma_sum_take(
                items,
                |item: LockItem| ledger::free_part(item, party),
                k - 1,
            );
            assert(prior.account(PartyId(p)).free == m.account(PartyId(p)).free
                - ledger::pending(items, k - 1, PartyId(p)));
        }
        assert forall|r: int| 0 <= r < m.slots.len() implies #[trigger] n.slots[r] == if (exists|
            j: int,
        |
            0 <= j < k && items[j] == LockItem::FromReservation(ReservationId(r as u64))) && r
            <= u64::MAX {
            Slot::Spent
        } else {
            m.slots[r]
        } by {
            if r <= u64::MAX {
                let id = ReservationId(r as u64);
                assert(prior.slots[r] == if exists|j: int|
                    0 <= j < k - 1 && items[j] == LockItem::FromReservation(id) {
                    Slot::Spent
                } else {
                    m.slots[r]
                });
                if item == LockItem::FromReservation(id) {
                    assert(items[k - 1] == LockItem::FromReservation(id));
                } else {
                    assert(n.slots[r] == prior.slots[r]);
                    if exists|j: int| 0 <= j < k && items[j] == LockItem::FromReservation(id) {
                        let j = choose|j: int|
                            0 <= j < k && items[j] == LockItem::FromReservation(id);
                        assert(0 <= j < k - 1);
                    }
                }
            } else {
                assert(n.slots[r] == prior.slots[r]);
            }
        }
    }
    if k < items.len() {
        assert(m.item_error(items, k) is None);
        match items[k] {
            LockItem::FromReservation(id) => {
                assert(n.slots[id.0 as int] == m.slots[id.0 as int]);
            },
            LockItem::FromFree { party, amount } => {
                seqs::lemma_sum_take(items, |item: LockItem| ledger::free_part(item, party), k);
                assert(n.account(PartyId(party.0)).free == m.account(PartyId(party.0)).free
                    - ledger::pending(items, k, PartyId(party.0)));
            },
        }
    }
}

pub proof fn lemma_counted(m: LedgerModel, items: Seq<LockItem>)
    requires
        m.wf(),
    ensures
        m.counted().wf(),
        m.counted().batch_error(items) == m.batch_error(items),
        m.counted().batch_handles(items) == m.batch_handles(items),
        m.counted().held_total() == m.held_total(),
        m.counted().escrowed_total() == m.escrowed_total(),
        m.counted().credited_total() == m.credited_total(),
{
    let n = m.counted();
    lemma_same_rows(m, n);
    assert forall|p: u128| #[trigger] n.row_ok(PartyId(p)) by {
        assert(m.row_ok(PartyId(p)));
    }
    lemma_counted_errors(m, items, 0);
}

proof fn lemma_counted_errors(m: LedgerModel, items: Seq<LockItem>, i: int)
    requires
        0 <= i <= items.len(),
    ensures
        m.counted().error_from(items, i) == m.error_from(items, i),
    decreases items.len() - i,
{
    if i < items.len() {
        lemma_counted_errors(m, items, i + 1);
        assert(m.counted().item_error(items, i) == m.item_error(items, i));
    }
}

pub proof fn lemma_lock_batch_wf(m: LedgerModel, items: Seq<LockItem>)
    requires
        m.wf(),
    ensures
        m.lock_batch(items).wf(),
        m.lock_batch(items).held_total() == m.held_total(),
        m.lock_batch(items).credited_total() == m.credited_total(),
{
    lemma_counted(m, items);
    if m.batch_error(items) is None {
        lemma_lock_items(m.counted(), items, items.len() as int);
    }
}

/// The hold that an item leaves in escrow.
pub open spec fn item_hold(m: LedgerModel, item: LockItem) -> Hold {
    match item {
        LockItem::FromReservation(id) => m.reservation(id)->Some_0,
        LockItem::FromFree { party, amount } => Hold { party, amount },
    }
}

/// The handles of a sound batch stand for what its items held, and the escrow grows by that
/// much.
pub proof fn lemma_lock_items_holds(m: LedgerModel, items: Seq<LockItem>, k: int)
    requires
        m.wf(),
        m.batch_error(items) is None,
        0 <= k <= items.len(),
    ensures
        m.lock_items(items, k).slots.len() == m.slots.len() + k,
        forall|i: int|
            0 <= i < k ==> #[trigger] m.lock_items(items, k).slots[m.slots.len() + i]
                == Slot::Escrowed(item_hold(m, items[i])),
        m.lock_items(items, k).escrowed_total() == m.escrowed_total() + seqs::sum_by(
            items.take(k),
            |item: LockItem| item_hold(m, item).amount.0 as int,
        ),
    decreases k,
{
    lemma_no_batch_error(m, items, 0);
    lemma_lock_items(m, items, k);
    if k == 0 {
        assert(items.take(0).len() == 0);
    } else {
        lemma_lock_items_holds(m, items, k - 1);
        lemma_lock_items(m, items, k - 1);
        let prior = m.lock_items(items, k - 1);
        let n = m.lock_items(items, k);
        let item = items[k - 1];
        assert(m.item_error(items, k - 1) is None);
        lemma_lock_item_wf(prior, item);
        if let LockItem::FromReservation(id) = item {
            assert(prior.slots[id.0 as int] == m.slots[id.0 as int]);
        }
        assert(item_hold(prior, item) == item_hold(m, item));
        assert forall|i: int| 0 <= i < k implies #[trigger] n.slots[m.slots.len() + i]
            == Slot::Escrowed(item_hold(m, items[i])) by {
            if i < k - 1 {
                assert(n.slots[m.slots.len() + i] == prior.slots[m.slots.len() + i]);
            }
        }
        seqs::lemma_sum_take(items, |item: LockItem| item_hold(m, item).amount.0 as int, k - 1);
    }
}

/// Conservation: every unit that was credited is still in some account.
pub proof fn law_conservation(m: LedgerModel)
    requires
        m.wf(),
    ensures
        m.held_total() == m.credited_total(),
{
    lemma_sums_balance(m, m.parties.len() as int);
    assert(m.parties.take(m.parties.len() as int) =~= m.parties);
}

proof fn lemma_sums_balance(m: LedgerModel, k: int)
    requires
        m.wf(),
        0 <= k <= m.parties.len(),
    ensures
        ({
            let some = LedgerModel { parties: m.parties.take(k), ..m };
            some.held_total() + some.paid_total() == some.credited_total() + some.received_total()
        }),
    decreases k,
{
    if k == 0 {
        assert(m.parties.take(0).len() == 0);
    } else {
        lemma_sums_balance(m, k - 1);
        let p = m.parties[k - 1];
        assert(m.parties.contains(p));
        assert(m.row_ok(PartyId(p)));
        let some = LedgerModel { parties: m.parties.take(k), ..m };
        let fewer = LedgerModel { parties: m.parties.take(k - 1), ..m };
        lemma_sum_rows_take(m, |row: Row| row.account.sum(), k - 1);
        lemma_sum_rows_take(m, |row: Row| row.paid_to_others, k - 1);
        lemma_sum_rows_take(m, |row: Row| row.credits(), k - 1);
        lemma_sum_rows_take(m, |row: Row| row.received_from_others, k - 1);
    }
}

proof fn lemma_sum_rows_take(m: LedgerModel, f: spec_fn(Row) -> int, k: int)
    requires
        0 <= k < m.parties.len(),
    ensures
        (LedgerModel { parties: m.parties.take(k + 1), ..m }).sum_rows(f) == (LedgerModel {
            parties: m.parties.take(k),
            ..m
        }).sum_rows(f) + f(m.rows[m.parties[k]]),
{
    let some = LedgerModel { parties: m.parties.take(k + 1), ..m };
    let fewer = LedgerModel { parties: m.parties.take(k), ..m };
    let g = |p: u128| f(some.rows[p]);
    let h = |p: u128| f(fewer.rows[p]);
    seqs::lemma_sum_take(m.parties, g, k);
    seqs::lemma_sum_same(m.parties.take(k), g, m.parties.take(k), h);
}

/// Per party, free, reserved and escrowed together are the credits less what was paid to others,
/// and what was received from others.
pub proof fn law_party_balance(m: LedgerModel, party: PartyId)
    requires
        m.wf(),
    ensures
        m.account(party).sum() == m.row(party).credits() - m.row(party).paid_to_others + m.row(
            party,
        ).received_from_others,
{
    assert(m.row_ok(PartyId(party.0)));
}

/// What a party has reserved and in escrow is exactly what stands behind handles.
pub proof fn law_buckets_are_backed(m: LedgerModel, party: PartyId)
    requires
        m.wf(),
    ensures
        m.account(party).reserved == m.reserved_for(party),
        m.account(party).escrowed == m.escrowed_for(party),
{
    assert(m.row_ok(PartyId(party.0)));
}

/// Releasing a reservation undoes it: every account is as it was.
pub proof fn law_release_undoes_reserve(
    m: LedgerModel,
    party: PartyId,
    amount: Amount,
    other: PartyId,
)
    requires
        m.wf(),
        amount.0 <= m.account(party).free,
        m.slots.len() < u64::MAX,
    ensures
        m.reserve(party, amount).release(ReservationId(m.slots.len() as u64)).account(other)
            == m.account(other),
{
    assert(m.row_ok(PartyId(party.0)));
}

/// Whether nobody has gained or lost anything: whatever moved between a party's own buckets,
/// its total and what it was credited, has paid and has received are the same.
pub open spec fn nobody_gains(m: LedgerModel, n: LedgerModel) -> bool {
    forall|p: u128|
        {
            let before = m.row(PartyId(p));
            let after = #[trigger] n.row(PartyId(p));
            &&& after.account.sum() == before.account.sum()
            &&& after.credited == before.credited
            &&& after.paid_to_others == before.paid_to_others
            &&& after.received_from_others == before.received_from_others
        }
}

pub proof fn lemma_nobody_gains_twice(l: LedgerModel, m: LedgerModel, n: LedgerModel)
    requires
        nobody_gains(l, m),
        nobody_gains(m, n),
    ensures
        nobody_gains(l, n),
{
    assert forall|p: u128|
        {
            let before = l.row(PartyId(p));
            let after = #[trigger] n.row(PartyId(p));
            &&& after.account.sum() == before.account.sum()
            &&& after.credited == before.credited
            &&& after.paid_to_others == before.paid_to_others
            &&& after.received_from_others == before.received_from_others
        } by {
        let between = m.row(PartyId(p));
    }
}

pub proof fn lemma_release_gains(m: LedgerModel, id: ReservationId)
    requires
        m.wf(),
    ensures
        nobody_gains(m, m.release(id)),
        m.release(id).lock_batch_calls == m.lock_batch_calls,
{
    if let Some(hold) = m.reservation(id) {
        lemma_holds_are_covered(m, id.0 as int);
        assert(m.row_ok(PartyId(hold.party.0)));
    }
}

pub proof fn lemma_refund_gains(m: LedgerModel, handle: EscrowHandle)
    requires
        m.wf(),
    ensures
        nobody_gains(m, m.refund(handle)),
        m.refund(handle).lock_batch_calls == m.lock_batch_calls,
{
    if let Some(hold) = m.escrow(handle) {
        lemma_holds_are_covered(m, handle.0 as int);
        assert(m.row_ok(PartyId(hold.party.0)));
    }
}

pub proof fn lemma_lock_items_gains(m: LedgerModel, items: Seq<LockItem>, k: int)
    requires
        m.wf(),
        m.batch_error(items) is None,
        0 <= k <= items.len(),
    ensures
        nobody_gains(m, m.lock_items(items, k)),
    decreases k,
{
    if k > 0 {
        lemma_lock_items_gains(m, items, k - 1);
        lemma_lock_items(m, items, k - 1);
        let rest = m.lock_items(items, k - 1);
        let item = items[k - 1];
        match item {
            LockItem::FromReservation(id) => {
                lemma_holds_are_covered(rest, id.0 as int);
                assert(rest.row_ok(PartyId(rest.reservation(id)->Some_0.party.0)));
            },
            LockItem::FromFree { party, amount } => {
                assert(rest.row_ok(PartyId(party.0)));
            },
        }
        assert(nobody_gains(rest, rest.lock_item(item)));
        lemma_nobody_gains_twice(m, rest, rest.lock_item(item));
    }
}

/// What an item of a batch puts into escrow for a party.
pub open spec fn item_part(m: LedgerModel, item: LockItem, party: PartyId) -> int {
    if item_hold(m, item).party == party {
        item_hold(m, item).amount.0 as int
    } else {
        0
    }
}

/// What an item takes out of the reserved balance of a party.
pub open spec fn reserved_item_part(m: LedgerModel, item: LockItem, party: PartyId) -> int {
    if item is FromReservation {
        item_part(m, item, party)
    } else {
        0
    }
}

/// The first `k` items of a sound batch put into escrow for a party what they hold of it, and take
/// out of its reserved balance what was reserved of that.
pub proof fn lemma_lock_items_for(m: LedgerModel, items: Seq<LockItem>, k: int, party: PartyId)
    requires
        m.wf(),
        m.batch_error(items) is None,
        0 <= k <= items.len(),
    ensures
        m.lock_items(items, k).account(party).escrowed == m.account(party).escrowed
            + seqs::sum_by(items.take(k), |item: LockItem| item_part(m, item, party)),
        m.lock_items(items, k).account(party).reserved == m.account(party).reserved
            - seqs::sum_by(items.take(k), |item: LockItem| reserved_item_part(m, item, party)),
    decreases k,
{
    if k == 0 {
        assert(items.take(0).len() == 0);
    } else {
        lemma_lock_items_for(m, items, k - 1, party);
        lemma_lock_items(m, items, k - 1);
        lemma_no_batch_error(m, items, 0);
        let prior = m.lock_items(items, k - 1);
        let item = items[k - 1];
        assert(m.item_error(items, k - 1) is None);
        match item {
            LockItem::FromReservation(id) => {
                assert(prior.slots[id.0 as int] == m.slots[id.0 as int]);
                lemma_holds_are_covered(prior, id.0 as int);
                assert(prior.row_ok(PartyId(prior.reservation(id)->Some_0.party.0)));
            },
            LockItem::FromFree { party, amount } => {
                assert(prior.row_ok(PartyId(party.0)));
            },
        }
        seqs::lemma_sum_take(items, |item: LockItem| item_part(m, item, party), k - 1);
        seqs::lemma_sum_take(items, |item: LockItem| reserved_item_part(m, item, party), k - 1);
    }
}

/// The chunks behind some handles refunded, one after the other.
pub open spec fn refund_each(m: LedgerModel, handles: Seq<EscrowHandle>) -> LedgerModel
    decreases handles.len(),
{
    if handles.len() == 0 {
        m
    } else {
        refund_each(m, handles.drop_last()).refund(handles.last())
    }
}

/// Refunding spends the chunks behind the handles and nothing else. Nobody gains or loses, and
/// nobody has more or less reserved.
proof fn lemma_refund_each(m: LedgerModel, handles: Seq<EscrowHandle>)
    requires
        m.wf(),
    ensures
        ({
            let after = refund_each(m, handles);
            &&& after.wf()
            &&& nobody_gains(m, after)
            &&& after.slots.len() == m.slots.len()
            &&& forall|p: u128|
                (#[trigger] after.row(PartyId(p))).account.reserved == m.account(
                    PartyId(p),
                ).reserved
            &&& forall|r: int|
                0 <= r < m.slots.len() ==> #[trigger] after.slots[r] == if m.slots[r] is Escrowed
                    && r <= u64::MAX && handles.contains(EscrowHandle(r as u64)) {
                    Slot::Spent
                } else {
                    m.slots[r]
                }
        }),
    decreases handles.len(),
{
    if handles.len() > 0 {
        let fewer = handles.drop_last();
        let handle = handles.last();
        lemma_refund_each(m, fewer);
        let rest = refund_each(m, fewer);
        let after = refund_each(m, handles);
        lemma_refund_wf(rest, handle);
        lemma_refund_gains(rest, handle);
        lemma_nobody_gains_twice(m, rest, after);
        if let Some(hold) = rest.escrow(handle) {
            lemma_holds_are_covered(rest, handle.0 as int);
        }
        assert forall|p: u128|
            (#[trigger] after.row(PartyId(p))).account.reserved == m.account(
                PartyId(p),
            ).reserved by {
            assert(rest.row(PartyId(p)).account.reserved == m.account(PartyId(p)).reserved);
        }
        assert forall|r: int| 0 <= r < m.slots.len() implies #[trigger] after.slots[r] == if
            m.slots[r] is Escrowed && r <= u64::MAX && handles.contains(EscrowHandle(r as u64)) {
            Slot::Spent
        } else {
            m.slots[r]
        } by {
            assert(rest.slots[r] == if m.slots[r] is Escrowed && r <= u64::MAX
                && fewer.contains(EscrowHandle(r as u64)) {
                Slot::Spent
            } else {
                m.slots[r]
            });
            if r <= u64::MAX {
                lemma_last_or_before(handles, EscrowHandle(r as u64));
            }
        }
    }
}

proof fn lemma_last_or_before(handles: Seq<EscrowHandle>, handle: EscrowHandle)
    requires
        handles.len() > 0,
    ensures
        handles.contains(handle) <==> handles.drop_last().contains(handle) || handles.last()
            == handle,
{
    if handles.contains(handle) {
        let i = choose|i: int| 0 <= i < handles.len() && handles[i] == handle;
        if i < handles.len() - 1 {
            assert(handles.drop_last()[i] == handle);
        }
    }
    if handles.drop_last().contains(handle) {
        let i = choose|i: int| 0 <= i < handles.len() - 1 && handles.drop_last()[i] == handle;
        assert(handles[i] == handle);
    }
    if handles.last() == handle {
        assert(handles[handles.len() - 1] == handle);
    }
}

/// Refunding every handle of a batch, in any order, gives each party back what it posted, and
/// nothing to anybody else: its free balance rises by the sum of its own items, and what it has
/// in escrow is what it had before the batch. Against the ledger before the batch, what it had
/// in items from its free balance is free again, and what it had reserved under the batch's
/// reservations is free and no longer reserved. Its total and its record of credits and payments
/// are as they were, and where all items came from free balances so are all its balances.
pub proof fn law_refunding_a_batch_returns_each_item(
    m: LedgerModel,
    items: Seq<LockItem>,
    handles: Seq<EscrowHandle>,
    party: PartyId,
)
    requires
        m.wf(),
        m.batch_error(items) is None,
        m.slots.len() + items.len() <= u64::MAX,
        handles.to_multiset() == m.batch_handles(items).to_multiset(),
    ensures
        ({
            let locked = m.lock_batch(items);
            let after = refund_each(locked, handles);
            let own = seqs::sum_by(items, |item: LockItem| item_part(m, item, party));
            let reserved = seqs::sum_by(
                items,
                |item: LockItem| reserved_item_part(m, item, party),
            );
            &&& after.account(party).free == locked.account(party).free + own
            &&& after.account(party).free == m.account(party).free + reserved
            &&& after.account(party).reserved == m.account(party).reserved - reserved
            &&& after.account(party).escrowed == m.account(party).escrowed
            &&& after.account(party).sum() == m.account(party).sum()
            &&& after.row(party).credited == m.row(party).credited
            &&& after.row(party).paid_to_others == m.row(party).paid_to_others
            &&& after.row(party).received_from_others == m.row(party).received_from_others
            &&& (forall|i: int| 0 <= i < items.len() ==> (#[trigger] items[i]) is FromFree)
                ==> after.account(party) == m.account(party)
        }),
{
    let n = items.len() as int;
    let counted = m.counted();
    let locked = m.lock_batch(items);
    let after = refund_each(locked, handles);
    let p = PartyId(party.0);
    lemma_counted(m, items);
    lemma_lock_items(counted, items, n);
    lemma_lock_items_gains(counted, items, n);
    lemma_lock_items_for(counted, items, n, party);
    lemma_refund_each(locked, handles);
    lemma_batch_is_spent(m, items, handles);
    assert(items.take(n) =~= items);
    let own = |item: LockItem| item_part(m, item, party);
    let own_counted = |item: LockItem| item_part(counted, item, party);
    seqs::lemma_sum_same(items, own, items, own_counted);
    let reserved = |item: LockItem| reserved_item_part(m, item, party);
    let reserved_counted = |item: LockItem| reserved_item_part(counted, item, party);
    seqs::lemma_sum_same(items, reserved, items, reserved_counted);
    assert(counted.row(p) == m.row(p));
    assert(locked.row(p).account.sum() == counted.row(p).account.sum());
    assert(after.row(p).account.sum() == locked.row(p).account.sum());
    assert(after.row(p).account.reserved == locked.account(p).reserved);
    let part = |slot: Slot| ledger::escrowed_part(slot, party);
    seqs::lemma_sum_zero_beyond(after.slots, part, m.slots.len() as int);
    seqs::lemma_sum_same(m.slots, part, after.slots.take(m.slots.len() as int), part);
    assert(after.row_ok(p) && m.row_ok(p));
    if forall|i: int| 0 <= i < items.len() ==> (#[trigger] items[i]) is FromFree {
        let nothing = |item: LockItem| 0int;
        seqs::lemma_sum_same(items, nothing, items, reserved);
        seqs::lemma_sum_zero_beyond(items, nothing, 0);
        assert(items.take(0).len() == 0);
    }
}

/// After a batch and the refund of its handles nothing is left of it in escrow, and what was in
/// escrow before still is.
proof fn lemma_batch_is_spent(m: LedgerModel, items: Seq<LockItem>, handles: Seq<EscrowHandle>)
    requires
        m.wf(),
        m.batch_error(items) is None,
        m.slots.len() + items.len() <= u64::MAX,
        handles.to_multiset() == m.batch_handles(items).to_multiset(),
    ensures
        ({
            let after = refund_each(m.lock_batch(items), handles);
            &&& after.slots.len() == m.slots.len() + items.len()
            &&& forall|r: int|
                m.slots.len() <= r < after.slots.len() ==> #[trigger] after.slots[r] is Spent
            &&& forall|r: int|
                0 <= r < m.slots.len() ==> (#[trigger] after.slots[r] == m.slots[r] || (
                after.slots[r] is Spent && m.slots[r] is Reserved))
        }),
{
    broadcast use vstd::seq_lib::group_to_multiset_ensures;

    let n = items.len() as int;
    let counted = m.counted();
    let locked = m.lock_batch(items);
    let after = refund_each(locked, handles);
    let issued = m.batch_handles(items);
    lemma_counted(m, items);
    lemma_lock_items(counted, items, n);
    lemma_lock_items_holds(counted, items, n);
    lemma_refund_each(locked, handles);
    assert forall|r: int| m.slots.len() <= r < after.slots.len() implies #[trigger] after.slots[r]
        is Spent by {
        let i = r - m.slots.len();
        assert(locked.slots[m.slots.len() + i] is Escrowed);
        assert(issued[i] == EscrowHandle(r as u64));
        assert(issued.to_multiset().count(EscrowHandle(r as u64)) > 0);
        assert(handles.contains(EscrowHandle(r as u64)));
    }
    assert forall|r: int| 0 <= r < m.slots.len() implies (#[trigger] after.slots[r] == m.slots[r]
        || (after.slots[r] is Spent && m.slots[r] is Reserved)) by {
        let handle = EscrowHandle(r as u64);
        if handles.contains(handle) {
            assert(handles.to_multiset().count(handle) > 0);
            let i = choose|i: int| 0 <= i < issued.len() && issued[i] == handle;
            assert(false);
        }
        assert(after.slots[r] == locked.slots[r]);
        if locked.slots[r] != m.slots[r] {
            let id = ReservationId(r as u64);
            let j = choose|j: int| 0 <= j < n && items[j] == LockItem::FromReservation(id);
            lemma_no_batch_error(m, items, 0);
            assert(m.item_error(items, j) is None);
        }
    }
}

/// A handle works once: whatever used it up, a second use changes nothing.
pub proof fn law_handles_work_once(
    m: LedgerModel,
    id: ReservationId,
    handle: EscrowHandle,
    to: PartyId,
    again: PartyId,
)
    ensures
        m.release(id).release(id) == m.release(id),
        m.refund(handle).refund(handle) == m.refund(handle),
        m.refund(handle).payout(handle, again) == m.refund(handle),
        m.payout(handle, to).payout(handle, again) == m.payout(handle, to),
        m.payout(handle, to).refund(handle) == m.payout(handle, to),
{
}

/// All or nothing: a refused batch moves nothing and issues no handle.
pub proof fn law_refused_batch_moves_nothing(m: LedgerModel, items: Seq<LockItem>)
    requires
        m.batch_error(items) is Some,
    ensures
        m.lock_batch(items).rows == m.rows,
        m.lock_batch(items).parties == m.parties,
        m.lock_batch(items).slots == m.slots,
{
}

/// A batch is refused exactly when one of its items is bad, and the error is that of the first
/// bad item.
pub proof fn law_batch_error_is_the_first(m: LedgerModel, items: Seq<LockItem>)
    ensures
        m.batch_error(items) is None <==> forall|i: int|
            0 <= i < items.len() ==> (#[trigger] m.item_error(items, i)) is None,
        m.batch_error(items) is Some ==> exists|i: int|
            {
                &&& 0 <= i < items.len()
                &&& #[trigger] m.item_error(items, i) == m.batch_error(items)
                &&& forall|j: int| 0 <= j < i ==> (#[trigger] m.item_error(items, j)) is None
            },
{
    lemma_error_is_the_first(m, items, 0);
}

proof fn lemma_error_is_the_first(m: LedgerModel, items: Seq<LockItem>, from: int)
    requires
        0 <= from <= items.len(),
    ensures
        m.error_from(items, from) is None <==> forall|i: int|
            from <= i < items.len() ==> (#[trigger] m.item_error(items, i)) is None,
        m.error_from(items, from) is Some ==> exists|i: int|
            {
                &&& from <= i < items.len()
                &&& #[trigger] m.item_error(items, i) == m.error_from(items, from)
                &&& forall|j: int| from <= j < i ==> (#[trigger] m.item_error(items, j)) is None
            },
    decreases items.len() - from,
{
    if from < items.len() {
        lemma_error_is_the_first(m, items, from + 1);
        if m.item_error(items, from) is None {
            if m.error_from(items, from) is Some {
                let i = choose|i: int|
                    {
                        &&& from + 1 <= i < items.len()
                        &&& #[trigger] m.item_error(items, i) == m.error_from(items, from + 1)
                        &&& forall|j: int|
                            from + 1 <= j < i ==> (#[trigger] m.item_error(items, j)) is None
                    };
                assert(m.item_error(items, i) == m.error_from(items, from));
            }
        }
    }
}

/// Nothing that moves funds creates or destroys any.
pub proof fn law_moves_keep_the_total(
    m: LedgerModel,
    id: ReservationId,
    items: Seq<LockItem>,
    handle: EscrowHandle,
    to: PartyId,
)
    requires
        m.wf(),
    ensures
        m.release(id).held_total() == m.held_total(),
        m.lock_batch(items).held_total() == m.held_total(),
        m.refund(handle).held_total() == m.held_total(),
        m.payout(handle, to).held_total() == m.held_total(),
{
    lemma_release_wf(m, id);
    lemma_lock_batch_wf(m, items);
    lemma_refund_wf(m, handle);
    lemma_payout_wf(m, handle, to);
}

/// No party has more than was ever credited.
pub proof fn law_balances_are_within_the_credits(m: LedgerModel, party: PartyId)
    requires
        m.wf(),
    ensures
        0 <= m.account(party).free <= m.credited_total(),
        0 <= m.account(party).reserved <= m.credited_total(),
        0 <= m.account(party).escrowed <= m.credited_total(),
        m.account(party).sum() <= m.credited_total(),
{
    law_conservation(m);
    lemma_row_is_sound(m, party);
    let f = |row: Row| row.account.sum();
    let g = |p: u128| f(m.rows[p]);
    assert forall|i: int| 0 <= i < m.parties.len() implies g(#[trigger] m.parties[i]) >= 0 by {
        assert(m.parties.contains(m.parties[i]));
        assert(m.rows.contains_key(m.parties[i]));
        lemma_row_is_sound(m, PartyId(m.parties[i]));
    }
    seqs::lemma_sum_bounds(m.parties, g);
    if m.rows.contains_key(party.0) {
        assert(m.parties.contains(party.0));
        let i = choose|i: int| 0 <= i < m.parties.len() && m.parties[i] == party.0;
        assert(g(m.parties[i]) <= seqs::sum_by(m.parties, g));
    }
}

/// Nothing in a row is negative.
proof fn lemma_row_is_sound(m: LedgerModel, party: PartyId)
    requires
        m.wf(),
    ensures
        m.account(party).free >= 0,
        m.account(party).reserved >= 0,
        m.account(party).escrowed >= 0,
{
    assert(m.row_ok(PartyId(party.0)));
    seqs::lemma_sum_bounds(m.slots, |slot: Slot| ledger::reserved_part(slot, party));
    seqs::lemma_sum_bounds(m.slots, |slot: Slot| ledger::escrowed_part(slot, party));
}

/// The number of batches tried has no part in what moves do.
pub proof fn lemma_run_counted(m: LedgerModel, moves: Seq<Move>)
    ensures
        m.counted().run(moves) == (LedgerModel {
            lock_batch_calls: m.counted().lock_batch_calls,
            ..m.run(moves)
        }),
        m.counted().has_room(moves) == m.has_room(moves),
    decreases moves.len(),
{
    if moves.len() > 0 {
        lemma_run_counted(m, moves.drop_last());
        let rest = m.run(moves.drop_last());
        let n = m.run(moves);
        let other = m.counted().run(moves);
        assert(other == (LedgerModel { lock_batch_calls: m.counted().lock_batch_calls, ..n }));
        assert forall|p: u128| #[trigger] other.row(PartyId(p)) == n.row(PartyId(p)) by {}
        assert(other.fits() == n.fits()) by {
            if n.fits() {
                assert forall|p: u128| (#[trigger] other.row(PartyId(p))).fits() by {
                    assert(n.row(PartyId(p)).fits());
                }
            }
            if other.fits() {
                assert forall|p: u128| (#[trigger] n.row(PartyId(p))).fits() by {
                    assert(other.row(PartyId(p)).fits());
                }
            }
        }
    }
}

/// Where there is room for moves, there is room for the first of them, and the ledger fits after
/// each.
pub proof fn lemma_room_for_first(m: LedgerModel, moves: Seq<Move>, k: int)
    requires
        m.has_room(moves),
        0 <= k <= moves.len(),
    ensures
        m.has_room(moves.take(k)),
        k > 0 ==> m.run(moves.take(k)).fits(),
    decreases moves.len() - k,
{
    if k == moves.len() {
        assert(moves.take(k) =~= moves);
    } else {
        lemma_room_for_first(m, moves, k + 1);
        assert(moves.take(k + 1).drop_last() =~= moves.take(k));
    }
}

/// The same of the first moves and one more.
pub proof fn lemma_run_one_more(m: LedgerModel, moves: Seq<Move>, k: int)
    requires
        0 <= k < moves.len(),
    ensures
        m.run(moves.take(k + 1)) == m.run(moves.take(k)).step(moves[k]),
        m.has_room(moves.take(k + 1)) == (m.has_room(moves.take(k)) && m.run(
            moves.take(k + 1),
        ).fits()),
{
    assert(moves.take(k + 1).drop_last() =~= moves.take(k));
}

pub proof fn lemma_run_push(m: LedgerModel, moves: Seq<Move>, way: Move)
    ensures
        m.run(moves.push(way)) == m.run(moves).step(way),
        m.has_room(moves.push(way)) == (m.has_room(moves) && m.run(moves.push(way)).fits()),
{
    assert(moves.push(way).drop_last() =~= moves);
}

/// Letting go of holds has room wherever all that was ever credited is an amount: whatever
/// reservations are released and chunks refunded, one after the other, no bucket overflows.
pub proof fn law_letting_go_has_room(m: LedgerModel, moves: Seq<Move>)
    requires
        m.wf(),
        m.fits(),
        m.credited_total() <= u64::MAX,
        forall|k: int|
            0 <= k < moves.len() ==> (#[trigger] moves[k]) is Release || moves[k] is Refund,
    ensures
        m.has_room(moves),
        m.run(moves).wf(),
        m.run(moves).fits(),
        m.run(moves).credited_total() == m.credited_total(),
    decreases moves.len(),
{
    if moves.len() > 0 {
        let fewer = moves.drop_last();
        assert forall|k: int| 0 <= k < fewer.len() implies (#[trigger] fewer[k]) is Release
            || fewer[k] is Refund by {
            assert(moves[k] == fewer[k]);
        }
        law_letting_go_has_room(m, fewer);
        let rest = m.run(fewer);
        let n = m.run(moves);
        match moves.last() {
            Move::Release(id) => {
                lemma_release_wf(rest, id);
                lemma_release_gains(rest, id);
            },
            Move::Refund(handle) => {
                lemma_refund_wf(rest, handle);
                lemma_refund_gains(rest, handle);
            },
            _ => {},
        }
        assert(nobody_gains(rest, n));
        assert forall|p: u128| (#[trigger] n.row(PartyId(p))).fits() by {
            assert(rest.row(PartyId(p)).fits());
            law_balances_are_within_the_credits(n, PartyId(p));
        }
    }
}

/// Whether there is ample room: all that was ever credited is an amount, and so would be what any
/// party has paid and received if all that is in escrow were paid by it or to it.
pub open spec fn ample(m: LedgerModel) -> bool {
    &&& m.fits()
    &&& m.credited_total() <= u64::MAX
    &&& forall|p: u128|
        {
            let row = #[trigger] m.row(PartyId(p));
            &&& row.paid_to_others + m.escrowed_total() <= u64::MAX
            &&& row.received_from_others + m.escrowed_total() <= u64::MAX
        }
}

/// What is in escrow is not negative.
proof fn lemma_escrowed_total_is_sound(m: LedgerModel)
    requires
        m.wf(),
    ensures
        m.escrowed_total() >= 0,
{
    let f = |row: Row| row.account.escrowed;
    let g = |p: u128| f(m.rows[p]);
    assert forall|i: int| 0 <= i < m.parties.len() implies g(#[trigger] m.parties[i]) >= 0 by {
        assert(m.parties.contains(m.parties[i]));
        assert(m.rows.contains_key(m.parties[i]));
        lemma_row_is_sound(m, PartyId(m.parties[i]));
    }
    seqs::lemma_sum_bounds(m.parties, g);
}

/// A move that puts nothing into escrow has room where there is ample room, and leaves ample room.
proof fn lemma_ample_step(m: LedgerModel, way: Move)
    requires
        m.wf(),
        ample(m),
        way !is Lock,
    ensures
        m.step(way).wf(),
        ample(m.step(way)),
{
    let n = m.step(way);
    match way {
        Move::Release(id) => {
            lemma_release_wf(m, id);
            lemma_release_gains(m, id);
        },
        Move::Refund(handle) => {
            lemma_refund_wf(m, handle);
            lemma_refund_gains(m, handle);
        },
        Move::Payout(handle, to) => {
            lemma_payout_wf(m, handle, to);
        },
        Move::Lock(_) => {},
    }
    lemma_escrowed_total_is_sound(n);
    assert forall|p: u128|
        {
            let row = #[trigger] n.row(PartyId(p));
            &&& row.fits()
            &&& row.paid_to_others + n.escrowed_total() <= u64::MAX
            &&& row.received_from_others + n.escrowed_total() <= u64::MAX
        } by {
        let before = m.row(PartyId(p));
        assert(before.fits());
        law_balances_are_within_the_credits(n, PartyId(p));
        assert(n.row_ok(PartyId(p)));
    }
}

/// Where there is ample room, there is room for whatever is released, refunded and paid out, one
/// after the other, and ample room is left.
pub proof fn law_ample_room_is_room(m: LedgerModel, moves: Seq<Move>)
    requires
        m.wf(),
        ample(m),
        forall|k: int| 0 <= k < moves.len() ==> (#[trigger] moves[k]) !is Lock,
    ensures
        m.has_room(moves),
        m.run(moves).wf(),
        ample(m.run(moves)),
    decreases moves.len(),
{
    if moves.len() > 0 {
        let fewer = moves.drop_last();
        assert forall|k: int| 0 <= k < fewer.len() implies (#[trigger] fewer[k]) !is Lock by {
            assert(moves[k] == fewer[k]);
        }
        law_ample_room_is_room(m, fewer);
        lemma_ample_step(m.run(fewer), moves.last());
    }
}

/// Wherever all that was ever credited is an amount, what is free can be reserved.
pub proof fn law_reserving_has_room(m: LedgerModel, party: PartyId, amount: Amount)
    requires
        m.wf(),
        m.fits(),
        m.credited_total() <= u64::MAX,
        amount.0 <= m.account(party).free,
    ensures
        m.reserve(party, amount).fits(),
{
    let n = m.reserve(party, amount);
    lemma_reserve_wf(m, party, amount);
    law_conservation(m);
    law_conservation(n);
    assert forall|p: u128| (#[trigger] n.row(PartyId(p))).fits() by {
        assert(m.row(PartyId(p)).fits());
        law_balances_are_within_the_credits(n, PartyId(p));
    }
}

/// Wherever all that was ever credited is an amount, a sound batch has room.
pub proof fn law_batches_have_room(m: LedgerModel, items: Seq<LockItem>)
    requires
        m.wf(),
        m.fits(),
        m.credited_total() <= u64::MAX,
        m.batch_error(items) is None,
    ensures
        m.has_room_for(items),
{
    assert forall|k: int| 0 <= k <= items.len() implies (#[trigger] m.lock_items(items, k)).fits() by {
        lemma_lock_items(m, items, k);
        lemma_lock_items_gains(m, items, k);
        let n = m.lock_items(items, k);
        assert forall|p: u128| (#[trigger] n.row(PartyId(p))).fits() by {
            assert(m.row(PartyId(p)).fits());
            law_balances_are_within_the_credits(n, PartyId(p));
        }
    }
}

} // verus!
