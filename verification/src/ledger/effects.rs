//! What each operation on a ledger makes of the balances of any party, and of the handles.
use vstd::prelude::*;
use vstd::std_specs::convert::FromSpec;
use crate::domain::ids::PartyId;
use crate::domain::money::Amount;
use crate::ledger::laws;
use crate::ledger::{
    EscrowHandle, Hold, InsufficientFunds, LedgerAccount, LedgerModel, LockBatchError, LockItem,
    Move, ReservationId, Row, Slot,
};
use crate::{ledger, seqs, text};

verus! {

/// A party that has no row yet has nothing and never had; an amount of each bucket is what an
/// account shows of it, and all of them together are its total.
pub proof fn law_rows_and_accounts(m: LedgerModel, party: PartyId, account: LedgerAccount)
    ensures
        m.rows.contains_key(party.0) ==> m.account(party) == m.rows[party.0].account,
        !m.rows.contains_key(party.0) ==> {
            &&& m.account(party).free == 0
            &&& m.account(party).reserved == 0
            &&& m.account(party).escrowed == 0
            &&& m.row(party).credited is None
            &&& m.row(party).paid_to_others == 0
            &&& m.row(party).received_from_others == 0
        },
        m.account(party) == m.row(party).account,
        account@.free == account.free.0,
        account@.reserved == account.reserved.0,
        account@.escrowed == account.escrowed.0,
        account@.sum() == account.free.0 + account.reserved.0 + account.escrowed.0,
        account@.account() == account,
{
}

/// A row fits where every one of its numbers is an amount, and a ledger where every row does.
pub proof fn law_what_fits(m: LedgerModel, row: Row)
    ensures
        row.fits() <==> {
            &&& 0 <= row.account.free <= u64::MAX
            &&& 0 <= row.account.reserved <= u64::MAX
            &&& 0 <= row.account.escrowed <= u64::MAX
            &&& 0 <= row.paid_to_others <= u64::MAX
            &&& 0 <= row.received_from_others <= u64::MAX
            &&& row.credited matches Some(credited) ==> 0 <= credited <= u64::MAX
        },
        m.fits() <==> forall|p: u128| (#[trigger] m.row(PartyId(p))).fits(),
{
}

/// The totals of a ledger are the sums over all that have a row.
pub proof fn law_totals_are_sums(m: LedgerModel)
    ensures
        m.held_total() == seqs::sum_by(
            m.parties,
            |p: u128|
                m.rows[p].account.free + m.rows[p].account.reserved + m.rows[p].account.escrowed,
        ),
        m.escrowed_total() == seqs::sum_by(m.parties, |p: u128| m.rows[p].account.escrowed),
        m.reserved_total() == seqs::sum_by(m.parties, |p: u128| m.rows[p].account.reserved),
        m.paid_total() == seqs::sum_by(m.parties, |p: u128| m.rows[p].paid_to_others),
        m.received_total() == seqs::sum_by(m.parties, |p: u128| m.rows[p].received_from_others),
        m.credited_total() == seqs::sum_by(
            m.parties,
            |p: u128|
                match m.rows[p].credited {
                    Some(amount) => amount,
                    None => 0,
                },
        ),
{
    let held = |row: Row| row.account.sum();
    let escrowed = |row: Row| row.account.escrowed;
    let reserved = |row: Row| row.account.reserved;
    let paid = |row: Row| row.paid_to_others;
    let received = |row: Row| row.received_from_others;
    let credited = |row: Row| row.credits();
    seqs::lemma_sum_same(
        m.parties,
        |p: u128| held(m.rows[p]),
        m.parties,
        |p: u128|
            m.rows[p].account.free + m.rows[p].account.reserved + m.rows[p].account.escrowed,
    );
    seqs::lemma_sum_same(
        m.parties,
        |p: u128| escrowed(m.rows[p]),
        m.parties,
        |p: u128| m.rows[p].account.escrowed,
    );
    seqs::lemma_sum_same(
        m.parties,
        |p: u128| reserved(m.rows[p]),
        m.parties,
        |p: u128| m.rows[p].account.reserved,
    );
    seqs::lemma_sum_same(
        m.parties,
        |p: u128| paid(m.rows[p]),
        m.parties,
        |p: u128| m.rows[p].paid_to_others,
    );
    seqs::lemma_sum_same(
        m.parties,
        |p: u128| received(m.rows[p]),
        m.parties,
        |p: u128| m.rows[p].received_from_others,
    );
    seqs::lemma_sum_same(
        m.parties,
        |p: u128| credited(m.rows[p]),
        m.parties,
        |p: u128|
            match m.rows[p].credited {
                Some(amount) => amount,
                None => 0,
            },
    );
}

/// A credit is added to what the party has free and to what it was credited. Nothing else changes.
pub proof fn law_credit_adds_to_free(
    m: LedgerModel,
    party: PartyId,
    amount: Amount,
    other: PartyId,
)
    ensures
        ({
            let n = m.credit(party, amount);
            let before = m.row(other);
            let after = n.row(other);
            &&& other != party ==> after == before
            &&& other == party ==> {
                &&& after.account.free == before.account.free + amount.0
                &&& after.account.reserved == before.account.reserved
                &&& after.account.escrowed == before.account.escrowed
                &&& after.credited == Some(
                    amount.0 + match before.credited {
                        Some(credited) => credited,
                        None => 0,
                    },
                )
                &&& after.paid_to_others == before.paid_to_others
                &&& after.received_from_others == before.received_from_others
            }
            &&& n.slots == m.slots
            &&& n.lock_batch_calls == m.lock_batch_calls
        }),
{
}

/// Reserving moves an amount from free to reserved, under the next handle. Nothing else changes.
pub proof fn law_reserve_moves_free_to_reserved(
    m: LedgerModel,
    party: PartyId,
    amount: Amount,
    other: PartyId,
)
    ensures
        ({
            let n = m.reserve(party, amount);
            let before = m.row(other);
            let after = n.row(other);
            let moved = if other == party {
                amount.0 as int
            } else {
                0
            };
            &&& after.account.free == before.account.free - moved
            &&& after.account.reserved == before.account.reserved + moved
            &&& after.account.escrowed == before.account.escrowed
            &&& after.credited == before.credited
            &&& after.paid_to_others == before.paid_to_others
            &&& after.received_from_others == before.received_from_others
            &&& n.slots == m.slots.push(Slot::Reserved(Hold { party, amount }))
            &&& n.lock_batch_calls == m.lock_batch_calls
        }),
{
}

/// Releasing a reservation that stands moves what was reserved back to free, for the party that
/// reserved it, and spends the handle. Nothing else changes, and nothing at all for a handle that
/// is unknown, spent, or of something in escrow.
pub proof fn law_release_moves_reserved_to_free(
    m: LedgerModel,
    id: ReservationId,
    other: PartyId,
)
    ensures
        ({
            let n = m.release(id);
            let before = m.row(other);
            let after = n.row(other);
            let stands = id.0 < m.slots.len() && m.slots[id.0 as int] is Reserved;
            let hold = m.slots[id.0 as int]->Reserved_0;
            let moved = if stands && hold.party == other {
                hold.amount.0 as int
            } else {
                0
            };
            &&& !stands ==> n == m
            &&& stands ==> n.slots == m.slots.update(id.0 as int, Slot::Spent)
            &&& after.account.free == before.account.free + moved
            &&& after.account.reserved == before.account.reserved - moved
            &&& after.account.escrowed == before.account.escrowed
            &&& after.credited == before.credited
            &&& after.paid_to_others == before.paid_to_others
            &&& after.received_from_others == before.received_from_others
            &&& n.lock_batch_calls == m.lock_batch_calls
        }),
{
}

/// Refunding a chunk that is in escrow moves it to the free balance of the party that posted it,
/// and spends the handle. Nothing else changes, and nothing at all for a handle that is unknown,
/// spent, or of a reservation.
pub proof fn law_refund_moves_escrow_to_its_poster(
    m: LedgerModel,
    handle: EscrowHandle,
    other: PartyId,
)
    ensures
        ({
            let n = m.refund(handle);
            let before = m.row(other);
            let after = n.row(other);
            let held = handle.0 < m.slots.len() && m.slots[handle.0 as int] is Escrowed;
            let hold = m.slots[handle.0 as int]->Escrowed_0;
            let moved = if held && hold.party == other {
                hold.amount.0 as int
            } else {
                0
            };
            &&& !held ==> n == m
            &&& held ==> n.slots == m.slots.update(handle.0 as int, Slot::Spent)
            &&& after.account.free == before.account.free + moved
            &&& after.account.reserved == before.account.reserved
            &&& after.account.escrowed == before.account.escrowed - moved
            &&& after.credited == before.credited
            &&& after.paid_to_others == before.paid_to_others
            &&& after.received_from_others == before.received_from_others
            &&& n.lock_batch_calls == m.lock_batch_calls
        }),
{
}

/// Paying out a chunk that is in escrow takes it from the party that posted it and adds it to the
/// free balance of the one it is paid to, and spends the handle; between two parties it is paid by
/// one and received by the other. Nothing else changes, and nothing at all for a handle that is
/// unknown, spent, or of a reservation.
pub proof fn law_payout_moves_escrow_to_the_payee(
    m: LedgerModel,
    handle: EscrowHandle,
    to: PartyId,
    other: PartyId,
)
    ensures
        ({
            let n = m.payout(handle, to);
            let before = m.row(other);
            let after = n.row(other);
            let held = handle.0 < m.slots.len() && m.slots[handle.0 as int] is Escrowed;
            let hold = m.slots[handle.0 as int]->Escrowed_0;
            let out = if held && hold.party == other {
                hold.amount.0 as int
            } else {
                0
            };
            let gain = if held && to == other {
                hold.amount.0 as int
            } else {
                0
            };
            &&& !held ==> n == m
            &&& held ==> n.slots == m.slots.update(handle.0 as int, Slot::Spent)
            &&& after.account.free == before.account.free + gain
            &&& after.account.reserved == before.account.reserved
            &&& after.account.escrowed == before.account.escrowed - out
            &&& after.credited == before.credited
            &&& after.paid_to_others == before.paid_to_others + if hold.party != to {
                out
            } else {
                0
            }
            &&& after.received_from_others == before.received_from_others + if hold.party != to {
                gain
            } else {
                0
            }
            &&& n.lock_batch_calls == m.lock_batch_calls
        }),
{
}

/// An item of a batch is good if its reservation stands and does not come a second time, or if the
/// party's free balance covers it together with all that the batch has asked of that party before.
/// A bad one is reported with its reservation, or with the party, what it has free, and what was
/// asked of it so far.
pub proof fn law_which_items_are_good(m: LedgerModel, items: Seq<LockItem>, i: int)
    requires
        0 <= i < items.len(),
    ensures
        match items[i] {
            LockItem::FromReservation(id) => {
                let good = id.0 < m.slots.len() && m.slots[id.0 as int] is Reserved && forall|
                    j: int,
                |
                    0 <= j < i ==> #[trigger] items[j] != LockItem::FromReservation(id);
                &&& good ==> m.item_error(items, i) is None
                &&& !good ==> m.item_error(items, i) == Some(
                    LockBatchError::UnknownReservation(id),
                )
            },
            LockItem::FromFree { party, amount } => {
                let asked = seqs::sum_by(
                    items.take(i + 1),
                    |item: LockItem|
                        match item {
                            LockItem::FromReservation(_) => 0,
                            LockItem::FromFree { party: p, amount } => if p == party {
                                amount.0 as int
                            } else {
                                0
                            },
                        },
                );
                let free = m.account(party).free;
                &&& asked <= free ==> m.item_error(items, i) is None
                &&& asked > free ==> m.item_error(items, i) == Some(
                    LockBatchError::InsufficientFunds(
                        InsufficientFunds {
                            party,
                            needed: Amount(
                                if asked <= u64::MAX {
                                    asked as u64
                                } else {
                                    u64::MAX
                                },
                            ),
                            available: Amount(free as u64),
                        },
                    ),
                )
            },
        },
{
    match items[i] {
        LockItem::FromReservation(id) => {
            if exists|j: int| 0 <= j < i && items[j] == LockItem::FromReservation(id) {
                let j = choose|j: int| 0 <= j < i && items[j] == LockItem::FromReservation(id);
                assert(items[j] == LockItem::FromReservation(id));
            }
        },
        LockItem::FromFree { party, amount } => {
            seqs::lemma_sum_same(
                items.take(i + 1),
                |item: LockItem| ledger::free_part(item, party),
                items.take(i + 1),
                |item: LockItem|
                    match item {
                        LockItem::FromReservation(_) => 0,
                        LockItem::FromFree { party: p, amount } => if p == party {
                            amount.0 as int
                        } else {
                            0
                        },
                    },
            );
        },
    }
}

/// A batch of good items puts each into escrow for its party, under the next handles in order, and
/// spends the reservations that it used. A party's free balance is less what was taken from it, its
/// escrow is more by what it has put in, and its total is the same. One more batch was tried, and
/// nothing else changes.
pub proof fn law_good_batches_go_into_escrow(
    m: LedgerModel,
    items: Seq<LockItem>,
    k: int,
    r: int,
    party: PartyId,
)
    requires
        m.wf(),
        forall|i: int| 0 <= i < items.len() ==> (#[trigger] m.item_error(items, i)) is None,
    ensures
        ({
            let n = m.lock_batch(items);
            let old_account = m.account(party);
            let account = n.account(party);
            &&& m.batch_error(items) is None
            &&& n.slots.len() == m.slots.len() + items.len()
            &&& 0 <= k < items.len() ==> n.slots[m.slots.len() + k] == Slot::Escrowed(
                match items[k] {
                    LockItem::FromReservation(id) => m.slots[id.0 as int]->Reserved_0,
                    LockItem::FromFree { party, amount } => Hold { party, amount },
                },
            )
            &&& 0 <= k < items.len() && m.slots.len() + k <= u64::MAX ==> m.batch_handles(
                items,
            )[k].0 == m.slots.len() + k
            &&& m.batch_handles(items).len() == items.len()
            &&& 0 <= r < m.slots.len() ==> n.slots[r] == if r <= u64::MAX && exists|j: int|
                0 <= j < items.len() && #[trigger] items[j] == LockItem::FromReservation(
                    ReservationId(r as u64),
                ) {
                Slot::Spent
            } else {
                m.slots[r]
            }
            &&& account.free == old_account.free - seqs::sum_by(
                items,
                |item: LockItem|
                    match item {
                        LockItem::FromReservation(_) => 0,
                        LockItem::FromFree { party: p, amount } => if p == party {
                            amount.0 as int
                        } else {
                            0
                        },
                    },
            )
            &&& account.escrowed == old_account.escrowed + seqs::sum_by(
                items,
                |item: LockItem|
                    match item {
                        LockItem::FromReservation(id) => if m.slots[id.0 as int]->Reserved_0.party
                            == party {
                            m.slots[id.0 as int]->Reserved_0.amount.0 as int
                        } else {
                            0
                        },
                        LockItem::FromFree { party: p, amount } => if p == party {
                            amount.0 as int
                        } else {
                            0
                        },
                    },
            )
            &&& account.free + account.reserved + account.escrowed == old_account.free
                + old_account.reserved + old_account.escrowed
            &&& n.row(party).credited == m.row(party).credited
            &&& n.row(party).paid_to_others == m.row(party).paid_to_others
            &&& n.row(party).received_from_others == m.row(party).received_from_others
            &&& n.lock_batch_calls == if m.lock_batch_calls < usize::MAX {
                m.lock_batch_calls + 1
            } else {
                usize::MAX as int
            }
        }),
{
    let c = m.counted();
    let len = items.len() as int;
    laws::law_batch_error_is_the_first(m, items);
    laws::lemma_counted(m, items);
    laws::lemma_lock_items(c, items, len);
    laws::lemma_lock_items_holds(c, items, len);
    laws::lemma_lock_items_gains(c, items, len);
    laws::lemma_lock_items_for(c, items, len, party);
    let n = m.lock_batch(items);
    assert(items.take(len) =~= items);
    seqs::lemma_sum_same(
        items,
        |item: LockItem| ledger::free_part(item, party),
        items,
        |item: LockItem|
            match item {
                LockItem::FromReservation(_) => 0,
                LockItem::FromFree { party: p, amount } => if p == party {
                    amount.0 as int
                } else {
                    0
                },
            },
    );
    assert forall|j: int| 0 <= j < items.len() implies (#[trigger] items[j]
        matches LockItem::FromReservation(id) ==> id.0 < m.slots.len()
        && m.slots[id.0 as int] is Reserved) by {
        assert(m.item_error(items, j) is None);
    }
    let put_in = |item: LockItem|
        match item {
            LockItem::FromReservation(id) => if m.slots[id.0 as int]->Reserved_0.party == party {
                m.slots[id.0 as int]->Reserved_0.amount.0 as int
            } else {
                0
            },
            LockItem::FromFree { party: p, amount } => if p == party {
                amount.0 as int
            } else {
                0
            },
        };
    let part = |item: LockItem| laws::item_part(c, item, party);
    assert forall|j: int| 0 <= j < items.len() implies part(#[trigger] items[j]) == put_in(
        items[j],
    ) by {
        assert(items[j] matches LockItem::FromReservation(id) ==> id.0 < m.slots.len()
            && m.slots[id.0 as int] is Reserved);
    }
    seqs::lemma_sum_same(items, part, items, put_in);
    assert(n.account(PartyId(party.0)).free == c.account(PartyId(party.0)).free
        - ledger::pending(items, len, PartyId(party.0)));
    assert(n.row(PartyId(party.0)).account.sum() == c.row(PartyId(party.0)).account.sum());
    if 0 <= k < len {
        assert(n.slots[c.slots.len() + k] == Slot::Escrowed(laws::item_hold(c, items[k])));
        assert(items[k] matches LockItem::FromReservation(id) ==> id.0 < m.slots.len()
            && m.slots[id.0 as int] is Reserved);
    }
    if 0 <= r < m.slots.len() {
        assert(n.slots[r] == if (exists|j: int|
            0 <= j < len && items[j] == LockItem::FromReservation(ReservationId(r as u64))) && r
            <= u64::MAX {
            Slot::Spent
        } else {
            c.slots[r]
        });
    }
}

/// A batch with a bad item is refused with what is wrong with the first one, and nothing moves; it
/// is counted as tried.
pub proof fn law_bad_batches_move_nothing(m: LedgerModel, items: Seq<LockItem>, i: int)
    requires
        0 <= i < items.len(),
        m.item_error(items, i) is Some,
        forall|j: int| 0 <= j < i ==> (#[trigger] m.item_error(items, j)) is None,
    ensures
        ({
            let n = m.lock_batch(items);
            &&& m.batch_error(items) == m.item_error(items, i)
            &&& n.rows == m.rows
            &&& n.parties == m.parties
            &&& n.slots == m.slots
            &&& n.lock_batch_calls == if m.lock_batch_calls < usize::MAX {
                m.lock_batch_calls + 1
            } else {
                usize::MAX as int
            }
        }),
{
    laws::law_batch_error_is_the_first(m, items);
    if m.batch_error(items) is Some {
        let j = choose|j: int|
            {
                &&& 0 <= j < items.len()
                &&& #[trigger] m.item_error(items, j) == m.batch_error(items)
                &&& forall|h: int| 0 <= h < j ==> (#[trigger] m.item_error(items, h)) is None
            };
        assert(j == i);
    }
}

/// There is room for moves exactly if every bucket and every record is an amount after each of
/// them, made one after the other.
pub proof fn law_room_for_moves(m: LedgerModel, moves: Seq<Move>, way: Move)
    ensures
        m.has_room(Seq::<Move>::empty()),
        m.run(Seq::<Move>::empty()) == m,
        m.has_room(moves.push(way)) <==> m.has_room(moves) && forall|p: u128|
            (#[trigger] m.run(moves.push(way)).row(PartyId(p))).fits(),
        m.run(moves.push(way)) == match way {
            Move::Release(id) => m.run(moves).release(id),
            Move::Lock(item) => m.run(moves).lock_item(item),
            Move::Payout(handle, to) => m.run(moves).payout(handle, to),
            Move::Refund(handle) => m.run(moves).refund(handle),
        },
{
    assert(moves.push(way).drop_last() =~= moves);
}

/// Parties stand in the order in which they first came: crediting and reserving put a party last
/// that has no row yet, a payout puts the poster and then the payee last if they have none, and
/// nothing else changes the order.
pub proof fn law_parties_stand_in_the_order_they_came(
    m: LedgerModel,
    party: PartyId,
    amount: Amount,
    handle: EscrowHandle,
    id: ReservationId,
)
    ensures
        ({
            let with = |parties: Seq<u128>, known: bool, p: PartyId|
                if known {
                    parties
                } else {
                    parties.push(p.0)
                };
            let known = |p: PartyId| m.rows.contains_key(p.0);
            let poster = m.slots[handle.0 as int]->Escrowed_0.party;
            let held = handle.0 < m.slots.len() && m.slots[handle.0 as int] is Escrowed;
            let reserver = m.slots[id.0 as int]->Reserved_0.party;
            let stands = id.0 < m.slots.len() && m.slots[id.0 as int] is Reserved;
            &&& m.credit(party, amount).parties == with(m.parties, known(party), party)
            &&& m.reserve(party, amount).parties == with(m.parties, known(party), party)
            &&& stands ==> m.release(id).parties == with(m.parties, known(reserver), reserver)
            &&& held ==> m.refund(handle).parties == with(m.parties, known(poster), poster)
            &&& held ==> m.payout(handle, party).parties == with(
                with(m.parties, known(poster), poster),
                known(party) || party == poster,
                party,
            )
            &&& m.credit(party, amount).rows.contains_key(party.0)
            &&& m.reserve(party, amount).rows.contains_key(party.0)
        }),
{
}

/// A new ledger has no parties, has issued no handles and has tried no batch; a new account has
/// nothing.
pub proof fn law_new_ledgers_are_empty()
    ensures
        LedgerModel::empty().parties.len() == 0,
        LedgerModel::empty().slots.len() == 0,
        LedgerModel::empty().lock_batch_calls == 0,
        forall|p: u128| !(#[trigger] LedgerModel::empty().rows.contains_key(p)),
        LedgerAccount::empty().free.0 == 0,
        LedgerAccount::empty().reserved.0 == 0,
        LedgerAccount::empty().escrowed.0 == 0,
{
}

/// A handle stands for what was reserved or put into escrow under it until it is spent, and for
/// nothing of the other kind.
pub proof fn law_what_handles_stand_for(m: LedgerModel, id: ReservationId, handle: EscrowHandle)
    ensures
        m.reservation(id) matches Some(hold) ==> id.0 < m.slots.len() && m.slots[id.0 as int]
            == Slot::Reserved(hold),
        m.reservation(id) is None ==> id.0 >= m.slots.len() || m.slots[id.0 as int] !is Reserved,
        m.escrow(handle) matches Some(hold) ==> handle.0 < m.slots.len()
            && m.slots[handle.0 as int] == Slot::Escrowed(hold),
        m.escrow(handle) is None ==> handle.0 >= m.slots.len() || m.slots[handle.0 as int]
            !is Escrowed,
{
}

/// What is said of a batch that is refused.
pub proof fn law_messages_of_refused_batches(id: ReservationId, funds: InsufficientFunds)
    ensures
        LockBatchError::UnknownReservation(id).spec_message()
            == "unknown or already-consumed reservation ReservationId("@ + text::decimal(
            id.0 as nat,
        ) + ")"@,
        LockBatchError::InsufficientFunds(funds).spec_message() == "insufficient funds for "@
            + text::hyphenated(funds.party.0) + ": needed "@ + text::decimal(
            funds.needed.0 as nat,
        ) + ", available "@ + text::decimal(funds.available.0 as nat),
        <LockBatchError as FromSpec<InsufficientFunds>>::from_spec(funds)
            == LockBatchError::InsufficientFunds(funds),
{
}

} // verus!
