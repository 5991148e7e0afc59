//! A ledger in memory, with a trail of what was credited, paid and received.
use vstd::prelude::*;
use std::collections::HashMap;
use crate::domain::ids::PartyId;
use crate::domain::money::Amount;
use crate::ledger::{
    EscrowHandle, Hold, InsufficientFunds, Ledger, LedgerAccount, LedgerModel, LockBatchError,
    LockItem, Move, ReservationId, Row, Slot,
};
use crate::{ledger, seqs};

verus! {

broadcast use vstd::std_specs::hash::group_hash_axioms;

/// One party's row in [`MockLedger::audit`].
#[derive(Debug, Clone, Copy, PartialEq, Eq, Structural)]
pub struct PartyAudit {
    pub party: PartyId,
    pub account: LedgerAccount,
    pub credited: Amount,
    pub paid_to_others: Amount,
    pub received_from_others: Amount,
}

/// One party's row, in amounts.
#[derive(Debug, Clone, Copy)]
struct Holdings {
    account: LedgerAccount,
    credited: Option<Amount>,
    paid_to_others: Amount,
    received_from_others: Amount,
}

impl View for Holdings {
    type V = Row;

    closed spec fn view(&self) -> Row {
        Row {
            account: self.account@,
            credited: match self.credited {
                Some(amount) => Some(amount.0 as int),
                None => None,
            },
            paid_to_others: self.paid_to_others.0 as int,
            received_from_others: self.received_from_others.0 as int,
        }
    }
}

/// In-memory [`Ledger`].
#[derive(Debug)]
pub struct MockLedger {
    /// Every party with a row, in the order in which they came.
    parties: Vec<u128>,
    rows: HashMap<u128, Holdings>,
    /// What each handle stands for.
    slots: Vec<Slot>,
    lock_batch_calls: usize,
}

impl View for MockLedger {
    type V = LedgerModel;

    closed spec fn view(&self) -> LedgerModel {
        LedgerModel {
            parties: self.parties@,
            rows: self.rows@.map_values(|row: Holdings| row@),
            slots: self.slots@,
            lock_batch_calls: self.lock_batch_calls,
        }
    }
}

/// As many 64-bit amounts as a `usize` counts, and one more, add up within 128 bits.
proof fn lemma_sum_fits(count: usize)
    ensures
        count * u64::MAX + u64::MAX == (count + 1) * u64::MAX,
        (count + 1) * u64::MAX <= u128::MAX,
{
    assert(count * u64::MAX + u64::MAX == (count + 1) * u64::MAX) by (nonlinear_arith);
    assert((count + 1) * u64::MAX <= u64::MAX * u64::MAX + u64::MAX) by (nonlinear_arith)
        requires
            count <= u64::MAX,
    ;
}

/// One audit row for each of the parties that was ever credited, in the order in which they came.
pub open spec fn audit_rows(m: LedgerModel, parties: Seq<u128>) -> Seq<PartyAudit>
    decreases parties.len(),
{
    if parties.len() == 0 {
        Seq::empty()
    } else {
        let rest = audit_rows(m, parties.drop_last());
        let row = m.rows[parties.last()];
        match row.credited {
            Some(credited) => rest.push(
                PartyAudit {
                    party: PartyId(parties.last()),
                    account: row.account.account(),
                    credited: Amount(credited as u64),
                    paid_to_others: Amount(row.paid_to_others as u64),
                    received_from_others: Amount(row.received_from_others as u64),
                },
            ),
            None => rest,
        }
    }
}

impl MockLedger {
    pub fn new() -> (ledger: MockLedger)
        ensures
            ledger@ == LedgerModel::empty(),
            ledger@.wf(),
    {
        proof {
            ledger::laws::lemma_empty_wf();
        }
        let ledger = MockLedger {
            parties: Vec::new(),
            rows: HashMap::new(),
            slots: Vec::new(),
            lock_batch_calls: 0,
        };
        assert(ledger@ =~= LedgerModel::empty());
        ledger
    }

    fn row(&self, party: PartyId) -> (row: Holdings)
        ensures
            row@ == self@.row(party),
    {
        match self.rows.get(&party.0) {
            Some(row) => *row,
            None => Holdings {
                account: LedgerAccount {
                    free: Amount(0),
                    reserved: Amount(0),
                    escrowed: Amount(0),
                },
                credited: None,
                paid_to_others: Amount(0),
                received_from_others: Amount(0),
            },
        }
    }

    fn set_row(&mut self, party: PartyId, row: Holdings)
        ensures
            final(self)@ == old(self)@.with_row(party, row@),
    {
        if !self.rows.contains_key(&party.0) {
            self.parties.push(party.0);
        }
        self.rows.insert(party.0, row);
        assert(self@ =~= old(self)@.with_row(party, row@));
    }

    fn reservation(&self, id: ReservationId) -> (hold: Option<Hold>)
        ensures
            hold == self@.reservation(id),
    {
        if id.0 < self.slots.len() as u64 {
            match self.slots[id.0 as usize] {
                Slot::Reserved(hold) => Some(hold),
                _ => None,
            }
        } else {
            None
        }
    }

    fn escrow(&self, handle: EscrowHandle) -> (hold: Option<Hold>)
        ensures
            hold == self@.escrow(handle),
    {
        if handle.0 < self.slots.len() as u64 {
            match self.slots[handle.0 as usize] {
                Slot::Escrowed(hold) => Some(hold),
                _ => None,
            }
        } else {
            None
        }
    }

    fn spend(&mut self, handle: u64)
        requires
            handle < old(self)@.slots.len(),
        ensures
            final(self)@ == old(self)@.with_slot(handle, Slot::Spent),
    {
        assert(handle < self.slots.len());
        self.slots.set(handle as usize, Slot::Spent);
        assert(self@ =~= old(self)@.with_slot(handle, Slot::Spent));
    }

    fn issue(&mut self, slot: Slot) -> (handle: u64)
        ensures
            final(self)@ == old(self)@.with_new_slot(slot),
            handle == old(self)@.slots.len(),
            final(self)@.slots.len() <= u64::MAX,
    {
        let handle: u64 = self.slots.len() as u64;
        self.slots.push(slot);
        assert(self@ =~= old(self)@.with_new_slot(slot));
        assert(self.slots.len() <= usize::MAX);
        handle
    }

    /// Whether every unit that was credited is still in some account.
    pub fn conservation_holds(&self) -> (b: bool)
        requires
            self@.wf(),
        ensures
            b == (self@.held_total() == self@.credited_total()),
            b,
    {
        proof {
            ledger::laws::law_conservation(self@);
        }
        let credited: u128 = self.credited_sum();
        let held: u128 = self.held_sum();
        held == credited
    }

    fn held_sum(&self) -> (total: u128)
        requires
            self@.wf(),
            self@.held_total() <= u128::MAX,
        ensures
            total == self@.held_total(),
    {
        let ghost m = self@;
        let ghost f = |p: u128| (|row: Row| row.account.sum())(m.rows[p]);
        proof {
            assert forall|j: int| 0 <= j < self.parties@.len() implies f(
                #[trigger] self.parties@[j],
            ) >= 0 by {
                assert(self.parties@.contains(self.parties@[j]));
                assert(m.rows.contains_key(self.parties@[j]));
                ledger::laws::law_balances_are_within_the_credits(m, PartyId(self.parties@[j]));
            }
        }
        let mut total: u128 = 0;
        let mut i: usize = 0;
        while i < self.parties.len()
            invariant
                0 <= i <= self.parties@.len(),
                m == self@,
                m.wf(),
                m.held_total() <= u128::MAX,
                f == (|p: u128| (|row: Row| row.account.sum())(m.rows[p])),
                forall|j: int|
                    0 <= j < self.parties@.len() ==> f(#[trigger] self.parties@[j]) >= 0,
                total == seqs::sum_by(self.parties@.take(i as int), f),
            decreases self.parties@.len() - i,
        {
            let party: u128 = self.parties[i];
            let account = self.row(PartyId(party)).account;
            let sum: u128 = account.free.0 as u128 + account.reserved.0 as u128
                + account.escrowed.0 as u128;
            proof {
                assert(self.parties@.contains(party));
                assert(m.rows.contains_key(party));
                seqs::lemma_sum_take(self.parties@, f, i as int);
                seqs::lemma_sum_first(self.parties@, f, i + 1);
                assert(sum == f(self.parties@[i as int]));
            }
            total = total + sum;
            i = i + 1;
        }
        proof {
            assert(self.parties@.take(i as int) =~= self.parties@);
        }
        total
    }

    fn credited_sum(&self) -> (total: u128)
        requires
            self@.wf(),
        ensures
            total == self@.credited_total(),
    {
        let ghost m = self@;
        let ghost f = |p: u128| (|row: Row| row.credits())(m.rows[p]);
        let mut total: u128 = 0;
        let mut i: usize = 0;
        while i < self.parties.len()
            invariant
                0 <= i <= self.parties@.len(),
                m == self@,
                m.wf(),
                f == (|p: u128| (|row: Row| row.credits())(m.rows[p])),
                total == seqs::sum_by(self.parties@.take(i as int), f),
                total <= i * u64::MAX,
            decreases self.parties@.len() - i,
        {
            let party: u128 = self.parties[i];
            proof {
                assert(self.parties@.contains(party));
                assert(m.rows.contains_key(party));
                seqs::lemma_sum_take(self.parties@, f, i as int);
                lemma_sum_fits(i);
            }
            if let Some(amount) = self.row(PartyId(party)).credited {
                total = total + amount.0 as u128;
            }
            i = i + 1;
        }
        proof {
            assert(self.parties@.take(i as int) =~= self.parties@);
        }
        total
    }

    /// The sum of what everyone has in escrow.
    pub fn escrowed_total(&self) -> (total: Amount)
        requires
            self@.wf(),
            self@.escrowed_total() <= u64::MAX,
        ensures
            total.0 == self@.escrowed_total(),
    {
        let total: u128 = self.escrowed_sum();
        Amount(total as u64)
    }

    fn escrowed_sum(&self) -> (total: u128)
        requires
            self@.wf(),
        ensures
            total == self@.escrowed_total(),
    {
        let ghost m = self@;
        let ghost f = |p: u128| (|row: Row| row.account.escrowed)(m.rows[p]);
        let mut total: u128 = 0;
        let mut i: usize = 0;
        while i < self.parties.len()
            invariant
                0 <= i <= self.parties@.len(),
                m == self@,
                m.wf(),
                f == (|p: u128| (|row: Row| row.account.escrowed)(m.rows[p])),
                total == seqs::sum_by(self.parties@.take(i as int), f),
                total <= i * u64::MAX,
            decreases self.parties@.len() - i,
        {
            let party: u128 = self.parties[i];
            proof {
                assert(self.parties@.contains(party));
                assert(m.rows.contains_key(party));
                seqs::lemma_sum_take(self.parties@, f, i as int);
                lemma_sum_fits(i);
            }
            let row = self.row(PartyId(party));
            total = total + row.account.escrowed.0 as u128;
            i = i + 1;
        }
        proof {
            assert(self.parties@.take(i as int) =~= self.parties@);
        }
        total
    }

    /// How many batches were tried, refused ones included.
    pub fn lock_batch_calls(&self) -> (calls: usize)
        ensures
            calls == self@.lock_batch_calls,
    {
        self.lock_batch_calls
    }

    /// One row per party that was ever credited.
    pub fn audit(&self) -> (rows: Vec<PartyAudit>)
        requires
            self@.wf(),
        ensures
            rows@ == audit_rows(self@, self@.parties),
    {
        let mut rows: Vec<PartyAudit> = Vec::new();
        let mut i: usize = 0;
        while i < self.parties.len()
            invariant
                0 <= i <= self.parties@.len(),
                self@.wf(),
                rows@ == audit_rows(self@, self.parties@.take(i as int)),
            decreases self.parties@.len() - i,
        {
            let party: u128 = self.parties[i];
            proof {
                assert(self.parties@.contains(party));
                assert(self@.rows.contains_key(party));
                assert(self.parties@.take(i + 1).drop_last() =~= self.parties@.take(i as int));
            }
            let row = self.row(PartyId(party));
            if let Some(credited) = row.credited {
                rows.push(
                    PartyAudit {
                        party: PartyId(party),
                        account: row.account,
                        credited,
                        paid_to_others: row.paid_to_others,
                        received_from_others: row.received_from_others,
                    },
                );
            }
            i = i + 1;
        }
        proof {
            assert(self.parties@.take(i as int) =~= self.parties@);
        }
        rows
    }

    /// What stands behind a reservation, if it still stands.
    pub fn reservation_of(&self, id: ReservationId) -> (hold: Option<Hold>)
        ensures
            hold == self@.reservation(id),
    {
        self.reservation(id)
    }

    /// What stands behind a chunk of escrow, if it is still there.
    pub fn escrow_of(&self, handle: EscrowHandle) -> (hold: Option<Hold>)
        ensures
            hold == self@.escrow(handle),
    {
        self.escrow(handle)
    }

    /// How many handles were ever issued.
    pub fn handles_issued(&self) -> (n: usize)
        ensures
            n == self@.slots.len(),
    {
        self.slots.len()
    }
}

/// Whether the `i`-th item's reservation came earlier in the batch.
fn came_before(items: &Vec<LockItem>, i: usize, id: ReservationId) -> (b: bool)
    requires
        i <= items@.len(),
    ensures
        b == exists|j: int| 0 <= j < i && items@[j] == LockItem::FromReservation(id),
{
    let mut j: usize = 0;
    while j < i
        invariant
            0 <= j <= i <= items@.len(),
            forall|k: int| 0 <= k < j ==> items@[k] != LockItem::FromReservation(id),
        decreases i - j,
    {
        if let LockItem::FromReservation(earlier) = items[j] {
            if earlier == id {
                return true;
            }
        }
        j = j + 1;
    }
    false
}

/// What the first `k` items take from a party's free balance together.
fn pending_free(items: &Vec<LockItem>, k: usize, party: PartyId) -> (needed: u128)
    requires
        k <= items@.len(),
    ensures
        needed == ledger::pending(items@, k as int, party),
{
    let ghost f = |item: LockItem| ledger::free_part(item, party);
    let mut needed: u128 = 0;
    let mut i: usize = 0;
    proof {
        assert(items@.take(0).len() == 0);
    }
    while i < k
        invariant
            0 <= i <= k <= items@.len(),
            f == (|item: LockItem| ledger::free_part(item, party)),
            needed == seqs::sum_by(items@.take(i as int), f),
            needed <= i * u64::MAX,
        decreases k - i,
    {
        proof {
            seqs::lemma_sum_take(items@, f, i as int);
            lemma_sum_fits(i);
        }
        if let LockItem::FromFree { party: taken_from, amount } = items[i] {
            if taken_from == party {
                needed = needed + amount.0 as u128;
            }
        }
        i = i + 1;
    }
    needed
}

impl MockLedger {
    /// What is wrong with the `i`-th item of a batch.
    fn item_error(&self, items: &Vec<LockItem>, i: usize) -> (error: Option<LockBatchError>)
        requires
            i < items@.len(),
        ensures
            error == self@.item_error(items@, i as int),
    {
        match items[i] {
            LockItem::FromReservation(id) => {
                if self.reservation(id).is_none() || came_before(items, i, id) {
                    Some(LockBatchError::UnknownReservation(id))
                } else {
                    None
                }
            },
            LockItem::FromFree { party, amount: _ } => {
                assert(i < items.len());
                let needed: u128 = pending_free(items, i + 1, party);
                let available = self.row(party).account.free;
                if needed > available.0 as u128 {
                    let capped: u64 = if needed <= u64::MAX as u128 {
                        needed as u64
                    } else {
                        u64::MAX
                    };
                    Some(
                        LockBatchError::InsufficientFunds(
                            InsufficientFunds { party, needed: Amount(capped), available },
                        ),
                    )
                } else {
                    None
                }
            },
        }
    }

    /// Moves one item into escrow.
    fn lock_item(&mut self, item: LockItem) -> (handle: EscrowHandle)
        requires
            old(self)@.wf(),
            ledger::laws::lockable(old(self)@, item),
            old(self)@.lock_item(item).fits(),
        ensures
            final(self)@ == old(self)@.lock_item(item),
            final(self)@.wf(),
            handle.0 == old(self)@.slots.len(),
            final(self)@.slots.len() <= u64::MAX,
    {
        proof {
            ledger::laws::lemma_lock_item_wf(self@, item);
        }
        match item {
            LockItem::FromReservation(id) => {
                let hold = match self.reservation(id) {
                    Some(hold) => hold,
                    None => Hold { party: PartyId(0), amount: Amount(0) },
                };
                proof {
                    ledger::laws::lemma_holds_are_covered(self@, id.0 as int);
                    assert(self@.lock_item(item).row(PartyId(hold.party.0)).fits());
                }
                let row = self.row(hold.party);
                let account = LedgerAccount {
                    free: row.account.free,
                    reserved: row.account.reserved - hold.amount,
                    escrowed: row.account.escrowed + hold.amount,
                };
                self.set_row(
                    hold.party,
                    Holdings {
                        account,
                        credited: row.credited,
                        paid_to_others: row.paid_to_others,
                        received_from_others: row.received_from_others,
                    },
                );
                self.spend(id.0);
                EscrowHandle(self.issue(Slot::Escrowed(hold)))
            },
            LockItem::FromFree { party, amount } => {
                proof {
                    assert(self@.lock_item(item).row(PartyId(party.0)).fits());
                }
                let row = self.row(party);
                let account = LedgerAccount {
                    free: row.account.free - amount,
                    reserved: row.account.reserved,
                    escrowed: row.account.escrowed + amount,
                };
                self.set_row(
                    party,
                    Holdings {
                        account,
                        credited: row.credited,
                        paid_to_others: row.paid_to_others,
                        received_from_others: row.received_from_others,
                    },
                );
                EscrowHandle(self.issue(Slot::Escrowed(Hold { party, amount })))
            },
        }
    }
}

impl MockLedger {
    /// A ledger with the same contents.
    fn copy(&self) -> (ledger: MockLedger)
        requires
            self@.wf(),
        ensures
            ledger@ == self@,
    {
        let mut rows: HashMap<u128, Holdings> = HashMap::new();
        let mut i: usize = 0;
        while i < self.parties.len()
            invariant
                0 <= i <= self.parties@.len(),
                self@.wf(),
                forall|p: u128| #[trigger]
                    rows@.contains_key(p) <==> self.parties@.take(i as int).contains(p),
                forall|p: u128| #[trigger] rows@.contains_key(p) ==> rows@[p]@ == self@.rows[p],
            decreases self.parties@.len() - i,
        {
            let party: u128 = self.parties[i];
            let ghost before = self.parties@.take(i as int);
            proof {
                assert(self.parties@.contains(party));
                assert(self@.rows.contains_key(party));
                assert(self.parties@.take(i + 1) =~= before.push(party));
                broadcast use vstd::seq_lib::lemma_seq_contains_after_push;
            }
            rows.insert(party, self.row(PartyId(party)));
            i = i + 1;
        }
        let ledger = MockLedger {
            parties: self.parties.clone(),
            rows,
            slots: self.slots.clone(),
            lock_batch_calls: self.lock_batch_calls,
        };
        proof {
            assert(self.parties@.take(i as int) =~= self.parties@);
            assert(ledger.parties@ =~= self.parties@);
            assert(ledger.slots@ =~= self.slots@);
            assert(ledger@.rows =~= self@.rows);
        }
        ledger
    }

    /// Whether the row of `party` could be this one.
    proof fn lemma_fits_with_row(&self, party: PartyId, row: Row)
        ensures
            self@.with_row(party, row).fits() == row.fits(),
            self@.fits(),
    {
        let n = self@.with_row(party, row);
        assert forall|p: u128| (#[trigger] self@.row(PartyId(p))).fits() by {}
        assert(n.row(PartyId(party.0)) == row);
        if row.fits() {
            assert forall|p: u128| (#[trigger] n.row(PartyId(p))).fits() by {
                if p != party.0 {
                    assert(n.row(PartyId(p)) == self@.row(PartyId(p)));
                }
            }
        }
    }

    /// Whether there is room for a move.
    fn has_room(&self, way: Move) -> (b: bool)
        requires
            self@.wf(),
            way matches Move::Lock(item) ==> ledger::laws::lockable(self@, item),
        ensures
            b == self@.step(way).fits(),
    {
        match way {
            Move::Release(id) => match self.reservation(id) {
                None => {
                    proof {
                        self.lemma_fits_with_row(PartyId(0), Row::empty());
                    }
                    true
                },
                Some(hold) => {
                    let row = self.row(hold.party);
                    proof {
                        ledger::laws::lemma_holds_are_covered(self@, id.0 as int);
                        self.lemma_fits_change(hold.party, self@.step(way));
                    }
                    row.account.free.0 <= u64::MAX - hold.amount.0
                },
            },
            Move::Refund(handle) => match self.escrow(handle) {
                None => {
                    proof {
                        self.lemma_fits_with_row(PartyId(0), Row::empty());
                    }
                    true
                },
                Some(hold) => {
                    let row = self.row(hold.party);
                    proof {
                        ledger::laws::lemma_holds_are_covered(self@, handle.0 as int);
                        self.lemma_fits_change(hold.party, self@.step(way));
                    }
                    row.account.free.0 <= u64::MAX - hold.amount.0
                },
            },
            Move::Lock(item) => {
                let (party, amount) = match item {
                    LockItem::FromReservation(id) => match self.reservation(id) {
                        Some(hold) => (hold.party, hold.amount),
                        None => (PartyId(0), Amount(0)),
                    },
                    LockItem::FromFree { party, amount } => (party, amount),
                };
                let row = self.row(party);
                proof {
                    if let LockItem::FromReservation(id) = item {
                        ledger::laws::lemma_holds_are_covered(self@, id.0 as int);
                    }
                    self.lemma_fits_change(party, self@.step(way));
                }
                row.account.escrowed.0 <= u64::MAX - amount.0
            },
            Move::Payout(handle, to) => match self.escrow(handle) {
                None => {
                    proof {
                        self.lemma_fits_with_row(PartyId(0), Row::empty());
                    }
                    true
                },
                Some(hold) => {
                    let amount: u64 = hold.amount.0;
                    let from = self.row(hold.party);
                    let row = self.row(to);
                    proof {
                        ledger::laws::lemma_holds_are_covered(self@, handle.0 as int);
                        let n = self@.step(way);
                        self.lemma_fits_with_row(PartyId(0), Row::empty());
                        assert(n.row(PartyId(to.0)).fits() && n.row(PartyId(hold.party.0)).fits()
                            ==> n.fits()) by {
                            if n.row(PartyId(to.0)).fits() && n.row(PartyId(hold.party.0)).fits() {
                                assert forall|p: u128| (#[trigger] n.row(PartyId(p))).fits() by {
                                    if p != to.0 && p != hold.party.0 {
                                        assert(n.row(PartyId(p)) == self@.row(PartyId(p)));
                                    }
                                }
                            }
                        }
                        assert(n.fits() ==> n.row(PartyId(to.0)).fits() && n.row(
                            PartyId(hold.party.0),
                        ).fits());
                        assert(self@.row(PartyId(to.0)).fits());
                        assert(self@.row(PartyId(hold.party.0)).fits());
                    }
                    row.account.free.0 <= u64::MAX - amount && (to == hold.party
                        || from.paid_to_others.0 <= u64::MAX - amount
                        && row.received_from_others.0 <= u64::MAX - amount)
                },
            },
        }
    }

    /// A ledger that differs in one row fits where that row does.
    proof fn lemma_fits_change(&self, party: PartyId, n: LedgerModel)
        requires
            forall|p: u128|
                p != party.0 ==> #[trigger] n.row(PartyId(p)) == self@.row(PartyId(p)),
        ensures
            n.fits() == n.row(party).fits(),
            self@.row(party).fits(),
    {
        self.lemma_fits_with_row(party, Row::empty());
        assert(self@.row(PartyId(party.0)).fits());
        if n.fits() {
            assert(n.row(PartyId(party.0)).fits());
        }
        if n.row(party).fits() {
            assert forall|p: u128| (#[trigger] n.row(PartyId(p))).fits() by {
                if p != party.0 {
                    assert(self@.row(PartyId(p)).fits());
                }
            }
        }
    }
}

impl Ledger for MockLedger {
    open spec fn model(&self) -> LedgerModel {
        self@
    }

    fn credit(&mut self, party: PartyId, amount: Amount) {
        proof {
            ledger::laws::lemma_credit_wf(self@, party, amount);
            assert(self@.credit(party, amount).row(PartyId(party.0)).fits());
        }
        let row = self.row(party);
        let credited = match row.credited {
            Some(already) => already + amount,
            None => amount,
        };
        let account = LedgerAccount {
            free: row.account.free + amount,
            reserved: row.account.reserved,
            escrowed: row.account.escrowed,
        };
        self.set_row(
            party,
            Holdings {
                account,
                credited: Some(credited),
                paid_to_others: row.paid_to_others,
                received_from_others: row.received_from_others,
            },
        );
    }

    fn reserve(&mut self, party: PartyId, amount: Amount) -> (id: Result<
        ReservationId,
        InsufficientFunds,
    >) {
        let row = self.row(party);
        let available = row.account.free;
        if available.0 < amount.0 {
            return Err(InsufficientFunds { party, needed: amount, available });
        }
        proof {
            ledger::laws::lemma_reserve_wf(self@, party, amount);
            assert(self@.reserve(party, amount).row(PartyId(party.0)).fits());
        }
        let account = LedgerAccount {
            free: row.account.free - amount,
            reserved: row.account.reserved + amount,
            escrowed: row.account.escrowed,
        };
        self.set_row(
            party,
            Holdings {
                account,
                credited: row.credited,
                paid_to_others: row.paid_to_others,
                received_from_others: row.received_from_others,
            },
        );
        Ok(ReservationId(self.issue(Slot::Reserved(Hold { party, amount }))))
    }

    fn release(&mut self, reservation: ReservationId) {
        proof {
            ledger::laws::lemma_release_wf(self@, reservation);
        }
        if let Some(hold) = self.reservation(reservation) {
            proof {
                ledger::laws::lemma_holds_are_covered(self@, reservation.0 as int);
                assert(self@.release(reservation).row(PartyId(hold.party.0)).fits());
            }
            let row = self.row(hold.party);
            let account = LedgerAccount {
                free: row.account.free + hold.amount,
                reserved: row.account.reserved - hold.amount,
                escrowed: row.account.escrowed,
            };
            self.set_row(
                hold.party,
                Holdings {
                    account,
                    credited: row.credited,
                    paid_to_others: row.paid_to_others,
                    received_from_others: row.received_from_others,
                },
            );
            self.spend(reservation.0);
        }
    }

    fn lock_batch(&mut self, items: Vec<LockItem>) -> (handles: Result<
        Vec<EscrowHandle>,
        LockBatchError,
    >) {
        let ghost before = self@;
        if self.lock_batch_calls < usize::MAX {
            self.lock_batch_calls = self.lock_batch_calls + 1;
        }
        let ghost base = self@;
        proof {
            assert(base =~= before.counted());
            ledger::laws::lemma_counted(before, items@);
        }
        if let Some(error) = self.check_batch(&items) {
            return Err(error);
        }
        let mut handles: Vec<EscrowHandle> = Vec::new();
        let mut k: usize = 0;
        proof {
            ledger::laws::lemma_lock_items(base, items@, 0);
            assert(self.slots.len() <= usize::MAX);
        }
        while k < items.len()
            invariant
                0 <= k <= items@.len(),
                base.wf(),
                base.batch_error(items@) is None,
                base.has_room_for(items@),
                self@ == base.lock_items(items@, k as int),
                self@.wf(),
                self@.slots.len() == base.slots.len() + k,
                k < items@.len() ==> ledger::laws::lockable(self@, items@[k as int]),
                handles@.len() == k,
                forall|j: int|
                    0 <= j < k ==> #[trigger] handles@[j] == EscrowHandle(
                        (base.slots.len() + j) as u64,
                    ),
                base.slots.len() + k <= u64::MAX,
            decreases items@.len() - k,
        {
            assert(base.lock_items(items@, k + 1).fits());
            let handle = self.lock_item(items[k]);
            handles.push(handle);
            k = k + 1;
            proof {
                ledger::laws::lemma_lock_items(base, items@, k as int);
            }
        }
        proof {
            assert(handles@ =~= before.batch_handles(items@));
        }
        Ok(handles)
    }

    fn check_batch(&self, items: &Vec<LockItem>) -> (error: Option<LockBatchError>) {
        let mut i: usize = 0;
        while i < items.len()
            invariant
                0 <= i <= items@.len(),
                self@.batch_error(items@) == self@.error_from(items@, i as int),
            decreases items@.len() - i,
        {
            if let Some(error) = self.item_error(items, i) {
                return Some(error);
            }
            i = i + 1;
        }
        None
    }

    fn payout(&mut self, escrow: EscrowHandle, to: PartyId) {
        proof {
            ledger::laws::lemma_payout_wf(self@, escrow, to);
        }
        if let Some(hold) = self.escrow(escrow) {
            if to == hold.party {
                self.refund(escrow);
            } else {
                proof {
                    ledger::laws::lemma_holds_are_covered(self@, escrow.0 as int);
                    assert(self@.payout(escrow, to).row(PartyId(hold.party.0)).fits());
                    assert(self@.payout(escrow, to).row(PartyId(to.0)).fits());
                }
                let from = self.row(hold.party);
                let row = self.row(to);
                let from_account = LedgerAccount {
                    free: from.account.free,
                    reserved: from.account.reserved,
                    escrowed: from.account.escrowed - hold.amount,
                };
                self.set_row(
                    hold.party,
                    Holdings {
                        account: from_account,
                        credited: from.credited,
                        paid_to_others: from.paid_to_others + hold.amount,
                        received_from_others: from.received_from_others,
                    },
                );
                let account = LedgerAccount {
                    free: row.account.free + hold.amount,
                    reserved: row.account.reserved,
                    escrowed: row.account.escrowed,
                };
                self.set_row(
                    to,
                    Holdings {
                        account,
                        credited: row.credited,
                        paid_to_others: row.paid_to_others,
                        received_from_others: row.received_from_others + hold.amount,
                    },
                );
                self.spend(escrow.0);
            }
        }
    }

    fn refund(&mut self, escrow: EscrowHandle) {
        proof {
            ledger::laws::lemma_refund_wf(self@, escrow);
        }
        if let Some(hold) = self.escrow(escrow) {
            proof {
                ledger::laws::lemma_holds_are_covered(self@, escrow.0 as int);
                assert(self@.refund(escrow).row(PartyId(hold.party.0)).fits());
            }
            let row = self.row(hold.party);
            let account = LedgerAccount {
                free: row.account.free + hold.amount,
                reserved: row.account.reserved,
                escrowed: row.account.escrowed - hold.amount,
            };
            self.set_row(
                hold.party,
                Holdings {
                    account,
                    credited: row.credited,
                    paid_to_others: row.paid_to_others,
                    received_from_others: row.received_from_others,
                },
            );
            self.spend(escrow.0);
        }
    }

    fn balance(&self, party: PartyId) -> (account: LedgerAccount) {
        self.row(party).account
    }

    proof fn amounts_fit(&self) {
        self.lemma_fits_with_row(PartyId(0), Row::empty());
    }

    fn can_make(&self, moves: &Vec<Move>) -> (b: bool) {
        let mut trial = self.copy();
        let mut i: usize = 0;
        while i < moves.len()
            invariant
                0 <= i <= moves@.len(),
                trial@.wf(),
                trial@ == self@.run(moves@.take(i as int)),
                self@.has_room(moves@.take(i as int)),
                forall|k: int|
                    0 <= k < moves@.len() ==> ((#[trigger] moves@[k]) matches Move::Lock(item)
                        ==> ledger::laws::lockable(self@.run(moves@.take(k)), item)),
            decreases moves@.len() - i,
        {
            let way = moves[i];
            proof {
                ledger::laws::lemma_run_one_more(self@, moves@, i as int);
            }
            if !trial.has_room(way) {
                proof {
                    if self@.has_room(moves@) {
                        ledger::laws::lemma_room_for_first(self@, moves@, i + 1);
                    }
                }
                return false;
            }
            trial.make(way);
            i = i + 1;
        }
        proof {
            assert(moves@.take(i as int) =~= moves@);
        }
        true
    }

    fn can_credit(&self, party: PartyId, amount: Amount) -> (b: bool) {
        let row = self.row(party);
        proof {
            self.lemma_fits_change(party, self@.credit(party, amount));
        }
        let credits: u64 = match row.credited {
            Some(credited) => credited.0,
            None => 0,
        };
        row.account.free.0 <= u64::MAX - amount.0 && credits <= u64::MAX - amount.0
    }

    fn can_reserve(&self, party: PartyId, amount: Amount) -> (b: bool) {
        let row = self.row(party);
        proof {
            self.lemma_fits_change(party, self@.reserve(party, amount));
        }
        row.account.free.0 < amount.0 || row.account.reserved.0 <= u64::MAX - amount.0
    }
}

impl MockLedger {
    /// Makes a move.
    fn make(&mut self, way: Move)
        requires
            old(self)@.wf(),
            way matches Move::Lock(item) ==> ledger::laws::lockable(old(self)@, item),
            old(self)@.step(way).fits(),
        ensures
            final(self)@ == old(self)@.step(way),
            final(self)@.wf(),
    {
        match way {
            Move::Release(id) => self.release(id),
            Move::Lock(item) => {
                let _handle = self.lock_item(item);
            },
            Move::Payout(handle, to) => self.payout(handle, to),
            Move::Refund(handle) => self.refund(handle),
        }
    }
}

/// An audit has a row for each party that was ever credited, in the order in which they came, and
/// for nobody else: with its balances, what it was credited, what it has paid to others and what it
/// has received from them.
pub proof fn law_audits_show_the_credited(m: LedgerModel, parties: Seq<u128>, party: u128)
    ensures
        audit_rows(m, Seq::<u128>::empty()).len() == 0,
        ({
            let row = m.rows[party];
            let rest = audit_rows(m, parties);
            let all = audit_rows(m, parties.push(party));
            &&& row.credited is None ==> all == rest
            &&& row.fits() ==> (row.credited matches Some(credited) ==> {
                &&& all.len() == rest.len() + 1
                &&& forall|i: int| 0 <= i < rest.len() ==> #[trigger] all[i] == rest[i]
                &&& all.last().party == PartyId(party)
                &&& all.last().account.free.0 == row.account.free
                &&& all.last().account.reserved.0 == row.account.reserved
                &&& all.last().account.escrowed.0 == row.account.escrowed
                &&& all.last().credited.0 == credited
                &&& all.last().paid_to_others.0 == row.paid_to_others
                &&& all.last().received_from_others.0 == row.received_from_others
            })
        }),
{
    assert(parties.push(party).drop_last() =~= parties);
}

} // verus!
